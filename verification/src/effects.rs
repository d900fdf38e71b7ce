//! The texture layers of camera-facing effect sprites. The emote atlas and the
//! status atlas come first; each sprite recipe adds its own texture; a dust
//! particle shares the first non-additive sprite texture of the same file, or
//! adds one of its own.
use vstd::prelude::*;

verus! {

/// The layer of the emote atlas.
pub const EMOTES: usize = 0;
/// The layer of the status atlas, shared with the dialogue frames.
pub const STATUS: usize = 1;

/// The texture layers of the field effects.
pub struct TextureTable {
    /// Texture file of each layer.
    pub paths: Vec<String>,
    /// Whether each layer blends additively.
    pub additive: Vec<bool>,
    /// Layer of each sprite recipe, by recipe kind.
    pub sprites: Vec<(u16, usize)>,
    /// Layer of each particle recipe, by particle kind.
    pub particles: Vec<(i32, usize)>,
}

/// Whether layer `i` can carry a particle drawn from `texture`: a sprite
/// layer past the atlases, blended normally, of the same file.
pub open spec fn shares(paths: Seq<Seq<char>>, additive: Seq<bool>, i: int, texture: Seq<char>) -> bool {
    STATUS < i < paths.len() && !additive[i] && paths[i] == texture
}

/// The first layer from `i` on that a particle drawn from `texture` shares.
pub open spec fn first_shared_from(paths: Seq<Seq<char>>, additive: Seq<bool>, texture: Seq<char>, i: int) -> Option<int>
    decreases paths.len() - i,
{
    if i >= paths.len() || i < 0 {
        None
    } else if shares(paths, additive, i, texture) {
        Some(i)
    } else {
        first_shared_from(paths, additive, texture, i + 1)
    }
}

/// The layer a particle drawn from `texture` shares, if any: the first one.
pub open spec fn first_shared(paths: Seq<Seq<char>>, additive: Seq<bool>, texture: Seq<char>) -> Option<int> {
    first_shared_from(paths, additive, texture, STATUS as int + 1)
}

proof fn lemma_first_shared_from(paths: Seq<Seq<char>>, additive: Seq<bool>, texture: Seq<char>, i: int)
    ensures
        first_shared_from(paths, additive, texture, i) matches Some(k) ==> i <= k && shares(paths, additive, k, texture),
    decreases paths.len() - i,
{
    if 0 <= i < paths.len() && !shares(paths, additive, i, texture) {
        lemma_first_shared_from(paths, additive, texture, i + 1);
    }
}

proof fn lemma_place_len(paths: Seq<Seq<char>>, additive: Seq<bool>, textures: Seq<Seq<char>>)
    requires
        paths.len() == additive.len(),
    ensures
        place(paths, additive, textures).0.len() == place(paths, additive, textures).1.len(),
        place(paths, additive, textures).0.len() >= paths.len(),
        place(paths, additive, textures).2.len() == textures.len(),
    decreases textures.len(),
{
    if textures.len() > 0 {
        lemma_place_len(paths, additive, textures.drop_last());
    }
}

/// The layers after placing particles drawn from `textures` in order, and the
/// layer of each.
pub open spec fn place(paths: Seq<Seq<char>>, additive: Seq<bool>, textures: Seq<Seq<char>>) -> (Seq<Seq<char>>, Seq<bool>, Seq<int>)
    decreases textures.len(),
{
    if textures.len() == 0 {
        (paths, additive, Seq::empty())
    } else {
        let (p, a, layers) = place(paths, additive, textures.drop_last());
        let t = textures.last();
        match first_shared(p, a, t) {
            Some(i) => (p, a, layers.push(i)),
            None => (p.push(t), a.push(false), layers.push(p.len() as int)),
        }
    }
}

pub open spec fn views(s: Seq<String>) -> Seq<Seq<char>> {
    s.map_values(|x: String| x@)
}

/// The layers of the two atlases and the sprite recipes, in recipe order.
pub open spec fn sprite_layers(emote: Seq<char>, status: Seq<char>, sprites: Seq<(u16, String, bool)>) -> (Seq<Seq<char>>, Seq<bool>) {
    (
        seq![emote, status] + sprites.map_values(|s: (u16, String, bool)| s.1@),
        seq![false, false] + sprites.map_values(|s: (u16, String, bool)| s.2),
    )
}

fn first_shared_layer(paths: &Vec<String>, additive: &Vec<bool>, texture: &String) -> (found: Option<usize>)
    requires
        additive@.len() == paths@.len(),
        paths@.len() >= 2,
    ensures
        match found {
            Some(i) => first_shared(views(paths@), additive@, texture@) == Some(i as int),
            None => first_shared(views(paths@), additive@, texture@) is None,
        },
{
    let ghost p = views(paths@);
    let mut i: usize = STATUS + 1;
    while i < paths.len()
        invariant
            STATUS + 1 <= i <= paths@.len(),
            additive@.len() == paths@.len(),
            p == views(paths@),
            first_shared(p, additive@, texture@) == first_shared_from(p, additive@, texture@, i as int),
        decreases paths@.len() - i,
    {
        let same = paths[i] == *texture;
        if !additive[i] && same {
            proof {
                assert(shares(p, additive@, i as int, texture@));
            }
            return Some(i);
        }
        i = i + 1;
    }
    None
}

/// Whether `out` gives each of the first particles its kind and layer.
pub open spec fn layers_match(out: Seq<(i32, usize)>, particles: Seq<(i32, String)>, layers: Seq<int>) -> bool {
    &&& out.len() == layers.len()
    &&& forall|k: int| 0 <= k < out.len() ==> #[trigger] out[k].0 == particles[k].0 && out[k].1 == layers[k]
}

proof fn lemma_layers_match_push(out: Seq<(i32, usize)>, particles: Seq<(i32, String)>, layers: Seq<int>, kind: i32, layer: usize)
    requires
        layers_match(out, particles, layers),
        out.len() < particles.len(),
        kind == particles[out.len() as int].0,
    ensures
        layers_match(out.push((kind, layer)), particles, layers.push(layer as int)),
{
    assert forall|k: int| 0 <= k < out.len() + 1 implies #[trigger] out.push((kind, layer))[k].0 == particles[k].0
        && out.push((kind, layer))[k].1 == layers.push(layer as int)[k] by {
        if k < out.len() {
            assert(out.push((kind, layer))[k] == out[k]);
            assert(out[k].0 == particles[k].0);
        }
    }
}

impl TextureTable {
    /// Lays out the layers: the emote atlas, the status atlas, one layer per
    /// sprite recipe (kind, texture, additive) in order, then the particle
    /// recipes (kind, texture) in order, each sharing the first normal sprite
    /// layer of its file or adding a layer.
    pub fn build(emote: &String, status: &String, sprites: &Vec<(u16, String, bool)>, particles: &Vec<(i32, String)>) -> (t: TextureTable)
        ensures
            ({
                let (paths, additive) = sprite_layers(emote@, status@, sprites@);
                let (all_paths, all_additive, layers) = place(
                    paths,
                    additive,
                    particles@.map_values(|p: (i32, String)| p.1@),
                );
                &&& views(t.paths@) == all_paths
                &&& t.additive@ == all_additive
                &&& t.sprites@.len() == sprites@.len()
                &&& forall|i: int| 0 <= i < sprites@.len() ==> #[trigger] t.sprites@[i] == (sprites@[i].0, (i + 2) as usize)
                &&& t.particles@.len() == particles@.len()
                &&& layers_match(t.particles@, particles@, layers)
            }),
    {
        let mut paths: Vec<String> = Vec::new();
        let mut additive: Vec<bool> = Vec::new();
        paths.push(emote.clone());
        additive.push(false);
        paths.push(status.clone());
        additive.push(false);
        let mut sprite_layers_out: Vec<(u16, usize)> = Vec::new();
        let ghost start_paths = views(paths@);
        let mut i: usize = 0;
        while i < sprites.len()
            invariant
                i <= sprites@.len(),
                paths@.len() == additive@.len(),
                paths@.len() == i + 2,
                views(paths@) == seq![emote@, status@] + sprites@.subrange(0, i as int).map_values(|s: (u16, String, bool)| s.1@),
                additive@ == seq![false, false] + sprites@.subrange(0, i as int).map_values(|s: (u16, String, bool)| s.2),
                sprite_layers_out@.len() == i,
                forall|k: int| 0 <= k < i ==> #[trigger] sprite_layers_out@[k] == (sprites@[k].0, (k + 2) as usize),
            decreases sprites@.len() - i,
        {
            let (kind, texture, blend) = (sprites[i].0, sprites[i].1.clone(), sprites[i].2);
            let ghost before = paths@;
            paths.push(texture);
            additive.push(blend);
            sprite_layers_out.push((kind, paths.len() - 1));
            proof {
                assert(sprites@.subrange(0, i + 1) =~= sprites@.subrange(0, i as int).push(sprites@[i as int]));
                assert(views(paths@) =~= views(before).push(sprites@[i as int].1@));
                assert(views(paths@) =~= seq![emote@, status@] + sprites@.subrange(0, i + 1).map_values(|s: (u16, String, bool)| s.1@));
                assert(additive@ =~= seq![false, false] + sprites@.subrange(0, i + 1).map_values(|s: (u16, String, bool)| s.2));
            }
            i = i + 1;
        }
        proof {
            assert(sprites@.subrange(0, sprites@.len() as int) =~= sprites@);
        }
        let ghost base_paths = views(paths@);
        let ghost base_additive = additive@;
        proof {
            assert(base_paths =~= sprite_layers(emote@, status@, sprites@).0);
            assert(base_additive =~= sprite_layers(emote@, status@, sprites@).1);
        }
        let ghost textures = particles@.map_values(|p: (i32, String)| p.1@);
        let mut particle_layers: Vec<(i32, usize)> = Vec::new();
        let mut j: usize = 0;
        while j < particles.len()
            invariant
                j <= particles@.len(),
                paths@.len() == additive@.len(),
                paths@.len() >= 2,
                base_paths.len() == base_additive.len(),
                base_paths == sprite_layers(emote@, status@, sprites@).0,
                base_additive == sprite_layers(emote@, status@, sprites@).1,
                textures == particles@.map_values(|p: (i32, String)| p.1@),
                particle_layers@.len() == j,
                ({
                    let (p, a, layers) = place(base_paths, base_additive, textures.subrange(0, j as int));
                    &&& views(paths@) == p
                    &&& additive@ == a
                    &&& layers_match(particle_layers@, particles@, layers)
                }),
            decreases particles@.len() - j,
        {
            let kind = particles[j].0;
            let texture = &particles[j].1;
            let ghost prefix = textures.subrange(0, j as int);
            proof {
                assert(textures.subrange(0, j + 1).drop_last() =~= prefix);
                assert(textures.subrange(0, j + 1).last() == texture@);
            }
            let ghost step = place(base_paths, base_additive, prefix);
            proof {
                lemma_place_len(base_paths, base_additive, prefix);
            }
            match first_shared_layer(&paths, &additive, texture) {
                Some(layer) => {
                    proof {
                        lemma_layers_match_push(particle_layers@, particles@, step.2, kind, layer);
                        assert(place(base_paths, base_additive, textures.subrange(0, j + 1)) == (step.0, step.1, step.2.push(
                            layer as int,
                        )));
                    }
                    particle_layers.push((kind, layer));
                },
                None => {
                    let ghost before = paths@;
                    assert(step.0.len() == before.len());
                    paths.push(texture.clone());
                    additive.push(false);
                    proof {
                        assert(views(paths@) =~= views(before).push(texture@));
                    }
                    proof {
                        lemma_layers_match_push(particle_layers@, particles@, step.2, kind, (paths@.len() - 1) as usize);
                        assert(place(base_paths, base_additive, textures.subrange(0, j + 1)) == (
                            step.0.push(texture@),
                            step.1.push(false),
                            step.2.push(step.0.len() as int),
                        ));
                    }
                    particle_layers.push((kind, paths.len() - 1));
                },
            }
            j = j + 1;
        }
        proof {
            assert(textures.subrange(0, textures.len() as int) =~= textures);
        }
        TextureTable { paths, additive, sprites: sprite_layers_out, particles: particle_layers }
    }
}

/// The texture whose sampler a layer uses: the status atlas keeps the
/// dialogue's nearest filtering for the UI, so its world-space symbols are
/// sampled through the emote atlas's smooth sampler; every other layer uses
/// its own.
pub fn sampling_layer(index: usize) -> (layer: usize)
    ensures
        layer == if index == STATUS { EMOTES } else { index },
{
    if index == STATUS { EMOTES } else { index }
}

/// Whether a layer tests depth: head emotes and status symbols are drawn over
/// hair; sprites and dust are hidden behind geometry.
pub fn depth_tested(index: usize) -> (tested: bool)
    ensures
        tested == (index > STATUS),
{
    index > STATUS
}

/// The frame of a speaking mouth `age` updates into its cycle.
pub fn mouth_frame(cycle: &Vec<u8>, age: u32) -> (frame: u8)
    requires
        cycle@.len() > 0,
    ensures
        frame == cycle@[(age as int) % (cycle@.len() as int)],
{
    cycle[age as usize % cycle.len()]
}

/// A face channel of an actor's appearance.
#[derive(Clone, Copy, Debug, PartialEq, Eq, Structural)]
pub enum Face {
    /// The channel is not animated.
    Disabled,
    /// A fixed atlas frame.
    Frame(u8),
    /// The channel plays its cycle.
    Blink,
}

/// The mouth atlas frame of an actor at `tick`: a frame the script sets;
/// otherwise the speaking cycle since the actor began talking, or the cycle
/// on the game clock when the mouth blinks; otherwise closed.
pub fn mouth_atlas_frame(mouth: Option<Face>, talking_since: Option<u32>, tick: u32, cycle: &Vec<u8>) -> (frame: u8)
    requires
        cycle@.len() > 0,
    ensures
        frame == match mouth {
            Some(Face::Frame(f)) => f,
            _ => match talking_since {
                Some(since) => cycle@[(if tick >= since { tick - since } else { 0 }) % (cycle@.len() as int)],
                None => if mouth == Some(Face::Blink) {
                    cycle@[(tick as int) % (cycle@.len() as int)]
                } else {
                    0u8
                },
            },
        },
{
    match mouth {
        Some(Face::Frame(f)) => f,
        _ => match talking_since {
            Some(since) => mouth_frame(cycle, tick.saturating_sub(since)),
            None => match mouth {
                Some(Face::Blink) => mouth_frame(cycle, tick),
                _ => 0,
            },
        },
    }
}

/// The initial costume frame of a party model: the first party members wear
/// their third variant, model 7 its first, everyone else the authored one.
pub fn costume_frame(resource: u32) -> (frame: u8)
    ensures
        frame == if 2 <= resource <= 4 { 3u8 } else if resource == 7 { 1u8 } else { 0u8 },
{
    if 2 <= resource && resource <= 4 {
        3
    } else if resource == 7 {
        1
    } else {
        0
    }
}

/// A particle always shares a normal sprite layer of its own file, or has a
/// new one: it never lands on an atlas or an additive layer, and its layer
/// holds its texture.
pub proof fn particles_land_on_their_own_texture(paths: Seq<Seq<char>>, additive: Seq<bool>, textures: Seq<Seq<char>>)
    requires
        paths.len() == additive.len(),
        paths.len() >= 2,
    ensures
        place(paths, additive, textures).0.len() == place(paths, additive, textures).1.len(),
        place(paths, additive, textures).2.len() == textures.len(),
        forall|j: int|
            0 <= j < textures.len() ==> STATUS < #[trigger] place(paths, additive, textures).2[j] < place(
                paths,
                additive,
                textures,
            ).0.len() && !place(paths, additive, textures).1[place(paths, additive, textures).2[j]] && place(
                paths,
                additive,
                textures,
            ).0[place(paths, additive, textures).2[j]] == textures[j],
    decreases textures.len(),
{
    if textures.len() > 0 {
        let rest = textures.drop_last();
        particles_land_on_their_own_texture(paths, additive, rest);
        let before = place(paths, additive, rest);
        let after = place(paths, additive, textures);
        lemma_place_len(paths, additive, rest);
        let t = textures.last();
        match first_shared(before.0, before.1, t) {
            Some(i) => {
                lemma_first_shared_from(before.0, before.1, t, STATUS as int + 1);
                assert(shares(before.0, before.1, i, t));
                assert(after == (before.0, before.1, before.2.push(i)));
            },
            None => {
                assert(after == (before.0.push(t), before.1.push(false), before.2.push(before.0.len() as int)));
            },
        }
        assert forall|j: int| 0 <= j < textures.len() implies STATUS < #[trigger] after.2[j] < after.0.len()
            && !after.1[after.2[j]] && after.0[after.2[j]] == textures[j] by {
            if j < textures.len() - 1 {
                assert(after.2[j] == before.2[j]);
                assert(rest[j] == textures[j]);
            }
        }
    }
}

} // verus!
