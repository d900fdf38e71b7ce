use presentation::effects::{costume_frame, mouth_atlas_frame, Face};
use presentation::effects::{depth_tested, mouth_frame, sampling_layer, TextureTable, EMOTES, STATUS};

#[test]
fn particles_share_normal_sprite_textures_of_the_same_file() {
    let table = TextureTable::build(
        &"emote.png".to_string(),
        &"status.png".to_string(),
        &vec![
            (3, "glow.png".to_string(), true),
            (5, "dust.png".to_string(), false),
            (9, "dust.png".to_string(), false),
        ],
        &vec![(1, "glow.png".to_string()), (2, "dust.png".to_string()), (4, "leaf.png".to_string()), (6, "leaf.png".to_string())],
    );
    assert_eq!(table.paths, ["emote.png", "status.png", "glow.png", "dust.png", "dust.png", "glow.png", "leaf.png"]);
    assert_eq!(table.additive, [false, false, true, false, false, false, false]);
    assert_eq!(table.sprites, vec![(3, 2), (5, 3), (9, 4)]);
    assert_eq!(table.particles, vec![(1, 5), (2, 3), (4, 6), (6, 6)]);
}

#[test]
fn particles_never_share_the_atlases() {
    let table = TextureTable::build(&"a.png".to_string(), &"a.png".to_string(), &vec![], &vec![(1, "a.png".to_string())]);
    assert_eq!(table.particles, vec![(1, 2)]);
    assert_eq!(table.paths.len(), 3);
}

#[test]
fn layer_sampling_depth_and_mouths() {
    assert_eq!(sampling_layer(STATUS), EMOTES);
    assert_eq!(sampling_layer(4), 4);
    assert!(!depth_tested(EMOTES) && !depth_tested(STATUS) && depth_tested(2));
    let cycle = vec![0, 1, 2, 1];
    assert_eq!(mouth_frame(&cycle, 6), 2);
    assert_eq!(mouth_frame(&cycle, 3), 1);
}

#[test]
fn mouths_follow_the_script_then_speech_then_blinking() {
    let cycle = vec![0, 1, 2, 1];
    assert_eq!(mouth_atlas_frame(Some(Face::Frame(5)), Some(3), 10, &cycle), 5);
    assert_eq!(mouth_atlas_frame(None, Some(3), 10, &cycle), 1);
    assert_eq!(mouth_atlas_frame(Some(Face::Blink), Some(3), 5, &cycle), 2);
    assert_eq!(mouth_atlas_frame(Some(Face::Blink), None, 6, &cycle), 2);
    assert_eq!(mouth_atlas_frame(Some(Face::Disabled), None, 6, &cycle), 0);
    assert_eq!(mouth_atlas_frame(None, Some(30), 6, &cycle), 0);
    assert_eq!([costume_frame(1), costume_frame(2), costume_frame(4), costume_frame(5), costume_frame(7)], [0, 3, 3, 0, 1]);
}
