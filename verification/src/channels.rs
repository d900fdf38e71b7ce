//! Channel presence of a sampled bone pose. A pose is either a transform with
//! scale, rotation and translation channels, or a matrix. Cross-fades retain
//! channel presence; setting a channel from the rest pose leaves matrix mode.
//! The pose values themselves are blended by the renderer; these rules decide
//! which channels exist, which are prefilled from the rest pose, and which are
//! blended.
use vstd::prelude::*;

verus! {

pub const SCALE: u8 = 1;
/// Either rotation encoding: Euler (2) or quaternion (4).
pub const ROTATION: u8 = 6;
pub const QUATERNION: u8 = 4;
pub const TRANSLATION: u8 = 8;
pub const TRS: u8 = 13;
/// The flags of a matrix pose.
pub const MATRIX: u8 = 16;

/// The channel state of a sampled pose.
#[derive(Clone, Copy, Debug, PartialEq, Eq, Structural)]
pub struct Frame {
    /// The pose is a matrix rather than a transform.
    pub affine: bool,
    /// The channels the pose holds.
    pub flags: u8,
    /// The channels its clip authored.
    pub authored: u8,
}

/// How a cross-fade combines the two poses.
#[derive(Clone, Copy, Debug, PartialEq, Eq, Structural)]
pub enum MixKind {
    /// Both poses are transforms: the whole transforms are blended.
    Whole,
    /// After prefilling, both are transforms: the channels in the mask are
    /// blended, the others taken from the target.
    Blend(u8),
    /// A matrix remains: the target is taken as it stands.
    Keep,
}

/// A cross-fade: the source and target after prefilling, the channels set
/// from the rest pose on each, and how they combine. The result is the target.
#[derive(Clone, Copy, Debug, PartialEq, Eq, Structural)]
pub struct MixPlan {
    pub from: Frame,
    pub to: Frame,
    pub from_set: u8,
    pub to_set: u8,
    pub kind: MixKind,
}

/// The flags of a pose sampled with `authored` channels over a binding with
/// `bind` channels: a matrix is a matrix; otherwise both sets of channels,
/// with the authored rotation encoding preferred over the bound one.
pub open spec fn sample_flags(affine: bool, authored: u8, bind: u8) -> u8 {
    if affine {
        MATRIX
    } else {
        ((authored | bind) & !ROTATION) | if authored & ROTATION != 0 {
            authored & ROTATION
        } else {
            bind & ROTATION
        }
    }
}

pub open spec fn is_channel(channel: u8) -> bool {
    channel == SCALE || channel == QUATERNION || channel == TRANSLATION
}

/// The channels after setting `channel` from the rest pose: a matrix becomes
/// an identity transform first; a quaternion replaces any Euler rotation.
pub open spec fn set_spec(c: Frame, channel: u8) -> Frame {
    let base: u8 = if c.affine { 0 } else { c.flags };
    let kept: u8 = if channel == QUATERNION { base & !ROTATION } else { base };
    Frame { affine: false, flags: kept | channel, authored: c.authored }
}

/// One channel of the prefill: a channel the source holds and the target did
/// not author is set on the target; a channel the target authored and the
/// source lacks is set on the source.
pub open spec fn prefill(a: Frame, b: Frame, channel: u8) -> (Frame, Frame) {
    let b1 = if a.flags & channel != 0 && b.authored & channel == 0 { set_spec(b, channel) } else { b };
    let a1 = if b1.authored & channel != 0 && a.flags & channel == 0 { set_spec(a, channel) } else { a };
    (a1, b1)
}

/// The cross-fade of `a` into `b`.
pub open spec fn mix_spec(a: Frame, b: Frame) -> MixPlan {
    if !a.affine && !b.affine {
        MixPlan { from: a, to: b, from_set: 0, to_set: 0, kind: MixKind::Whole }
    } else {
        let (a1, b1) = prefill(a, b, SCALE);
        let (a2, b2) = prefill(a1, b1, TRANSLATION);
        let (a3, b3) = prefill(a2, b2, QUATERNION);
        let from_set: u8 = (if a1 != a { SCALE } else { 0 }) | (if a2 != a1 { TRANSLATION } else { 0 }) | (if a3
            != a2 { QUATERNION } else { 0 });
        let to_set: u8 = (if b1 != b { SCALE } else { 0 }) | (if b2 != b1 { TRANSLATION } else { 0 }) | (if b3
            != b2 { QUATERNION } else { 0 });
        MixPlan {
            from: a3,
            to: b3,
            from_set,
            to_set,
            kind: if !a3.affine && !b3.affine { MixKind::Blend(a3.flags & b3.flags) } else { MixKind::Keep },
        }
    }
}

impl Frame {
    /// A pose sampled with `authored` channels over a binding with `bind`
    /// channels.
    pub fn sample(affine: bool, authored: u8, bind: u8) -> (c: Frame)
        ensures
            c == (Frame { affine, flags: sample_flags(affine, authored, bind), authored }),
    {
        let flags = if affine {
            MATRIX
        } else {
            ((authored | bind) & !ROTATION) | if authored & ROTATION != 0 {
                authored & ROTATION
            } else {
                bind & ROTATION
            }
        };
        Frame { affine, flags, authored }
    }

    /// Sets `channel` from the rest pose.
    pub fn set(self, channel: u8) -> (c: Frame)
        requires
            is_channel(channel),
        ensures
            c == set_spec(self, channel),
    {
        let base: u8 = if self.affine { 0 } else { self.flags };
        let kept: u8 = if channel == QUATERNION { base & !ROTATION } else { base };
        Frame { affine: false, flags: kept | channel, authored: self.authored }
    }

    fn prefill(a: Frame, b: Frame, channel: u8) -> (r: (Frame, Frame))
        requires
            is_channel(channel),
        ensures
            r == prefill(a, b, channel),
    {
        let b1 = if a.flags & channel != 0 && b.authored & channel == 0 { b.set(channel) } else { b };
        let a1 = if b1.authored & channel != 0 && a.flags & channel == 0 { a.set(channel) } else { a };
        (a1, b1)
    }

    /// Plans the cross-fade of this pose into `to`.
    pub fn mix(self, to: Frame) -> (plan: MixPlan)
        ensures
            plan == mix_spec(self, to),
    {
        if !self.affine && !to.affine {
            return MixPlan { from: self, to, from_set: 0, to_set: 0, kind: MixKind::Whole };
        }
        let (a1, b1) = Frame::prefill(self, to, SCALE);
        let (a2, b2) = Frame::prefill(a1, b1, TRANSLATION);
        let (a3, b3) = Frame::prefill(a2, b2, QUATERNION);
        let from_set: u8 = (if a1 != self { SCALE } else { 0 }) | (if a2 != a1 { TRANSLATION } else { 0 }) | (if a3
            != a2 { QUATERNION } else { 0 });
        let to_set: u8 = (if b1 != to { SCALE } else { 0 }) | (if b2 != b1 { TRANSLATION } else { 0 }) | (if b3
            != b2 { QUATERNION } else { 0 });
        let kind = if !a3.affine && !b3.affine { MixKind::Blend(a3.flags & b3.flags) } else { MixKind::Keep };
        MixPlan { from: a3, to: b3, from_set, to_set, kind }
    }
}

/// Setting a channel always leaves matrix mode and marks the channel present.
pub proof fn setting_a_channel_leaves_matrix_mode(c: Frame, channel: u8)
    requires
        is_channel(channel),
    ensures
        !set_spec(c, channel).affine,
        set_spec(c, channel).flags & channel == channel,
        set_spec(c, channel).authored == c.authored,
{
    let base: u8 = if c.affine { 0 } else { c.flags };
    let kept: u8 = if channel == QUATERNION { base & !ROTATION } else { base };
    assert((kept | channel) & channel == channel) by (bit_vector);
}

/// A matrix pose that authored no transform channel, faded into any pose
/// that authored none either, leaves that pose as it stands: no channel is
/// prefilled from the rest pose.
pub proof fn matrices_are_never_prefilled(a: Frame, b: Frame)
    requires
        a.affine,
        a.flags & TRS == 0,
        b.flags & TRS == 0,
        b.authored & TRS == 0,
    ensures
        mix_spec(a, b) == (MixPlan { from: a, to: b, from_set: 0, to_set: 0, kind: MixKind::Keep }),
{
    let (f, g, h) = (a.flags, b.flags, b.authored);
    assert(f & TRS == 0 ==> f & SCALE == 0 && f & TRANSLATION == 0 && f & QUATERNION == 0) by (bit_vector);
    assert(h & TRS == 0 ==> h & SCALE == 0 && h & TRANSLATION == 0 && h & QUATERNION == 0) by (bit_vector);
    assert((0u8 | 0u8) | 0u8 == 0u8) by (bit_vector);
}

/// A matrix pose faded into itself stays as it is.
pub proof fn fading_a_matrix_into_itself_keeps_it(a: Frame)
    requires
        a.affine,
        a.flags == MATRIX,
        a.authored & TRS == 0,
    ensures
        mix_spec(a, a).to == a,
        mix_spec(a, a).kind == MixKind::Keep,
{
    let h = a.authored;
    assert(MATRIX & SCALE == 0 && MATRIX & TRANSLATION == 0 && MATRIX & QUATERNION == 0) by (bit_vector);
    assert(h & TRS == 0 ==> h & SCALE == 0 && h & TRANSLATION == 0 && h & QUATERNION == 0) by (bit_vector);
}

/// A cross-fade blends exactly the channels that both prefilled poses hold: a
/// channel is blended only if the source pose and the target pose hold it
/// after prefilling, and every channel they both hold is blended. A blend
/// happens only when both prefilled poses are transforms.
pub proof fn only_shared_channels_are_blended(a: Frame, b: Frame)
    ensures
        ({
            let plan = mix_spec(a, b);
            &&& plan.kind matches MixKind::Blend(m) ==> {
                &&& !plan.from.affine && !plan.to.affine
                &&& forall|c: u8| #[trigger] (m & c) == c <==> (plan.from.flags & c == c && plan.to.flags & c == c)
            }
            &&& plan.kind is Keep ==> plan.from.affine || plan.to.affine
        }),
{
    let plan = mix_spec(a, b);
    if let MixKind::Blend(m) = plan.kind {
        let f = plan.from.flags;
        let t = plan.to.flags;
        assert(m == f & t);
        assert forall|c: u8| #[trigger] (m & c) == c <==> (f & c == c && t & c == c) by {
            assert((f & t) & c == c <==> (f & c == c && t & c == c)) by (bit_vector);
        }
    }
}

} // verus!
