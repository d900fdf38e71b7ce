use presentation::channels::{Frame, MixKind, MixPlan, MATRIX, QUATERNION, SCALE, TRANSLATION, TRS};

#[test]
fn mixed_modes_prefill_missing_channels_before_blending() {
    let from = Frame::sample(false, TRS, 0);
    let to = Frame::sample(true, 16, 0);
    assert_eq!(to.flags, MATRIX);
    let plan = from.mix(to);
    assert_eq!(plan.to_set, SCALE | TRANSLATION | QUATERNION);
    assert_eq!(plan.from_set, 0);
    assert_eq!(plan.kind, MixKind::Blend(TRS));
    let translation_only = Frame::sample(false, TRANSLATION, 0);
    let plan = to.mix(translation_only);
    assert_eq!(plan.from_set, TRANSLATION);
    assert_eq!(plan.kind, MixKind::Blend(TRANSLATION));
    assert_eq!(plan.to, translation_only);
    assert_eq!(to.mix(to), MixPlan { from: to, to, from_set: 0, to_set: 0, kind: MixKind::Keep });
    let euler = Frame::sample(false, 2, 0);
    assert_eq!(euler.mix(to).to, to);
    assert_eq!(euler.mix(to).kind, MixKind::Keep);
    assert_eq!(to.mix(euler).to, euler);
}

#[test]
fn sampling_prefers_the_authored_rotation_encoding() {
    assert_eq!(Frame::sample(false, QUATERNION, 2).flags, QUATERNION);
    assert_eq!(Frame::sample(false, 0, 2 | SCALE).flags, 2 | SCALE);
    assert_eq!(Frame::sample(false, TRANSLATION, QUATERNION | SCALE).flags, TRANSLATION | QUATERNION | SCALE);
    assert_eq!(Frame::sample(true, TRS, TRS).flags, MATRIX);
    assert_eq!(Frame::sample(false, TRS, TRS), Frame { affine: false, flags: TRS, authored: TRS });
}

#[test]
fn setting_a_quaternion_replaces_an_euler_rotation() {
    let euler = Frame::sample(false, 2 | SCALE, 0);
    let set = euler.set(QUATERNION);
    assert_eq!(set, Frame { affine: false, flags: QUATERNION | SCALE, authored: 2 | SCALE });
    let matrix = Frame::sample(true, 16, 0);
    assert_eq!(matrix.set(TRANSLATION), Frame { affine: false, flags: TRANSLATION, authored: 16 });
    let both = Frame::sample(false, TRS, 0).mix(Frame::sample(false, SCALE, 0));
    assert_eq!(both.kind, MixKind::Whole);
}
