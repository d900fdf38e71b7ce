use presentation::audit::{
    expected, ActorState, Applied, FrameState, Request, WorldState, LOAD_TIMEOUT_MS,
};

fn validate(tick: u32, applied: &Applied, now: u64) -> Result<(), String> {
    let missing = applied.unapplied(now);
    if missing.is_empty() {
        Ok(())
    } else {
        Err(format!(
            "unapplied VM presentation requests at tick {tick}: {missing:?}"
        ))
    }
}

fn actor(id: i32, resource_parts: usize) -> ActorState {
    ActorState {
        id,
        visible: true,
        model_hidden: false,
        parts: resource_parts,
        animation: None,
        attached: false,
        bone_slots: Vec::new(),
        eyes: false,
        secondary_parts: Vec::new(),
        casts_shadow: false,
        mouth: false,
    }
}

fn empty_world() -> WorldState {
    WorldState {
        actors: Vec::new(),
        emotes: Vec::new(),
        paralysis: false,
        billboards: Vec::new(),
        refractions: Vec::new(),
        particles: Vec::new(),
        save_points: 0,
        dialogue: Vec::new(),
        choices: Vec::new(),
        overlays: Vec::new(),
        camera: false,
        fade: false,
    }
}

#[test]
fn all_missing_effects_are_reported_without_hiding_healthy_or_loading_requests() {
    let mut applied = Applied::new();
    applied.expected.insert(Request::Billboard(7));
    applied.expected.insert(Request::Billboard(8));
    applied.expected.insert(Request::Particle(9));
    applied.expected.insert(Request::Emote(10));
    applied.ack(Request::Billboard(7));
    applied.loading(Request::Emote(10), 0);
    assert_eq!(
        applied.unapplied(0),
        [Request::Billboard(8), Request::Particle(9)]
    );
}

#[test]
fn dropped_requests_fail_even_when_other_actors_are_present() {
    let mut world = empty_world();
    world.actors.push(actor(1, 1));
    world.emotes.push(-100);
    let mut applied = Applied::new();
    applied.expected = expected(&world);
    applied.ack(Request::Actor(1, 0));
    assert!(validate(0, &applied, 0)
        .unwrap_err()
        .contains("Emote(-100)"));
    applied.requests.insert(Request::Emote(-100));
    validate(0, &applied, 0).unwrap();
    world.save_points = 1;
    applied.expected = expected(&world);
    assert!(validate(0, &applied, 0)
        .unwrap_err()
        .contains("SavePoint(0, 0)"));
    applied.ack(Request::SavePoint(0, 0));
    applied.ack(Request::SavePoint(0, 1));
    world.actors[0].visible = false;
    applied.requests.remove(&Request::Actor(1, 0));
    applied.expected = expected(&world);
    validate(0, &applied, 0).unwrap();
    let pulse = 1;
    world.refractions.push(pulse);
    applied.expected = expected(&world);
    assert!(validate(0, &applied, 0).is_err());
    applied.ack(Request::Refraction(pulse));
    validate(0, &applied, 0).unwrap();
}

#[test]
fn loading_is_bounded_and_acknowledgements_expire_each_frame() {
    let mut applied = Applied::new();
    let request = Request::Attachment(1, 0);
    applied.expected.insert(request);
    let since = 5_000;
    applied.loading(request, since);
    assert_eq!(applied.loading.get(&request), Some(since));
    validate(4, &applied, since).unwrap();
    assert!(validate(4, &applied, since + LOAD_TIMEOUT_MS).is_err());
    applied.ack(request);
    validate(4, &applied, since + LOAD_TIMEOUT_MS).unwrap();
    applied.requests.clear();
    assert!(validate(5, &applied, since + LOAD_TIMEOUT_MS).is_err());
}

#[test]
fn each_part_needs_its_requested_animation() {
    let mut world = empty_world();
    let mut animated = actor(2, 2);
    animated.animation = Some((24, 6));
    world.actors.push(animated);
    let mut applied = Applied::new();
    applied.expected = expected(&world);
    for part in 0..2 {
        applied.ack(Request::Actor(2, part));
    }
    applied.ack(Request::Animation {
        actor: 2,
        part: 0,
        resource: 24,
        slot: 6,
    });
    let error = validate(12, &applied, 0).unwrap_err();
    assert!(error.contains("part: 1, resource: 24, slot: 6"), "{error}");
}

#[test]
fn a_new_frame_expects_skits_menus_and_actor_details_and_drops_stale_loading() {
    let mut applied = Applied::new();
    applied.loading(Request::Billboard(3), 0);
    applied.loading(Request::Shadow(4), 0);
    applied.ack(Request::Camera);
    let mut world = empty_world();
    let mut speaker = actor(4, 1);
    speaker.casts_shadow = true;
    speaker.eyes = true;
    speaker.mouth = true;
    speaker.secondary_parts = vec![0];
    world.actors.push(speaker);
    let frame = FrameState {
        world,
        art_ready: true,
        live_ready: Some(true),
        menu_open: true,
        skit: Some(vec![(2, true), (5, false)]),
    };
    applied.begin(&frame);
    assert!(applied.armed);
    assert_eq!(applied.requests.len(), 0);
    assert_eq!(applied.loading.get(&Request::Billboard(3)), None);
    assert_eq!(applied.loading.get(&Request::Shadow(4)), Some(0));
    let mut expected_now = Vec::new();
    for index in 0..applied.expected.len() {
        expected_now.push(applied.expected.get(index));
    }
    assert_eq!(
        expected_now,
        [
            Request::Actor(4, 0),
            Request::Mouth(4),
            Request::Eyes(4),
            Request::SecondaryMotion(4, 0),
            Request::Shadow(4),
            Request::Dialogue(2),
            Request::Menu,
            Request::Skit,
        ]
    );
    assert_eq!(applied.check(LOAD_TIMEOUT_MS - 1).len(), 7);
    let unready = FrameState {
        art_ready: true,
        live_ready: Some(false),
        ..frame
    };
    applied.begin(&unready);
    assert!(applied.check(LOAD_TIMEOUT_MS).is_empty());
}
