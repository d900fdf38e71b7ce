use presentation::sequence::{SequenceError, SequencePlan, UpdateInput};

fn plan() -> SequencePlan {
    SequencePlan { updates: 10, renders_per_update: 2, accept_updates: vec![3], movement_updates: vec![0, 4] }
}

#[test]
fn sequences_check_their_cadence_and_inputs() {
    assert_eq!(plan().validate(), Ok(()));
    assert_eq!(SequencePlan { updates: 0, ..plan() }.validate(), Err(SequenceError::Cadence));
    assert_eq!(SequencePlan { updates: 3601, ..plan() }.validate(), Err(SequenceError::Cadence));
    assert_eq!(SequencePlan { renders_per_update: 9, ..plan() }.validate(), Err(SequenceError::Cadence));
    assert_eq!(SequencePlan { accept_updates: vec![10], ..plan() }.validate(), Err(SequenceError::Input));
    assert_eq!(SequencePlan { movement_updates: vec![4, 4], ..plan() }.validate(), Err(SequenceError::Movement));
    assert_eq!(SequencePlan { movement_updates: vec![10], ..plan() }.validate(), Err(SequenceError::Movement));
    assert_eq!(plan().frame_count(), 20);
    assert!(!plan().timed_out(61));
    assert!(plan().timed_out(62));
}

#[test]
fn each_update_holds_its_latest_movement_and_scheduled_input() {
    let plan = plan();
    assert_eq!(plan.update_at(1), None);
    assert_eq!(plan.update_at(0), Some(UpdateInput { update: 0, movement: Some(0), interact: false }));
    assert_eq!(plan.update_at(6), Some(UpdateInput { update: 3, movement: Some(0), interact: true }));
    assert_eq!(plan.update_at(8), Some(UpdateInput { update: 4, movement: Some(1), interact: false }));
    let late = SequencePlan { movement_updates: vec![2], ..plan };
    assert_eq!(late.update_at(2), Some(UpdateInput { update: 1, movement: None, interact: false }));
}
