use presentation::explorer::{replay_input, ChoiceSearch, ExplorerError};

#[test]
fn a_search_explores_every_line_of_every_choice_once() {
    let mut search = ChoiceSearch::new();
    let root = search.next_path().unwrap().unwrap();
    assert!(root.is_empty());
    let mut chosen = Vec::new();
    assert_eq!(search.decide(&root, &mut chosen, 0, 2), Ok(0));
    assert_eq!(search.decide(&root, &mut chosen, 5, 6), Ok(5));
    assert_eq!(chosen, vec![0, 5]);
    assert_eq!(search.pending, vec![vec![1], vec![2], vec![0, 6]]);
    let branch = search.next_path().unwrap().unwrap();
    assert_eq!(branch, vec![1]);
    let mut chosen = Vec::new();
    assert_eq!(search.decide(&branch, &mut chosen, 0, 2), Ok(1));
    assert_eq!(search.decide(&branch, &mut chosen, 5, 6), Ok(5));
    assert_eq!(search.pending, vec![vec![2], vec![0, 6], vec![1, 6]]);
    search.pending.insert(0, vec![1]);
    assert_eq!(search.next_path(), Ok(Some(vec![2])));
    assert_eq!(search.tried, vec![vec![], vec![1], vec![2]]);
}

#[test]
fn a_search_stops_at_its_limits() {
    let mut search = ChoiceSearch::new();
    let path = vec![7];
    let mut chosen = Vec::new();
    assert_eq!(search.decide(&path, &mut chosen, 0, 2), Err(ExplorerError::BranchChanged));
    let mut deep = vec![0; 32];
    assert_eq!(search.decide(&path, &mut deep, 0, 2), Err(ExplorerError::TooDeep));
    assert_eq!(deep.len(), 32);
    let mut search = ChoiceSearch { pending: (0..=128u8).map(|i| vec![i]).collect(), tried: Vec::new() };
    for i in 0..128u8 {
        assert_eq!(search.next_path(), Ok(Some(vec![i])));
    }
    assert_eq!(search.next_path(), Err(ExplorerError::TooManyBranches));
    assert_eq!(search.next_path(), Ok(None));
}

#[test]
fn replays_confirm_and_cancel_on_a_thirty_update_beat() {
    assert_eq!(replay_input(10, false, true, false), (true, false));
    assert_eq!(replay_input(40, false, false, true), (true, false));
    assert_eq!(replay_input(11, false, true, true), (false, false));
    assert_eq!(replay_input(10, true, true, true), (false, true));
    assert_eq!(replay_input(10, false, false, false), (false, false));
}
