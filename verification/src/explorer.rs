//! Exploration of the choice branches of a field event. Each branch replays
//! the event with a path of choice lines: the lines of the path for the first
//! choices, then each choice's first line, queueing every other line of those
//! later choices as a branch of its own. A branch is explored once; at most 128
//! branches and 32 decisions per branch are explored.
use vstd::prelude::*;

verus! {

/// The most branches explored for one target.
pub const MAX_BRANCHES: usize = 128;

/// The most decisions on one branch.
pub const MAX_DECISIONS: usize = 32;

/// Why an exploration stops.
#[derive(Clone, Copy, Debug, PartialEq, Eq, Structural)]
pub enum ExplorerError {
    /// More than 128 branches.
    TooManyBranches,
    /// A branch reached 32 decisions.
    TooDeep,
    /// A replayed choice no longer offers the line of the path.
    BranchChanged,
}

/// The branches of one target: those waiting, oldest first, and those tried.
pub struct ChoiceSearch {
    pub pending: Vec<Vec<u8>>,
    pub tried: Vec<Vec<u8>>,
}

pub open spec fn views(s: Seq<Vec<u8>>) -> Seq<Seq<u8>> {
    s.map_values(|p: Vec<u8>| p@)
}

/// The index of the first waiting path not yet tried, or the number waiting.
pub open spec fn first_untried(pending: Seq<Seq<u8>>, tried: Seq<Seq<u8>>) -> int
    decreases pending.len(),
{
    if pending.len() == 0 {
        0
    } else if !tried.contains(pending[0]) {
        0
    } else {
        1 + first_untried(pending.drop_first(), tried)
    }
}

/// The lines that choice number `depth` of a branch with path `path` selects:
/// the path's line while the path lasts, then the choice's first line.
pub open spec fn selected_line(path: Seq<u8>, depth: int, first: u8) -> u8 {
    if depth < path.len() { path[depth] } else { first }
}

/// The branches queued by a choice of lines `first..=last` at which the path
/// has run out: every other line, after the decisions so far.
pub open spec fn alternatives(chosen: Seq<u8>, first: int, last: int, selected: u8) -> Seq<Seq<u8>>
    decreases last - first + 1,
{
    if first > last {
        Seq::empty()
    } else {
        let rest = alternatives(chosen, first + 1, last, selected);
        if first == selected {
            rest
        } else {
            seq![chosen.push(first as u8)] + rest
        }
    }
}

fn same_path(a: &Vec<u8>, b: &Vec<u8>) -> (same: bool)
    ensures
        same == (a@ == b@),
{
    if a.len() != b.len() {
        return false;
    }
    let mut i: usize = 0;
    while i < a.len()
        invariant
            a@.len() == b@.len(),
            i <= a@.len(),
            forall|k: int| 0 <= k < i ==> a@[k] == b@[k],
        decreases a@.len() - i,
    {
        if a[i] != b[i] {
            return false;
        }
        i = i + 1;
    }
    assert(a@ =~= b@);
    true
}

fn was_tried(tried: &Vec<Vec<u8>>, path: &Vec<u8>) -> (found: bool)
    ensures
        found == views(tried@).contains(path@),
{
    let ghost t = views(tried@);
    let mut i: usize = 0;
    while i < tried.len()
        invariant
            t == views(tried@),
            i <= tried@.len(),
            forall|k: int| 0 <= k < i ==> t[k] != path@,
        decreases tried@.len() - i,
    {
        if same_path(&tried[i], path) {
            assert(t[i as int] == path@);
            return true;
        }
        i = i + 1;
    }
    false
}

impl ChoiceSearch {
    /// A search that starts with the empty path.
    pub fn new() -> (s: Self)
        ensures
            views(s.pending@) == seq![Seq::<u8>::empty()],
            s.tried@.len() == 0,
    {
        let mut pending: Vec<Vec<u8>> = Vec::new();
        pending.push(Vec::new());
        let s = ChoiceSearch { pending, tried: Vec::new() };
        assert(views(s.pending@) =~= seq![Seq::<u8>::empty()]);
        s
    }

    /// The next branch to explore: the oldest waiting path not yet tried,
    /// which is then tried. Fails once more than 128 branches are tried.
    pub fn next_path(&mut self) -> (r: Result<Option<Vec<u8>>, ExplorerError>)
        ensures
            ({
                let k = first_untried(views(old(self).pending@), views(old(self).tried@));
                if k == old(self).pending@.len() {
                    &&& r == Ok::<Option<Vec<u8>>, ExplorerError>(None)
                    &&& final(self).pending@.len() == 0
                    &&& views(final(self).tried@) == views(old(self).tried@)
                } else {
                    let p = old(self).pending@[k];
                    &&& views(final(self).pending@) == views(old(self).pending@).subrange(k + 1, old(self).pending@.len() as int)
                    &&& views(final(self).tried@) == views(old(self).tried@).push(p@)
                    &&& match r {
                        Ok(Some(path)) => path@ == p@ && final(self).tried@.len() <= MAX_BRANCHES,
                        Ok(None) => false,
                        Err(e) => e == ExplorerError::TooManyBranches && final(self).tried@.len() > MAX_BRANCHES,
                    }
                }
            }),
    {
        let ghost pending0 = views(self.pending@);
        let ghost tried0 = views(self.tried@);
        let ghost mut skipped: int = 0;
        while self.pending.len() > 0
            invariant
                tried0 == views(self.tried@),
                tried0 == views(old(self).tried@),
                pending0 == views(old(self).pending@),
                0 <= skipped <= pending0.len(),
                views(self.pending@) == pending0.subrange(skipped, pending0.len() as int),
                first_untried(pending0, tried0) == skipped + first_untried(views(self.pending@), tried0),
            decreases self.pending@.len(),
        {
            let path = self.pending.remove(0);
            let ghost rest = views(self.pending@);
            let fresh = !was_tried(&self.tried, &path);
            proof {
                assert(pending0.subrange(skipped, pending0.len() as int) =~= seq![path@] + rest);
                assert((seq![path@] + rest)[0] == path@);
                assert((seq![path@] + rest).drop_first() =~= rest);
                assert(rest =~= pending0.subrange(skipped + 1, pending0.len() as int));
                assert(first_untried(seq![path@] + rest, tried0) == if tried0.contains(path@) {
                    1 + first_untried(rest, tried0)
                } else {
                    0
                });
            }
            if fresh {
                let ghost before = self.tried@;
                self.tried.push(path.clone());
                proof {
                    assert(views(self.tried@) =~= views(before).push(path@));
                    assert(pending0[skipped] == path@);
                }
                if self.tried.len() > MAX_BRANCHES {
                    return Err(ExplorerError::TooManyBranches);
                }
                return Ok(Some(path));
            }
            proof {
                skipped = skipped + 1;
            }
        }
        proof {
            assert(views(self.pending@) =~= Seq::<Seq<u8>>::empty());
        }
        Ok(None)
    }

    /// Decides choice number `chosen.len()` of the branch with path `path`,
    /// a choice of lines `first..=last`: selects the path's line or, past
    /// the path, the first line and queues the others; records the decision.
    pub fn decide(&mut self, path: &Vec<u8>, chosen: &mut Vec<u8>, first: u8, last: u8) -> (r: Result<u8, ExplorerError>)
        ensures
            ({
                let depth = old(chosen)@.len() as int;
                let selected = selected_line(path@, depth, first);
                if depth >= MAX_DECISIONS {
                    &&& r == Err::<u8, ExplorerError>(ExplorerError::TooDeep)
                    &&& final(chosen)@ == old(chosen)@
                    &&& views(final(self).pending@) == views(old(self).pending@)
                } else if !(first <= selected <= last) {
                    &&& r == Err::<u8, ExplorerError>(ExplorerError::BranchChanged)
                    &&& final(chosen)@ == old(chosen)@
                    &&& views(final(self).pending@) == views(old(self).pending@)
                } else {
                    &&& r == Ok::<u8, ExplorerError>(selected)
                    &&& final(chosen)@ == old(chosen)@.push(selected)
                    &&& views(final(self).pending@) == views(old(self).pending@) + if depth >= path@.len() {
                        alternatives(old(chosen)@, first as int, last as int, selected)
                    } else {
                        Seq::empty()
                    }
                }
            }),
            views(final(self).tried@) == views(old(self).tried@),
    {
        let depth = chosen.len();
        if depth >= MAX_DECISIONS {
            return Err(ExplorerError::TooDeep);
        }
        let selected = if depth < path.len() { path[depth] } else { first };
        if !(first <= selected && selected <= last) {
            return Err(ExplorerError::BranchChanged);
        }
        if depth >= path.len() {
            self.queue_alternatives(chosen, first, last, selected);
        }
        chosen.push(selected);
        Ok(selected)
    }

    fn queue_alternatives(&mut self, chosen: &Vec<u8>, first: u8, last: u8, selected: u8)
        requires
            first <= last,
        ensures
            views(final(self).pending@) == views(old(self).pending@) + alternatives(chosen@, first as int, last as int, selected),
            views(final(self).tried@) == views(old(self).tried@),
        decreases last - first,
    {
        let ghost before = views(self.pending@);
        if first != selected {
            let mut next = chosen.clone();
            next.push(first);
            let ghost pushed = next@;
            self.pending.push(next);
            proof {
                assert(views(self.pending@) =~= before.push(pushed));
            }
        }
        if first < last {
            self.queue_alternatives(chosen, first + 1, last, selected);
        }
        proof {
            let rest = alternatives(chosen@, first + 1, last as int, selected);
            if first < last {
                if first != selected {
                    assert(before.push(chosen@.push(first)) + rest =~= before + (seq![chosen@.push(first)] + rest));
                }
            } else {
                assert(rest =~= Seq::<Seq<u8>>::empty());
                if first != selected {
                    assert(before.push(chosen@.push(first)) =~= before + (seq![chosen@.push(first)] + rest));
                } else {
                    assert(before =~= before + rest);
                }
            }
        }
    }
}

/// Each queued branch repeats the decisions so far and then takes one other
/// line of the choice: never the selected line, never a line outside the
/// choice, each line once.
pub proof fn queued_branches_take_each_other_line(chosen: Seq<u8>, first: int, last: int, selected: u8)
    requires
        0 <= first,
        last <= u8::MAX,
    ensures
        forall|b: int| 0 <= b < alternatives(chosen, first, last, selected).len() ==> {
            let branch = #[trigger] alternatives(chosen, first, last, selected)[b];
            &&& branch.len() == chosen.len() + 1
            &&& branch.drop_last() == chosen
            &&& first <= branch.last() <= last
            &&& branch.last() != selected
        },
        forall|b: int, c: int|
            0 <= b < c < alternatives(chosen, first, last, selected).len() ==> #[trigger] alternatives(
                chosen,
                first,
                last,
                selected,
            )[b].last() < #[trigger] alternatives(chosen, first, last, selected)[c].last(),
    decreases last - first + 1,
{
    if first <= last {
        queued_branches_take_each_other_line(chosen, first + 1, last, selected);
        let rest = alternatives(chosen, first + 1, last, selected);
        let all = alternatives(chosen, first, last, selected);
        if first != selected {
            let head = chosen.push(first as u8);
            assert(head.drop_last() =~= chosen);
            assert forall|b: int| 0 <= b < all.len() implies {
                let branch = #[trigger] all[b];
                &&& branch.len() == chosen.len() + 1
                &&& branch.drop_last() == chosen
                &&& first <= branch.last() <= last
                &&& branch.last() != selected
            } by {
                if b > 0 {
                    assert(all[b] == rest[b - 1]);
                }
            }
            assert forall|b: int, c: int| 0 <= b < c < all.len() implies #[trigger] all[b].last() < #[trigger] all[c].last() by {
                assert(all[c] == rest[c - 1]);
                if b > 0 {
                    assert(all[b] == rest[b - 1]);
                }
            }
        }
    }
}

/// The next branch explored is one not tried yet, and every waiting branch
/// passed over on the way had already been tried.
pub proof fn the_next_branch_is_new(pending: Seq<Seq<u8>>, tried: Seq<Seq<u8>>)
    ensures
        0 <= first_untried(pending, tried) <= pending.len(),
        first_untried(pending, tried) < pending.len() ==> !tried.contains(pending[first_untried(pending, tried)]),
        forall|i: int| 0 <= i < first_untried(pending, tried) ==> tried.contains(#[trigger] pending[i]),
    decreases pending.len(),
{
    if pending.len() > 0 && tried.contains(pending[0]) {
        the_next_branch_is_new(pending.drop_first(), tried);
        assert forall|i: int| 0 <= i < first_untried(pending, tried) implies tried.contains(#[trigger] pending[i]) by {
            if i > 0 {
                assert(pending[i] == pending.drop_first()[i - 1]);
            }
        }
        if first_untried(pending, tried) < pending.len() {
            assert(pending[first_untried(pending, tried)] == pending.drop_first()[first_untried(pending.drop_first(), tried)]);
        }
    }
}

/// The inputs a replay holds at update `ticks`: every 30 updates, ten in, it
/// confirms readable dialogue or a pending choice, or cancels out of a menu.
pub fn replay_input(ticks: u32, in_menu: bool, dialogue_ready: bool, choosing: bool) -> (input: (bool, bool))
    ensures
        input.0 == (!in_menu && (dialogue_ready || choosing) && ticks % 30 == 10),
        input.1 == (in_menu && ticks % 30 == 10),
{
    let beat = ticks % 30 == 10;
    (!in_menu && (dialogue_ready || choosing) && beat, in_menu && beat)
}

} // verus!
