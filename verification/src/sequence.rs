//! Temporal render diagnostics: a fixed number of field updates, each rendered
//! a fixed number of times, with scheduled input. These are the integer rules
//! of a sequence: its cadence, when inputs are accepted, which held movement
//! applies to an update, and how long a sequence may take.
use vstd::prelude::*;

verus! {

/// The most updates of a sequence.
pub const MAX_UPDATES: u32 = 3600;

/// The most renders of one update.
pub const MAX_RENDERS_PER_UPDATE: u32 = 8;

/// The schedule of a sequence; held movement directions stay with the caller,
/// in the order of `movement_updates`.
#[derive(Clone, Debug)]
pub struct SequencePlan {
    pub updates: u32,
    pub renders_per_update: u32,
    /// Updates at which the interact input is held.
    pub accept_updates: Vec<u32>,
    /// Updates at which each held movement begins.
    pub movement_updates: Vec<u32>,
}

/// Why a sequence is refused.
#[derive(Clone, Copy, Debug, PartialEq, Eq, Structural)]
pub enum SequenceError {
    /// Updates outside 1–3600 or renders per update outside 1–8.
    Cadence,
    /// An accepted input after the last update.
    Input,
    /// Movements out of order or after the last update.
    Movement,
}

/// The input of one update: the held movement in effect, if any, and whether
/// the interact input is held.
#[derive(Clone, Copy, Debug, PartialEq, Eq, Structural)]
pub struct UpdateInput {
    pub update: u32,
    pub movement: Option<usize>,
    pub interact: bool,
}

pub open spec fn cadence_ok(updates: u32, renders: u32) -> bool {
    1 <= updates <= MAX_UPDATES && 1 <= renders <= MAX_RENDERS_PER_UPDATE
}

pub open spec fn movements_ok(m: Seq<u32>, updates: u32) -> bool {
    &&& forall|i: int| 0 <= i < m.len() - 1 ==> #[trigger] m[i] < m[i + 1]
    &&& forall|i: int| 0 <= i < m.len() ==> #[trigger] m[i] < updates
}

/// The movement in effect at `update`: the last one that began by then.
pub open spec fn movement_at(m: Seq<u32>, update: u32) -> Option<usize> {
    if exists|i: int| 0 <= i < m.len() && m[i] <= update {
        Some(choose|i: usize| i < m.len() && m[i as int] <= update && forall|j: int| i < j < m.len() ==> m[j] > update)
    } else {
        None
    }
}

impl SequencePlan {
    /// Checks the cadence.
    pub fn check_cadence(&self) -> (r: Result<(), SequenceError>)
        ensures
            r == if cadence_ok(self.updates, self.renders_per_update) {
                Ok::<(), SequenceError>(())
            } else {
                Err(SequenceError::Cadence)
            },
    {
        if 1 <= self.updates && self.updates <= MAX_UPDATES && 1 <= self.renders_per_update
            && self.renders_per_update <= MAX_RENDERS_PER_UPDATE {
            Ok(())
        } else {
            Err(SequenceError::Cadence)
        }
    }

    /// Checks the scheduled inputs: accepted inputs fall within the sequence,
    /// and movements begin in increasing order within it.
    pub fn check_inputs(&self) -> (r: Result<(), SequenceError>)
        ensures
            r == if !(forall|i: int| 0 <= i < self.accept_updates@.len() ==> #[trigger] self.accept_updates@[i] < self.updates) {
                Err(SequenceError::Input)
            } else if !movements_ok(self.movement_updates@, self.updates) {
                Err(SequenceError::Movement)
            } else {
                Ok::<(), SequenceError>(())
            },
    {
        let mut i: usize = 0;
        while i < self.accept_updates.len()
            invariant
                i <= self.accept_updates@.len(),
                forall|k: int| 0 <= k < i ==> #[trigger] self.accept_updates@[k] < self.updates,
            decreases self.accept_updates@.len() - i,
        {
            if self.accept_updates[i] >= self.updates {
                assert(self.accept_updates@[i as int] >= self.updates);
                return Err(SequenceError::Input);
            }
            i = i + 1;
        }
        let mut k: usize = 0;
        while k < self.movement_updates.len()
            invariant
                k <= self.movement_updates@.len(),
                forall|j: int| 0 <= j < self.accept_updates@.len() ==> #[trigger] self.accept_updates@[j] < self.updates,
                forall|j: int| 0 <= j < k ==> #[trigger] self.movement_updates@[j] < self.updates,
                forall|j: int| 0 <= j < k - 1 ==> #[trigger] self.movement_updates@[j] < self.movement_updates@[j + 1],
            decreases self.movement_updates@.len() - k,
        {
            if self.movement_updates[k] >= self.updates {
                assert(!movements_ok(self.movement_updates@, self.updates)) by {
                    assert(self.movement_updates@[k as int] >= self.updates);
                }
                return Err(SequenceError::Movement);
            }
            if k > 0 && self.movement_updates[k - 1] >= self.movement_updates[k] {
                assert(!movements_ok(self.movement_updates@, self.updates)) by {
                    let j = k - 1;
                    assert(self.movement_updates@[j as int] >= self.movement_updates@[j + 1]);
                    assert(0 <= j < self.movement_updates@.len() - 1);
                }
                return Err(SequenceError::Movement);
            }
            k = k + 1;
        }
        Ok(())
    }

    /// Checks the whole schedule, cadence first.
    pub fn validate(&self) -> (r: Result<(), SequenceError>)
        ensures
            r == if !cadence_ok(self.updates, self.renders_per_update) {
                Err(SequenceError::Cadence)
            } else if !(forall|i: int| 0 <= i < self.accept_updates@.len() ==> #[trigger] self.accept_updates@[i] < self.updates) {
                Err(SequenceError::Input)
            } else if !movements_ok(self.movement_updates@, self.updates) {
                Err(SequenceError::Movement)
            } else {
                Ok::<(), SequenceError>(())
            },
    {
        match self.check_cadence() {
            Err(e) => Err(e),
            Ok(()) => self.check_inputs(),
        }
    }

    /// Frames the sequence renders.
    pub fn frame_count(&self) -> (n: u32)
        requires
            cadence_ok(self.updates, self.renders_per_update),
        ensures
            n == self.updates * self.renders_per_update,
    {
        assert(self.updates * self.renders_per_update <= MAX_UPDATES * MAX_RENDERS_PER_UPDATE) by (nonlinear_arith)
            requires
                self.updates <= MAX_UPDATES,
                self.renders_per_update <= MAX_RENDERS_PER_UPDATE,
        ;
        self.updates * self.renders_per_update
    }

    /// Whether the sequence has waited too long: more than 60 seconds plus one
    /// second per 20 frames.
    pub fn timed_out(&self, elapsed_secs: u64) -> (r: bool)
        requires
            cadence_ok(self.updates, self.renders_per_update),
        ensures
            r == (elapsed_secs > 60 + (self.updates * self.renders_per_update) / 20),
    {
        elapsed_secs > 60 + self.frame_count() as u64 / 20
    }

    /// The input of the update that starts at render frame `frame`, if one does:
    /// one update starts every `renders_per_update` frames.
    pub fn update_at(&self, frame: u32) -> (r: Option<UpdateInput>)
        requires
            self.renders_per_update > 0,
        ensures
            match r {
                Some(input) => {
                    &&& frame % self.renders_per_update == 0
                    &&& input.update == frame / self.renders_per_update
                    &&& input.movement == movement_at(self.movement_updates@, input.update)
                    &&& input.interact == self.accept_updates@.contains(input.update)
                },
                None => frame % self.renders_per_update != 0,
            },
    {
        if frame % self.renders_per_update != 0 {
            return None;
        }
        let update = frame / self.renders_per_update;
        let mut movement: Option<usize> = None;
        let mut k: usize = self.movement_updates.len();
        while k > 0
            invariant_except_break
                movement is None,
            invariant
                k <= self.movement_updates@.len(),
                forall|j: int| k <= j < self.movement_updates@.len() ==> #[trigger] self.movement_updates@[j] > update,
            ensures
                match movement {
                    Some(i) => i < self.movement_updates@.len() && self.movement_updates@[i as int] <= update && forall|j: int| i < j < self.movement_updates@.len() ==> #[trigger] self.movement_updates@[j] > update,
                    None => forall|j: int| 0 <= j < self.movement_updates@.len() ==> #[trigger] self.movement_updates@[j] > update,
                },
            decreases k,
        {
            if self.movement_updates[k - 1] <= update {
                movement = Some(k - 1);
                break;
            }
            k = k - 1;
        }
        proof {
            match movement {
                Some(i) => {
                    assert(self.movement_updates@[i as int] <= update);
                    assert(exists|x: int| 0 <= x < self.movement_updates@.len() && self.movement_updates@[x] <= update);
                    let c = choose|c: usize| c < self.movement_updates@.len() && self.movement_updates@[c as int] <= update && forall|j: int| c < j < self.movement_updates@.len() ==> self.movement_updates@[j] > update;
                    assert(c == i) by {
                        if c < i {
                            assert(self.movement_updates@[i as int] > update);
                        } else if c > i {
                            assert(self.movement_updates@[c as int] > update);
                        }
                    }
                },
                None => {},
            }
        }
        let mut interact = false;
        let mut a: usize = 0;
        while a < self.accept_updates.len()
            invariant
                a <= self.accept_updates@.len(),
                interact == exists|j: int| 0 <= j < a && self.accept_updates@[j] == update,
            decreases self.accept_updates@.len() - a,
        {
            if self.accept_updates[a] == update {
                interact = true;
            }
            a = a + 1;
        }
        Some(UpdateInput { update, movement, interact })
    }
}

} // verus!
