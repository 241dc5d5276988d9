use vstd::prelude::*;
use crate::score::Score;

verus! {

/// Positional transition kinds, the first index of `Profile::transitions`.
pub const PROFILE_MATCH_TO_MATCH: usize = 0;
pub const PROFILE_MATCH_TO_INSERT: usize = 1;
pub const PROFILE_MATCH_TO_DELETE: usize = 2;
pub const PROFILE_INSERT_TO_MATCH: usize = 3;
pub const PROFILE_INSERT_TO_INSERT: usize = 4;
pub const PROFILE_DELETE_TO_MATCH: usize = 5;
pub const PROFILE_DELETE_TO_DELETE: usize = 6;
pub const PROFILE_BEGIN_TO_MATCH: usize = 7;
pub const NUM_TRANSITION_KINDS: usize = 8;

/// Special states, the first index of `Profile::special_transitions`.
pub const SPECIAL_N: usize = 0;
pub const SPECIAL_B: usize = 1;
pub const SPECIAL_E: usize = 2;
pub const SPECIAL_C: usize = 3;
pub const SPECIAL_J: usize = 4;
pub const NUM_SPECIAL_STATES: usize = 5;

/// Special sub-transitions, the second index of `Profile::special_transitions`.
pub const SPECIAL_LOOP: usize = 0;
pub const SPECIAL_MOVE: usize = 1;

/// A query model with match states `1..=length`.
///
/// `transitions[kind][pos]` and `transition_deltas[kind][pos]` hold a score and
/// its reachability mask for `pos` in `0..=length`; `match_scores[residue][pos]`
/// and `insert_scores[residue][pos]` the emission scores; and
/// `special_transitions[state][sub]` with `special_transition_deltas` the
/// transitions among the special states.
pub struct Profile<S> {
    pub length: usize,
    pub transitions: Vec<Vec<S>>,
    pub transition_deltas: Vec<Vec<S>>,
    pub match_scores: Vec<Vec<S>>,
    pub insert_scores: Vec<Vec<S>>,
    pub special_transitions: Vec<Vec<S>>,
    pub special_transition_deltas: Vec<Vec<S>>,
}

impl<S: Score> Profile<S> {
    /// Every table has the shape its indexing needs.
    pub open spec fn wf(&self) -> bool {
        &&& self.length >= 1
        &&& self.transitions@.len() == NUM_TRANSITION_KINDS
        &&& self.transition_deltas@.len() == NUM_TRANSITION_KINDS
        &&& (forall|k: int|
            0 <= k < NUM_TRANSITION_KINDS ==> #[trigger] self.transitions@[k]@.len() == self.length
                + 1)
        &&& (forall|k: int|
            0 <= k < NUM_TRANSITION_KINDS ==> #[trigger] self.transition_deltas@[k]@.len()
                == self.length + 1)
        &&& self.match_scores@.len() == self.insert_scores@.len()
        &&& (forall|r: int|
            0 <= r < self.match_scores@.len() ==> #[trigger] self.match_scores@[r]@.len()
                == self.length + 1)
        &&& (forall|r: int|
            0 <= r < self.insert_scores@.len() ==> #[trigger] self.insert_scores@[r]@.len()
                == self.length + 1)
        &&& self.special_transitions@.len() == NUM_SPECIAL_STATES
        &&& self.special_transition_deltas@.len() == NUM_SPECIAL_STATES
        &&& (forall|s: int|
            0 <= s < NUM_SPECIAL_STATES ==> #[trigger] self.special_transitions@[s]@.len() == 2)
        &&& (forall|s: int|
            0 <= s < NUM_SPECIAL_STATES ==> #[trigger] self.special_transition_deltas@[s]@.len()
                == 2)
    }

    /// The number of residue codes the emission tables cover.
    pub open spec fn alphabet_size(&self) -> nat {
        self.match_scores@.len()
    }

    pub open spec fn tsc(&self, kind: int, pos: int) -> S {
        self.transitions@[kind]@[pos]
    }

    pub open spec fn tsc_delta(&self, kind: int, pos: int) -> S {
        self.transition_deltas@[kind]@[pos]
    }

    pub open spec fn msc(&self, residue: int, pos: int) -> S {
        self.match_scores@[residue]@[pos]
    }

    pub open spec fn isc(&self, residue: int, pos: int) -> S {
        self.insert_scores@[residue]@[pos]
    }

    pub open spec fn xsc(&self, state: int, sub: int) -> S {
        self.special_transitions@[state]@[sub]
    }

    pub open spec fn xsc_delta(&self, state: int, sub: int) -> S {
        self.special_transition_deltas@[state]@[sub]
    }

    pub fn transition_score(&self, kind: usize, pos: usize) -> (r: S)
        requires
            self.wf(),
            kind < NUM_TRANSITION_KINDS,
            pos <= self.length,
        ensures
            r == self.tsc(kind as int, pos as int),
    {
        self.transitions[kind][pos]
    }

    pub fn transition_score_delta(&self, kind: usize, pos: usize) -> (r: S)
        requires
            self.wf(),
            kind < NUM_TRANSITION_KINDS,
            pos <= self.length,
        ensures
            r == self.tsc_delta(kind as int, pos as int),
    {
        self.transition_deltas[kind][pos]
    }

    pub fn match_score(&self, residue: usize, pos: usize) -> (r: S)
        requires
            self.wf(),
            residue < self.alphabet_size(),
            pos <= self.length,
        ensures
            r == self.msc(residue as int, pos as int),
    {
        self.match_scores[residue][pos]
    }

    pub fn insert_score(&self, residue: usize, pos: usize) -> (r: S)
        requires
            self.wf(),
            residue < self.alphabet_size(),
            pos <= self.length,
        ensures
            r == self.isc(residue as int, pos as int),
    {
        self.insert_scores[residue][pos]
    }

    pub fn special_transition_score(&self, state: usize, sub: usize) -> (r: S)
        requires
            self.wf(),
            state < NUM_SPECIAL_STATES,
            sub < 2,
        ensures
            r == self.xsc(state as int, sub as int),
    {
        self.special_transitions[state][sub]
    }

    pub fn special_transition_score_delta(&self, state: usize, sub: usize) -> (r: S)
        requires
            self.wf(),
            state < NUM_SPECIAL_STATES,
            sub < 2,
        ensures
            r == self.xsc_delta(state as int, sub as int),
    {
        self.special_transition_deltas[state][sub]
    }
}

} // verus!
