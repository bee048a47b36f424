//! Index-addressed transition tables, ready for execution.
//!
//! A program's state list always begins with the two reserved states:
//! index 0 is Accept and index 1 is Reject, both synthesized without
//! rules.  Author-defined states follow in declaration order from
//! index 2, and the current-state pointer starts there.

use crate::Alphabet;
use crate::HeadAction;
use crate::REJECT_STATE;
use vstd::prelude::*;

verus! {

/// One rule out of a state: on reading `cond`, write `write`, move the
/// head by `head`, and continue at state index `next`.
#[derive(Debug, Clone, Copy)]
pub struct Transition {
    pub cond: Alphabet,
    pub write: Alphabet,
    pub head: HeadAction,
    pub next: usize,
}

/// One state: an ordered list of rules, searched first-match-wins.
#[derive(Debug)]
pub struct State {
    pub transitions: Vec<Transition>,
}

impl State {
    /// A state with no rules, as the two reserved states carry.
    pub fn empty() -> (s: State)
        ensures
            s.transitions@.len() == 0,
    {
        State { transitions: Vec::new() }
    }
}

/// The resolved collection of states plus the current-state pointer.
#[derive(Debug)]
pub struct Program {
    pub states: Vec<State>,
    pub current_state: usize,
}

impl Program {
    /// The program's rule table: per state, its ordered rules.
    pub open spec fn rules(self) -> Seq<Seq<Transition>> {
        self.states@.map_values(|s: State| s.transitions@)
    }

    /// Well-formedness: the two reserved rule-less states are in place,
    /// the current-state pointer is in range, and every rule's target
    /// index names an existing state.
    pub open spec fn wf(self) -> bool {
        &&& self.states@.len() >= 3
        &&& (self.current_state as int) < self.states@.len()
        &&& self.states@[0].transitions@.len() == 0
        &&& self.states@[1].transitions@.len() == 0
        &&& forall|i: int, j: int|
            0 <= i < self.states@.len() && 0 <= j < self.states@[i].transitions@.len()
                ==> (#[trigger] self.states@[i].transitions@[j].next as int)
                < self.states@.len()
    }

    /// Prepends the two reserved marker states (Accept at index 0,
    /// Reject at index 1) to the given states and points the program at
    /// the first user state, index 2.
    pub fn with_states(states: Vec<State>) -> (p: Program)
        requires
            states@.len() >= 1,
            states@.len() + 2 <= usize::MAX,
            forall|i: int, j: int|
                0 <= i < states@.len() && 0 <= j < states@[i].transitions@.len()
                    ==> (#[trigger] states@[i].transitions@[j].next as int) < states@.len()
                    + 2,
        ensures
            p.wf(),
            p.current_state == 2,
            p.states@.len() == states@.len() + 2,
            p.states@[0].transitions@.len() == 0,
            p.states@[1].transitions@.len() == 0,
            forall|i: int| 0 <= i < states@.len() ==> p.states@[i + 2] == states@[i],
    {
        let mut marker_states: Vec<State> = Vec::new();
        marker_states.push(State::empty());
        marker_states.push(State::empty());
        let mut states = states;
        marker_states.append(&mut states);
        Program { states: marker_states, current_state: 2 }
    }

    /// The state the program currently points at.
    pub fn current_state(&self) -> (s: &State)
        requires
            (self.current_state as int) < self.states@.len(),
        ensures
            *s == self.states@[self.current_state as int],
    {
        &self.states[self.current_state]
    }

    /// Moves the program to the reserved Reject state, the target of the
    /// implicit default transition.
    pub fn reject(&mut self)
        ensures
            final(self).current_state == REJECT_STATE,
            final(self).states == old(self).states,
    {
        self.current_state = REJECT_STATE;
    }
}

} // verus!
