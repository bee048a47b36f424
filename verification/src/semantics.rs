//! The mathematical meaning of a machine step and of a whole run.
//!
//! A configuration holds the rule table, the current state index, the
//! allocated tape cells and the head position.  `spec_step` is the
//! transition function the executable `step` is proved to follow:
//! first-match-wins rule selection, with the implicit default
//! transition to Reject when no rule matches.  `run_n` iterates it, and
//! `halts_within` says a run reaches a terminal state after a given
//! number of steps.

use crate::program::Transition;
use crate::tape::blank_block;
use crate::Alphabet;
use crate::ACCEPT_STATE;
use crate::HeadAction;
use crate::REJECT_STATE;
use vstd::prelude::*;

verus! {

/// One machine configuration: rule table, current state, allocated tape
/// cells, head position.
#[verifier::ext_equal]
pub struct Config {
    pub states: Seq<Seq<Transition>>,
    pub current: int,
    pub tape: Seq<Alphabet>,
    pub head: int,
}

impl Config {
    /// The reserved states carry no rules, the current state and the
    /// head are in range, and every rule targets an existing state.
    pub open spec fn wf(self) -> bool {
        &&& self.states.len() >= 3
        &&& 0 <= self.current < self.states.len()
        &&& self.states[0].len() == 0
        &&& self.states[1].len() == 0
        &&& 0 <= self.head < self.tape.len()
        &&& forall|i: int, j: int|
            0 <= i < self.states.len() && 0 <= j < self.states[i].len() ==> (
            #[trigger] self.states[i][j].next as int) < self.states.len()
    }

    /// A run ends exactly when it stands in Accept or Reject.
    pub open spec fn terminal(self) -> bool {
        self.current == ACCEPT_STATE || self.current == REJECT_STATE
    }
}

/// Index of the first rule whose `cond` equals the symbol read, if any:
/// rule order is significant, later matching rules are dead.
pub open spec fn first_match(ts: Seq<Transition>, sym: Alphabet) -> Option<int>
    decreases ts.len(),
{
    if ts.len() == 0 {
        None
    } else if ts[0].cond == sym {
        Some(0int)
    } else {
        match first_match(ts.drop_first(), sym) {
            None => None,
            Some(i) => Some(i + 1),
        }
    }
}

/// The configuration after applying one rule: the cell under the head
/// is overwritten, the head moves (clamping at the left boundary, and
/// growing one blank block when it crosses the allocated range), and
/// the rule's target becomes current.
pub open spec fn apply_rule(c: Config, t: Transition) -> Config {
    let written = c.tape.update(c.head, t.write);
    let head = match t.head {
        HeadAction::Stay => c.head,
        HeadAction::Left => if c.head == 0 {
            0int
        } else {
            c.head - 1
        },
        HeadAction::Right => c.head + 1,
    };
    let tape = if t.head is Right && c.head + 1 >= written.len() {
        written + blank_block()
    } else {
        written
    };
    Config { states: c.states, current: t.next as int, tape, head }
}

/// One step: read the symbol under the head, take the first matching
/// rule of the current state, or fall to Reject leaving tape and head
/// untouched.
pub open spec fn spec_step(c: Config) -> Config {
    let sym = c.tape[c.head];
    match first_match(c.states[c.current], sym) {
        Some(i) => apply_rule(c, c.states[c.current][i]),
        None => Config {
            states: c.states,
            current: REJECT_STATE as int,
            tape: c.tape,
            head: c.head,
        },
    }
}

/// The configuration after `n` steps.
pub open spec fn run_n(c: Config, n: nat) -> Config
    decreases n,
{
    if n == 0 {
        c
    } else {
        spec_step(run_n(c, (n - 1) as nat))
    }
}

/// The run from `c` stands in a terminal state after `n` steps (the
/// step loop always takes at least one step, so `n` starts at 1).
pub open spec fn halts_within(c: Config, n: nat) -> bool {
    1 <= n && run_n(c, n).terminal()
}

/// The run from `c` reaches a terminal state at all.  A machine with an
/// infinite loop never satisfies this; running it to completion is not
/// a service this library offers.
pub open spec fn halts(c: Config) -> bool {
    exists|n: nat| halts_within(c, n)
}

/// What `first_match` returns: a first matching rule's index — in
/// range, matching, with every earlier rule not matching — or `None`
/// exactly when no rule matches.
pub proof fn lemma_first_match_spec(ts: Seq<Transition>, sym: Alphabet)
    ensures
        match first_match(ts, sym) {
            Some(i) => 0 <= i < ts.len() && ts[i].cond == sym && forall|k: int|
                0 <= k < i ==> ts[k].cond != sym,
            None => forall|k: int| 0 <= k < ts.len() ==> ts[k].cond != sym,
        },
    decreases ts.len(),
{
    if ts.len() > 0 && ts[0].cond != sym {
        lemma_first_match_spec(ts.drop_first(), sym);
        assert forall|k: int| 0 <= k < ts.len() && ts[k].cond == sym implies k >= 1 && ts
            .drop_first()[k - 1].cond == sym by {}
    }
}

/// The first matching rule decides: if rule `i` matches the symbol and
/// no earlier rule does, `first_match` picks exactly `i`.
pub proof fn lemma_first_match_unique(ts: Seq<Transition>, sym: Alphabet, i: int)
    requires
        0 <= i < ts.len(),
        ts[i].cond == sym,
        forall|k: int| 0 <= k < i ==> ts[k].cond != sym,
    ensures
        first_match(ts, sym) == Some(i),
{
    lemma_first_match_spec(ts, sym);
    match first_match(ts, sym) {
        None => {
            assert(ts[i].cond != sym);
        },
        Some(m) => {
            if m < i {
                assert(ts[m].cond != sym);
            } else if m > i {
                assert(ts[i].cond != sym);
            }
        },
    }
}

/// First-match-wins: when rule `i` of the current state matches the
/// symbol under the head and no earlier rule does, the step applies
/// rule `i` — any later rule matching the same symbol is unreachable.
pub proof fn lemma_first_match_wins(c: Config, i: int)
    requires
        c.wf(),
        0 <= i < c.states[c.current].len(),
        c.states[c.current][i].cond == c.tape[c.head],
        forall|k: int| 0 <= k < i ==> c.states[c.current][k].cond != c.tape[c.head],
    ensures
        spec_step(c) == apply_rule(c, c.states[c.current][i]),
{
    lemma_first_match_unique(c.states[c.current], c.tape[c.head], i);
}

/// Default rejection: when no rule of the current state matches the
/// symbol under the head, the step moves to Reject and leaves the tape
/// and the head exactly as they were.
pub proof fn lemma_default_rejection(c: Config)
    requires
        c.wf(),
        forall|k: int|
            0 <= k < c.states[c.current].len() ==> c.states[c.current][k].cond
                != c.tape[c.head],
    ensures
        spec_step(c).current == REJECT_STATE,
        spec_step(c).tape == c.tape,
        spec_step(c).head == c.head,
        spec_step(c).states == c.states,
{
    lemma_first_match_spec(c.states[c.current], c.tape[c.head]);
    if first_match(c.states[c.current], c.tape[c.head]) is Some {
        let i = first_match(c.states[c.current], c.tape[c.head])->Some_0;
        assert(c.states[c.current][i].cond != c.tape[c.head]);
    }
}

/// One step preserves well-formedness: the rule table never changes,
/// the target index is in range, and the head stays on an allocated
/// cell through clamping and on-demand growth.
pub proof fn lemma_step_preserves_wf(c: Config)
    requires
        c.wf(),
    ensures
        spec_step(c).wf(),
        spec_step(c).states == c.states,
{
    lemma_first_match_spec(c.states[c.current], c.tape[c.head]);
}

/// A halting run ends in exactly one place: two step counts that each
/// reach a terminal configuration with no earlier terminal
/// configuration are equal.  With the step loop's contract this makes
/// the outcome of a halting run — Accept or Reject, and the final
/// tape — a function of the program and the initial tape alone.
pub proof fn lemma_halting_point_unique(c: Config, n1: nat, n2: nat)
    requires
        halts_within(c, n1),
        forall|k: nat| 1 <= k < n1 ==> !run_n(c, k).terminal(),
        halts_within(c, n2),
        forall|k: nat| 1 <= k < n2 ==> !run_n(c, k).terminal(),
    ensures
        n1 == n2,
{
    if n1 < n2 {
        assert(!run_n(c, n1).terminal());
    } else if n2 < n1 {
        assert(!run_n(c, n2).terminal());
    }
}

/// The head advances by at most one cell per step, so after `n` steps
/// it sits at most `n` cells beyond where it started.
pub proof fn lemma_head_growth(c: Config, n: nat)
    requires
        c.wf(),
    ensures
        run_n(c, n).wf(),
        run_n(c, n).states == c.states,
        run_n(c, n).head <= c.head + n,
    decreases n,
{
    if n > 0 {
        lemma_head_growth(c, (n - 1) as nat);
        lemma_step_preserves_wf(run_n(c, (n - 1) as nat));
    }
}

} // verus!
