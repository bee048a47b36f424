//! A program composed with a tape, driven step by step to termination.

use crate::program::Program;
use crate::semantics::halts_within;
use crate::semantics::run_n;
use crate::semantics::spec_step;
use crate::semantics::Config;
use crate::tape::initial_cells;
use crate::tape::Tape;
use crate::Alphabet;
use crate::ACCEPT_STATE;
use crate::BLOCK_SIZE;
use crate::HeadAction;
use crate::REJECT_STATE;
use vstd::prelude::*;

verus! {

/// A program together with the tape it runs on.
#[derive(Debug)]
pub struct Machine {
    pub program: Program,
    pub tape: Tape,
}

impl Machine {
    /// Program and tape are both well-formed.
    pub open spec fn wf(self) -> bool {
        self.program.wf() && self.tape.wf()
    }

    /// The machine's current configuration.
    pub open spec fn config(self) -> Config {
        Config {
            states: self.program.rules(),
            current: self.program.current_state as int,
            tape: self.tape.cells(),
            head: self.tape.head as int,
        }
    }

    /// Composes a built program with a fresh tape holding the given
    /// input; the head starts on the first input cell.
    pub fn with_program(program: Program, input: Vec<Alphabet>) -> (m: Machine)
        requires
            program.wf(),
            input@.len() + BLOCK_SIZE <= usize::MAX,
        ensures
            m.wf(),
            m.program == program,
            m.tape.head == BLOCK_SIZE,
            m.tape.cells() == initial_cells(input@),
    {
        Machine { program, tape: Tape::from_input(input) }
    }

    /// One atomic step of the transition function: read the symbol
    /// under the head, take the current state's first matching rule
    /// (write, move, jump), or fall to Reject when none matches.
    pub fn step(&mut self)
        requires
            old(self).wf(),
            old(self).tape.head + 1 < usize::MAX,
        ensures
            final(self).wf(),
            final(self).config() == spec_step(old(self).config()),
    {
        let cs = self.program.current_state;
        let sym = self.tape.current_cell();
        let n = self.program.states[cs].transitions.len();
        let mut j: usize = 0;
        while j < n && self.program.states[cs].transitions[j].cond != sym
            invariant
                self == old(self),
                self.wf(),
                cs == self.program.current_state,
                (cs as int) < self.program.states@.len(),
                n == self.program.states@[cs as int].transitions@.len(),
                sym == self.tape.cells()[self.tape.head as int],
                j <= n,
                forall|k: int|
                    0 <= k < j ==> self.program.states@[cs as int].transitions@[k].cond
                        != sym,
            decreases n - j,
        {
            j += 1;
        }
        proof {
            assert(self.config().states[cs as int] =~= self.program.states@[
                cs as int].transitions@);
        }
        if j < n {
            let t = &self.program.states[cs].transitions[j];
            let w = t.write;
            let act = t.head;
            let nx = t.next;
            proof {
                crate::semantics::lemma_first_match_wins(self.config(), j as int);
            }
            self.tape.write_cell(w);
            match act {
                HeadAction::Stay => {},
                HeadAction::Left => self.tape.move_left(),
                HeadAction::Right => self.tape.move_right(),
            }
            self.program.current_state = nx;
            proof {
                assert(self.config() =~= spec_step(old(self).config()));
            }
        } else {
            proof {
                crate::semantics::lemma_default_rejection(self.config());
            }
            self.program.reject();
            proof {
                assert(self.config() =~= spec_step(old(self).config()));
            }
        }
    }

    /// Steps until the run stands in Accept or Reject, and reports
    /// which: `true` exactly when the machine accepted.  The caller
    /// supplies the number of steps within which the run halts (a
    /// machine with a reachable infinite loop cannot be run to an end)
    /// with enough head-room that the head position stays a `usize`;
    /// the run ends at the first terminal configuration, always after
    /// at least one step.
    pub fn run_to_end(&mut self) -> (accepted: bool)
        requires
            old(self).wf(),
            exists|n: nat|
                halts_within(old(self).config(), n) && old(self).tape.head + n + 1
                    < usize::MAX,
        ensures
            final(self).wf(),
            exists|n: nat|
                {
                    &&& halts_within(old(self).config(), n)
                    &&& forall|k: nat| 1 <= k < n ==> !run_n(old(self).config(), k).terminal()
                    &&& final(self).config() == run_n(old(self).config(), n)
                    &&& accepted == (run_n(old(self).config(), n).current
                        == ACCEPT_STATE)
                },
            final(self).config().terminal(),
            accepted == (final(self).program.current_state == ACCEPT_STATE),
    {
        let ghost orig = old(self).config();
        let ghost nterm = choose|n: nat|
            halts_within(orig, n) && old(self).tape.head + n + 1 < usize::MAX;
        proof {
            crate::semantics::lemma_head_growth(orig, 0);
        }
        self.step();
        let ghost mut i: nat = 1;
        while self.program.current_state != ACCEPT_STATE && self.program.current_state
            != REJECT_STATE
            invariant
                self.wf(),
                halts_within(orig, nterm),
                orig.head + nterm + 1 < usize::MAX,
                orig.wf(),
                1 <= i <= nterm,
                self.config() == run_n(orig, i),
                forall|k: nat| 1 <= k < i ==> !run_n(orig, k).terminal(),
            decreases nterm - i,
        {
            proof {
                assert(!run_n(orig, i).terminal());
                assert(i < nterm);
                crate::semantics::lemma_head_growth(orig, i);
                assert(self.tape.head + 1 < usize::MAX);
            }
            self.step();
            proof {
                i = i + 1;
                assert(self.config() == run_n(orig, i));
                assert(i <= nterm) by {
                    if i > nterm {
                        assert(!run_n(orig, nterm).terminal());
                    }
                }
            }
        }
        proof {
            assert(run_n(orig, i).terminal());
            assert(halts_within(orig, i));
        }
        self.program.current_state == ACCEPT_STATE
    }
}

} // verus!
