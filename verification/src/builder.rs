//! Authoring-time, name-addressed transition tables, and their
//! resolution into an index-addressed [`Program`](crate::program::Program).
//!
//! Authors refer to states by human-readable names, with `"Accept"` and
//! `"Reject"` reserved for the two terminal states.  `build` resolves
//! every rule's target name to a dense index — Accept to 0, Reject
//! to 1, a declared name to 2 plus its declaration position — and
//! fails with [`BuildError::UnknownStateReference`] when a rule targets
//! a name no state declares.

use crate::program;
use crate::Alphabet;
use crate::ACCEPT_STATE;
use crate::HeadAction;
use crate::REJECT_STATE;
use vstd::prelude::*;

verus! {

/// One authored rule: like a resolved rule, but the target state is
/// named, not indexed.
#[derive(Debug)]
pub struct Transition {
    pub cond: Alphabet,
    pub write: Alphabet,
    pub head: HeadAction,
    pub next: String,
}

impl Transition {
    /// An authored rule targeting the state named `next`.
    pub fn new(cond: Alphabet, write: Alphabet, head: HeadAction, next: &str) -> (t:
        Transition)
        ensures
            t.cond == cond,
            t.write == write,
            t.head == head,
            t.next@ == next@,
    {
        Transition { cond, write, head, next: next.to_owned() }
    }
}

/// One authored state: a name and its ordered rules.
#[derive(Debug)]
pub struct State {
    pub name: String,
    pub transitions: Vec<Transition>,
}

impl State {
    /// An authored state named `name` with the given rules.
    pub fn with_transitions(name: &str, transitions: Vec<Transition>) -> (s: State)
        ensures
            s.name@ == name@,
            s.transitions == transitions,
    {
        State { name: name.to_owned(), transitions }
    }
}

/// Why a table fails to build: a rule targets this name, and no state
/// declares it (nor is it one of the two reserved names).
#[derive(Debug)]
pub enum BuildError {
    UnknownStateReference(String),
}

impl BuildError {
    /// The offending name.
    pub fn name(&self) -> (n: &String)
        ensures
            *self matches BuildError::UnknownStateReference(m) && n == m,
    {
        match self {
            BuildError::UnknownStateReference(n) => n,
        }
    }
}

/// Captures an authored list of states for resolution.
#[derive(Debug)]
pub struct ProgramBuilder {
    pub states: Vec<State>,
}

/// Position of the first authored state carrying this name, if any:
/// the first declaration wins, as resolution scans in order.
pub open spec fn first_name_index(states: Seq<State>, name: Seq<char>) -> Option<int>
    decreases states.len(),
{
    if states.len() == 0 {
        None
    } else if states[0].name@ == name {
        Some(0int)
    } else {
        match first_name_index(states.drop_first(), name) {
            None => None,
            Some(i) => Some(i + 1),
        }
    }
}

/// What a target name resolves to: `"Accept"` to index 0, `"Reject"`
/// to index 1, a declared name to 2 plus its declaration position, and
/// an undeclared name to nothing.
pub open spec fn resolve_target(states: Seq<State>, name: Seq<char>) -> Option<int> {
    if name == "Accept"@ {
        Some(ACCEPT_STATE as int)
    } else if name == "Reject"@ {
        Some(REJECT_STATE as int)
    } else {
        match first_name_index(states, name) {
            None => None,
            Some(i) => Some(i + 2),
        }
    }
}

/// Every rule of every authored state targets a resolvable name.
pub open spec fn all_resolvable(states: Seq<State>) -> bool {
    forall|i: int, j: int|
        0 <= i < states.len() && 0 <= j < states[i].transitions@.len() ==> resolve_target(
            states,
            (#[trigger] states[i].transitions@[j]).next@,
        ) is Some
}

/// What `first_name_index` returns: the position of a first state with
/// the name — in range, named so, with every earlier state named
/// otherwise — or `None` exactly when no state carries the name.
pub proof fn lemma_first_name_index_spec(states: Seq<State>, name: Seq<char>)
    ensures
        match first_name_index(states, name) {
            Some(i) => 0 <= i < states.len() && states[i].name@ == name && forall|k: int|
                0 <= k < i ==> states[k].name@ != name,
            None => forall|k: int| 0 <= k < states.len() ==> states[k].name@ != name,
        },
    decreases states.len(),
{
    if states.len() > 0 && states[0].name@ != name {
        lemma_first_name_index_spec(states.drop_first(), name);
        assert forall|k: int|
            0 <= k < states.len() && states[k].name@ == name implies k >= 1 && states
            .drop_first()[k - 1].name@ == name by {}
    }
}

/// The first declaration wins: if state `i` carries the name and no
/// earlier state does, `first_name_index` picks exactly `i`.
pub proof fn lemma_first_name_index_unique(states: Seq<State>, name: Seq<char>, i: int)
    requires
        0 <= i < states.len(),
        states[i].name@ == name,
        forall|k: int| 0 <= k < i ==> states[k].name@ != name,
    ensures
        first_name_index(states, name) == Some(i),
{
    lemma_first_name_index_spec(states, name);
    match first_name_index(states, name) {
        None => {
            assert(states[i].name@ != name);
        },
        Some(m) => {
            if m < i {
                assert(states[m].name@ != name);
            } else if m > i {
                assert(states[i].name@ != name);
            }
        },
    }
}

/// Resolves one target name against the authored states; `None` when
/// the name is neither reserved nor declared.
fn resolve_one(states: &Vec<State>, name: &String) -> (r: Option<usize>)
    requires
        states@.len() + 2 <= usize::MAX,
    ensures
        match r {
            Some(v) => resolve_target(states@, name@) == Some(v as int),
            None => resolve_target(states@, name@) is None,
        },
{
    let accept: String = "Accept".to_owned();
    let reject: String = "Reject".to_owned();
    if *name == accept {
        return Some(ACCEPT_STATE);
    }
    if *name == reject {
        return Some(REJECT_STATE);
    }
    let mut k: usize = 0;
    while k < states.len()
        invariant
            states@.len() + 2 <= usize::MAX,
            k <= states@.len(),
            name@ != "Accept"@,
            name@ != "Reject"@,
            forall|m: int| 0 <= m < k ==> states@[m].name@ != name@,
        decreases states@.len() - k,
    {
        if states[k].name == *name {
            proof {
                lemma_first_name_index_unique(states@, name@, k as int);
            }
            return Some(2 + k);
        }
        k += 1;
    }
    proof {
        lemma_first_name_index_spec(states@, name@);
    }
    None
}

impl ProgramBuilder {
    /// Captures the author's states for resolution.
    pub fn with_states(states: Vec<State>) -> (b: ProgramBuilder)
        ensures
            b.states == states,
    {
        ProgramBuilder { states }
    }

    /// Resolves the authored, name-addressed table into an
    /// index-addressed program: every rule keeps its read and write
    /// symbols and its head move, and its target name becomes the
    /// index the name resolves to.  Succeeds exactly when every
    /// referenced name resolves; otherwise reports an offending name.
    pub fn build(self) -> (r: Result<program::Program, BuildError>)
        requires
            self.states@.len() >= 1,
            self.states@.len() + 2 <= usize::MAX,
        ensures
            r is Ok <==> all_resolvable(self.states@),
            r matches Ok(p) ==> {
                &&& p.wf()
                &&& p.current_state == 2
                &&& p.states@.len() == self.states@.len() + 2
                &&& p.states@[0].transitions@.len() == 0
                &&& p.states@[1].transitions@.len() == 0
                &&& forall|i: int|
                    0 <= i < self.states@.len() ==> (#[trigger] p.states@[i + 2])
                        .transitions@.len() == self.states@[i].transitions@.len()
                &&& forall|i: int, j: int|
                    0 <= i < self.states@.len() && 0 <= j
                        < self.states@[i].transitions@.len() ==> {
                        let authored = self.states@[i].transitions@[j];
                        let resolved = #[trigger] p.states@[i + 2].transitions@[j];
                        &&& resolved.cond == authored.cond
                        &&& resolved.write == authored.write
                        &&& resolved.head == authored.head
                        &&& resolve_target(self.states@, authored.next@) == Some(
                            resolved.next as int,
                        )
                    }
            },
            r matches Err(e) ==> {
                &&& e matches BuildError::UnknownStateReference(name)
                &&& resolve_target(self.states@, name@) is None
                &&& exists|i: int, j: int|
                    0 <= i < self.states@.len() && 0 <= j
                        < self.states@[i].transitions@.len() && (#[trigger] self.states@[
                        i
                    ].transitions@[j]).next@ == name@
            },
    {
        let mut resolved: Vec<program::State> = Vec::new();
        let mut i: usize = 0;
        while i < self.states.len()
            invariant
                self.states@.len() + 2 <= usize::MAX,
                i <= self.states@.len(),
                resolved@.len() == i,
                forall|m: int|
                    0 <= m < i ==> (#[trigger] resolved@[m]).transitions@.len()
                        == self.states@[m].transitions@.len(),
                forall|m: int, j: int|
                    0 <= m < i && 0 <= j < self.states@[m].transitions@.len() ==> {
                        let authored = self.states@[m].transitions@[j];
                        let done = #[trigger] resolved@[m].transitions@[j];
                        &&& done.cond == authored.cond
                        &&& done.write == authored.write
                        &&& done.head == authored.head
                        &&& resolve_target(self.states@, authored.next@) == Some(
                            done.next as int,
                        )
                        &&& (done.next as int) < self.states@.len() + 2
                    },
            decreases self.states@.len() - i,
        {
            let mut ts: Vec<program::Transition> = Vec::new();
            let mut j: usize = 0;
            while j < self.states[i].transitions.len()
                invariant
                    self.states@.len() + 2 <= usize::MAX,
                    i < self.states@.len(),
                    j <= self.states@[i as int].transitions@.len(),
                    ts@.len() == j,
                    forall|m: int|
                        0 <= m < j ==> {
                            let authored = self.states@[i as int].transitions@[m];
                            let done = #[trigger] ts@[m];
                            &&& done.cond == authored.cond
                            &&& done.write == authored.write
                            &&& done.head == authored.head
                            &&& resolve_target(self.states@, authored.next@) == Some(
                                done.next as int,
                            )
                            &&& (done.next as int) < self.states@.len() + 2
                        },
                decreases self.states@[i as int].transitions@.len() - j,
            {
                let t = &self.states[i].transitions[j];
                match resolve_one(&self.states, &t.next) {
                    Some(nx) => {
                        proof {
                            lemma_first_name_index_spec(self.states@, t.next@);
                        }
                        ts.push(
                            program::Transition {
                                cond: t.cond,
                                write: t.write,
                                head: t.head,
                                next: nx,
                            },
                        );
                    },
                    None => {
                        return Err(BuildError::UnknownStateReference(t.next.clone()));
                    },
                }
                j += 1;
            }
            resolved.push(program::State { transitions: ts });
            i += 1;
        }
        let ghost rsv = resolved@;
        let p = program::Program::with_states(resolved);
        proof {
            assert forall|i2: int|
                0 <= i2 < self.states@.len() implies #[trigger] p.states@[i2 + 2]
                == rsv[i2] by {}
            assert forall|i2: int, j2: int|
                0 <= i2 < self.states@.len() && 0 <= j2
                    < self.states@[i2].transitions@.len() implies resolve_target(
                self.states@,
                (#[trigger] self.states@[i2].transitions@[j2]).next@,
            ) == Some(p.states@[i2 + 2].transitions@[j2].next as int) by {
                assert(rsv[i2].transitions@[j2].cond == self.states@[i2].transitions@[
                    j2].cond);
            }
        }
        Ok(p)
    }
}

} // verus!
