use std::collections::HashMap;
use vstd::prelude::*;

use crate::fixed::Fixed;
use crate::qtable::key_of;
use crate::qtable::lemma_key_injective;
use crate::qtable::make_key;

verus! {

/// What one real step showed: taking `action` in `state` earned `reward` and
/// led to `next_state`, where `next_actions` could be taken. `elapsed`
/// counts the real steps made since.
#[derive(Debug)]
pub struct Transition {
    pub state: usize,
    pub action: usize,
    pub reward: Fixed,
    pub next_state: usize,
    pub next_actions: Vec<usize>,
    pub elapsed: usize,
}

/// The learned one-step model: for each pair of state and action that was
/// taken, the outcome seen last. The pairs are kept in the order in which
/// they were first taken, so that one of them can be drawn by its position.
#[derive(Debug)]
pub struct Model {
    index: HashMap<u128, usize>,
    entries: Vec<Transition>,
}

impl View for Model {
    type V = Seq<Transition>;

    /// The outcomes, in the order in which their pairs were first taken.
    closed spec fn view(&self) -> Seq<Transition> {
        self.entries@
    }
}

/// Whether every outcome is that of a pair of one of `states` states and
/// one of `actions` actions.
pub open spec fn entries_within(entries: Seq<Transition>, states: nat, actions: nat) -> bool {
    forall|i: int|
        0 <= i < entries.len() ==> (#[trigger] entries[i]).state < states && entries[i].action
            < actions
}

/// Whether `t` is the outcome of the pair of `state` and `action`.
pub open spec fn is_pair(t: Transition, state: usize, action: usize) -> bool {
    t.state == state && t.action == action
}

impl Model {
    /// The positions by key.
    pub closed spec fn slots(&self) -> Map<u128, usize> {
        self.index@
    }

    /// Every outcome is found under the key of its pair, and every key
    /// leads to the outcome of its pair.
    pub open spec fn wf(&self) -> bool {
        &&& forall|i: int|
            0 <= i < self@.len() ==> self.slots().contains_key(
                key_of((#[trigger] self@[i]).state, self@[i].action),
            ) && self.slots()[key_of(self@[i].state, self@[i].action)] == i
        &&& forall|k: u128| #[trigger]
            self.slots().contains_key(k) ==> self.slots()[k] < self@.len() && key_of(
                self@[self.slots()[k] as int].state,
                self@[self.slots()[k] as int].action,
            ) == k
    }

    /// Whether the pair has been taken.
    pub open spec fn knows(&self, state: usize, action: usize) -> bool {
        exists|i: int| 0 <= i < self@.len() && is_pair(#[trigger] self@[i], state, action)
    }

    /// The model of which nothing is known.
    pub fn new() -> (model: Model)
        ensures
            model.wf(),
            model@.len() == 0,
    {
        Model { index: HashMap::new(), entries: Vec::new() }
    }

    /// Number of pairs that have been taken.
    pub fn len(&self) -> (n: usize)
        ensures
            n == self@.len(),
    {
        self.entries.len()
    }

    /// The position of the outcome of a pair, if the pair has been taken.
    pub fn find(&self, state: usize, action: usize) -> (found: Option<usize>)
        requires
            self.wf(),
        ensures
            match found {
                Some(i) => i < self@.len() && is_pair(self@[i as int], state, action),
                None => !self.knows(state, action),
            },
    {
        let key: u128 = make_key(state, action);
        match self.index.get(&key) {
            Some(i) => {
                proof {
                    assert(self.slots().contains_key(key));
                    lemma_key_injective(
                        self@[*i as int].state,
                        self@[*i as int].action,
                        state,
                        action,
                    );
                }
                Some(*i)
            },
            None => {
                proof {
                    if self.knows(state, action) {
                        let i = choose|i: int|
                            0 <= i < self@.len() && is_pair(#[trigger] self@[i], state, action);
                        assert(self.slots().contains_key(key_of(self@[i].state, self@[i].action)));
                    }
                }
                None
            },
        }
    }

    /// The outcome at position `i`.
    pub fn entry(&self, i: usize) -> (t: &Transition)
        requires
            i < self@.len(),
        ensures
            *t == self@[i as int],
    {
        &self.entries[i]
    }

    /// Records the outcome of a real step: in place of the one known for its
    /// pair, or after all others where the pair is new. Returns its
    /// position.
    pub fn record(&mut self, t: Transition) -> (at: usize)
        requires
            old(self).wf(),
        ensures
            final(self).wf(),
            at < final(self)@.len(),
            final(self)@[at as int] == t,
            old(self).knows(t.state, t.action) ==> at < old(self)@.len() && is_pair(
                old(self)@[at as int],
                t.state,
                t.action,
            ) && final(self)@ == old(self)@.update(at as int, t),
            !old(self).knows(t.state, t.action) ==> at == old(self)@.len() && final(self)@ == old(
                self,
            )@.push(t),
    {
        let state: usize = t.state;
        let action: usize = t.action;
        match self.find(state, action) {
            Some(i) => {
                self.entries[i] = t;
                proof {
                    assert(self@ == old(self)@.update(i as int, t));
                    assert forall|j: int| 0 <= j < self@.len() implies self.slots().contains_key(
                        key_of((#[trigger] self@[j]).state, self@[j].action),
                    ) && self.slots()[key_of(self@[j].state, self@[j].action)] == j by {
                        if j != i {
                            assert(self@[j] == old(self)@[j]);
                        }
                    }
                    assert forall|k: u128| #[trigger] self.slots().contains_key(k) implies self.slots()[k]
                        < self@.len() && key_of(
                        self@[self.slots()[k] as int].state,
                        self@[self.slots()[k] as int].action,
                    ) == k by {
                        let j = self.slots()[k] as int;
                        if j != i {
                            assert(self@[j] == old(self)@[j]);
                        }
                    }
                }
                i
            },
            None => {
                let at: usize = self.entries.len();
                let key: u128 = make_key(state, action);
                self.index.insert(key, at);
                self.entries.push(t);
                proof {
                    assert(self@ == old(self)@.push(t));
                    assert forall|j: int| 0 <= j < self@.len() implies self.slots().contains_key(
                        key_of((#[trigger] self@[j]).state, self@[j].action),
                    ) && self.slots()[key_of(self@[j].state, self@[j].action)] == j by {
                        if j < at {
                            assert(self@[j] == old(self)@[j]);
                            let kj = key_of(self@[j].state, self@[j].action);
                            if kj == key {
                                lemma_key_injective(self@[j].state, self@[j].action, state, action);
                                assert(is_pair(old(self)@[j], state, action));
                            }
                        }
                    }
                    assert forall|k: u128| #[trigger] self.slots().contains_key(k) implies self.slots()[k]
                        < self@.len() && key_of(
                        self@[self.slots()[k] as int].state,
                        self@[self.slots()[k] as int].action,
                    ) == k by {
                        if k != key {
                            assert(old(self).slots().contains_key(k));
                            let j = old(self).slots()[k] as int;
                            assert(self@[j] == old(self)@[j]);
                        }
                    }
                }
                at
            },
        }
    }

    /// Counts one more real step for every pair but the one at position
    /// `taken`, whose count starts again at zero. A count that has reached
    /// the largest number stays there.
    pub fn age(&mut self, taken: usize)
        requires
            old(self).wf(),
            taken < old(self)@.len(),
        ensures
            final(self).wf(),
            final(self)@.len() == old(self)@.len(),
            forall|i: int|
                0 <= i < old(self)@.len() ==> aged(old(self)@[i], i == taken) == (
                #[trigger] final(self)@[i]),
    {
        let n: usize = self.entries.len();
        let mut i: usize = 0;
        while i < n
            invariant
                i <= n,
                n == old(self)@.len(),
                self@.len() == n,
                self.slots() == old(self).slots(),
                forall|j: int|
                    0 <= j < i ==> aged(old(self)@[j], j == taken) == (#[trigger] self@[j]),
                forall|j: int| i <= j < n ==> old(self)@[j] == (#[trigger] self@[j]),
            decreases n - i,
        {
            let elapsed: usize = if i == taken {
                0
            } else if self.entries[i].elapsed < usize::MAX {
                self.entries[i].elapsed + 1
            } else {
                usize::MAX
            };
            self.entries[i].elapsed = elapsed;
            i = i + 1;
        }
    }
}

/// Whether the model `after` is the model `before` with the outcome `t`
/// recorded: in place of the outcome known for its pair, or after all others
/// where the pair is new.
pub open spec fn records(before: Seq<Transition>, after: Seq<Transition>, t: Transition) -> bool {
    ||| exists|at: int|
        0 <= at < before.len() && is_pair(#[trigger] before[at], t.state, t.action) && after
            == before.update(at, t)
    ||| (forall|i: int| 0 <= i < before.len() ==> !is_pair(#[trigger] before[i], t.state, t.action))
        && after == before.push(t)
}

/// Whether the model `after` is the model `before` one real step later, the
/// pair at position `taken` being the one taken: its count of steps is zero,
/// and that of every other pair one higher.
pub open spec fn ages(before: Seq<Transition>, after: Seq<Transition>, taken: int) -> bool {
    &&& after.len() == before.len()
    &&& forall|i: int| 0 <= i < before.len() ==> (#[trigger] after[i]) == aged(before[i], i == taken)
}

/// Whether the model `after` is the model `before` with the outcome `t`
/// recorded and every count of steps brought up to date: zero for the pair
/// of `t`, one higher for every other pair.
pub open spec fn records_and_ages(
    before: Seq<Transition>,
    after: Seq<Transition>,
    t: Transition,
) -> bool {
    exists|mid: Seq<Transition>, at: int| #[trigger]
        records(before, mid, t) && 0 <= at < mid.len() && mid[at] == t && #[trigger] ages(
            mid,
            after,
            at,
        )
}

/// An outcome one real step later: its count of steps back at zero where its
/// pair was the one taken, one higher otherwise.
pub open spec fn aged(t: Transition, taken: bool) -> Transition {
    Transition {
        state: t.state,
        action: t.action,
        reward: t.reward,
        next_state: t.next_state,
        next_actions: t.next_actions,
        elapsed: if taken {
            0
        } else if t.elapsed < usize::MAX {
            (t.elapsed + 1) as usize
        } else {
            usize::MAX
        },
    }
}

} // verus!
