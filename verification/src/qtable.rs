use std::collections::HashMap;
use vstd::prelude::*;

use crate::fixed::Fixed;

verus! {

/// The key under which the pair of `state` and `action` is stored: the state
/// in the upper half of the key, the action in the lower.
pub open spec fn key_of(state: usize, action: usize) -> u128 {
    (state * 0x1_0000_0000_0000_0000 + action) as u128
}

/// Two pairs share a key only if they are the same pair.
pub proof fn lemma_key_injective(s1: usize, a1: usize, s2: usize, a2: usize)
    requires
        key_of(s1, a1) == key_of(s2, a2),
    ensures
        s1 == s2,
        a1 == a2,
{
    assert(s1 * 0x1_0000_0000_0000_0000 + a1 < 0x1_0000_0000_0000_0000_0000_0000_0000_0000)
        by (nonlinear_arith)
        requires
            0 <= s1 <= 0xffff_ffff_ffff_ffff,
            0 <= a1 <= 0xffff_ffff_ffff_ffff,
    ;
    assert(s2 * 0x1_0000_0000_0000_0000 + a2 < 0x1_0000_0000_0000_0000_0000_0000_0000_0000)
        by (nonlinear_arith)
        requires
            0 <= s2 <= 0xffff_ffff_ffff_ffff,
            0 <= a2 <= 0xffff_ffff_ffff_ffff,
    ;
    assert(s1 == s2 && a1 == a2) by (nonlinear_arith)
        requires
            s1 * 0x1_0000_0000_0000_0000 + a1 == s2 * 0x1_0000_0000_0000_0000 + a2,
            0 <= a1 < 0x1_0000_0000_0000_0000,
            0 <= a2 < 0x1_0000_0000_0000_0000,
            0 <= s1,
            0 <= s2,
    ;
}

/// The key of a pair.
pub fn make_key(state: usize, action: usize) -> (key: u128)
    ensures
        key == key_of(state, action),
{
    assert(state * 0x1_0000_0000_0000_0000 + action < 0x1_0000_0000_0000_0000_0000_0000_0000_0000)
        by (nonlinear_arith)
        requires
            0 <= state <= 0xffff_ffff_ffff_ffff,
            0 <= action <= 0xffff_ffff_ffff_ffff,
    ;
    assert(0 <= state * 0x1_0000_0000_0000_0000 <= 0xffff_ffff_ffff_ffff
        * 0x1_0000_0000_0000_0000) by (nonlinear_arith)
        requires
            0 <= state <= 0xffff_ffff_ffff_ffff,
    ;
    (state as u128) * 0x1_0000_0000_0000_0000u128 + (action as u128)
}

/// A value moved from `old` towards `target` by the step size `alpha`:
/// `old + alpha * (target - old)`.
pub open spec fn moved_towards(old: Fixed, target: Fixed, alpha: Fixed) -> Fixed {
    old.spec_add(alpha.spec_mul(target.spec_sub(old)))
}

/// The target of a temporal-difference update: the reward and the
/// discounted value that stands for the rest of the episode.
pub open spec fn td_target(reward: Fixed, gamma: Fixed, bootstrap: Fixed) -> Fixed {
    reward.spec_add(gamma.spec_mul(bootstrap))
}

/// A sparse action-value table: a value for each pair of state and action
/// that has been written, and zero for every other pair.
#[derive(Debug)]
pub struct QTable {
    map: HashMap<u128, Fixed>,
}

impl QTable {
    /// The stored values, by key.
    pub closed spec fn entries(&self) -> Map<u128, Fixed> {
        self.map@
    }

    /// Whether a value has been written for the pair.
    pub open spec fn contains(&self, state: usize, action: usize) -> bool {
        self.entries().contains_key(key_of(state, action))
    }

    /// `Q(state, action)`: the value written last, or zero.
    pub open spec fn value(&self, state: usize, action: usize) -> Fixed {
        if self.contains(state, action) {
            self.entries()[key_of(state, action)]
        } else {
            Fixed { raw: 0 }
        }
    }

    /// Whether every pair that has been written is a pair of one of `states`
    /// states and one of `actions` actions.
    pub open spec fn within(&self, states: nat, actions: nat) -> bool {
        forall|s: usize, a: usize| #[trigger] self.contains(s, a) ==> s < states && a < actions
    }

    /// The table in which nothing has been written.
    pub fn new() -> (q: QTable)
        ensures
            q.entries() == Map::<u128, Fixed>::empty(),
            forall|s: usize, a: usize| !q.contains(s, a),
    {
        QTable { map: HashMap::new() }
    }

    /// Number of pairs that have been written.
    pub fn len(&self) -> (n: usize)
        ensures
            n == self.entries().len(),
    {
        self.map.len()
    }

    /// Whether a value has been written for the pair.
    pub fn has(&self, state: usize, action: usize) -> (b: bool)
        ensures
            b == self.contains(state, action),
    {
        let key: u128 = make_key(state, action);
        self.map.contains_key(&key)
    }

    /// `Q(state, action)`, zero where nothing has been written.
    pub fn get(&self, state: usize, action: usize) -> (v: Fixed)
        ensures
            v == self.value(state, action),
    {
        let key: u128 = make_key(state, action);
        match self.map.get(&key) {
            Some(v) => *v,
            None => Fixed { raw: 0 },
        }
    }

    /// Moves `Q(state, action)` towards `target` by the step size `alpha` and
    /// leaves every other pair as it is.
    pub fn move_towards(&mut self, state: usize, action: usize, target: Fixed, alpha: Fixed)
        ensures
            final(self).entries() == old(self).entries().insert(
                key_of(state, action),
                moved_towards(old(self).value(state, action), target, alpha),
            ),
            final(self).contains(state, action),
            final(self).value(state, action) == moved_towards(
                old(self).value(state, action),
                target,
                alpha,
            ),
            forall|s: usize, a: usize|
                !(s == state && a == action) ==> #[trigger] final(self).value(s, a) == old(
                    self,
                ).value(s, a),
            forall|s: usize, a: usize|
                !(s == state && a == action) ==> #[trigger] final(self).contains(s, a) == old(
                    self,
                ).contains(s, a),
    {
        let old_value: Fixed = self.get(state, action);
        let new_value: Fixed = old_value.sat_add(alpha.sat_mul(target.sat_sub(old_value)));
        self.set(state, action, new_value);
    }

    /// Writes `value` for the pair and leaves every other pair as it is.
    pub fn set(&mut self, state: usize, action: usize, value: Fixed)
        ensures
            final(self).entries() == old(self).entries().insert(key_of(state, action), value),
            final(self).contains(state, action),
            final(self).value(state, action) == value,
            forall|s: usize, a: usize|
                !(s == state && a == action) ==> #[trigger] final(self).value(s, a) == old(
                    self,
                ).value(s, a),
            forall|s: usize, a: usize|
                !(s == state && a == action) ==> #[trigger] final(self).contains(s, a) == old(
                    self,
                ).contains(s, a),
    {
        let key: u128 = make_key(state, action);
        self.map.insert(key, value);
        proof {
            assert forall|s: usize, a: usize| !(s == state && a == action) implies (
            #[trigger] self.value(s, a) == old(self).value(s, a)) && (self.contains(s, a) == old(
                self,
            ).contains(s, a)) by {
                if key_of(s, a) == key_of(state, action) {
                    lemma_key_injective(s, a, state, action);
                }
            }
        }
    }
}

} // verus!
