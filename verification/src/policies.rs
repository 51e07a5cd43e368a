use vstd::prelude::*;

use crate::envs::Environment;
use crate::error::RlError;
use crate::fixed::Fixed;
use crate::fixed::SCALE;
use crate::random::RandomSource;

verus! {

/// How far, in raw units, the probabilities of a row may sum from one and
/// still be sampled.
pub const SUM_TOLERANCE: i64 = 1;

/// Something that chooses an action in a state.
pub trait Policy {
    /// What every method keeps true of the policy. A policy that says
    /// nothing of itself is taken at its word.
    open spec fn well_formed(&self) -> bool {
        true
    }

    /// Number of actions the policy chooses among.
    open spec fn action_count(&self) -> nat {
        arbitrary()
    }

    /// Whether the policy has an answer in `state`.
    open spec fn answers(&self, state: usize) -> bool {
        arbitrary()
    }

    /// The error with which the policy refuses a state it has no answer in.
    open spec fn refusal(&self, state: usize) -> RlError {
        arbitrary()
    }

    /// Whether the policy can choose `action` in `state`.
    open spec fn may_choose(&self, state: usize, action: usize) -> bool {
        arbitrary()
    }

    /// The action chosen in `state`, drawn from `rng` where the policy leaves
    /// a choice.
    fn get_action(&self, state: &usize, rng: &mut RandomSource) -> (res: Result<usize, RlError>)
        requires
            self.well_formed(),
        ensures
            match res {
                Ok(a) => self.answers(*state) && a < self.action_count() && self.may_choose(
                    *state,
                    a,
                ),
                Err(e) => !self.answers(*state) && e == self.refusal(*state),
            },
    ;
}

/// One action per state.
#[derive(Debug)]
pub struct DeterministicPolicy {
    policy_table: Vec<usize>,
    num_states: usize,
    num_actions: usize,
}

impl View for DeterministicPolicy {
    type V = Seq<usize>;

    /// The action of each state.
    closed spec fn view(&self) -> Seq<usize> {
        self.policy_table@
    }
}

impl DeterministicPolicy {
    pub closed spec fn state_count(&self) -> nat {
        self.num_states as nat
    }

    pub closed spec fn action_count(&self) -> nat {
        self.num_actions as nat
    }

    /// One entry per state, each of them an action.
    pub open spec fn wf(&self) -> bool {
        &&& self@.len() == self.state_count()
        &&& forall|s: int| 0 <= s < self@.len() ==> (#[trigger] self@[s]) < self.action_count()
    }

    /// The policy that takes `action` in every one of `num_states` states.
    pub fn filled(num_states: usize, num_actions: usize, action: usize) -> (policy: Self)
        requires
            action < num_actions,
        ensures
            policy.wf(),
            policy.state_count() == num_states,
            policy.action_count() == num_actions,
            forall|s: int| 0 <= s < num_states ==> (#[trigger] policy@[s]) == action,
    {
        DeterministicPolicy { policy_table: vec![action; num_states], num_states, num_actions }
    }

    /// A policy for `env` that takes one action, drawn at random, in every
    /// state.
    pub fn new_det_pol<E: Environment>(env: &E, rng: &mut RandomSource) -> (policy: Self)
        requires
            env.actions() > 0,
        ensures
            policy.wf(),
            policy.state_count() == env.states(),
            policy.action_count() == env.actions(),
            forall|s: int, t: int|
                0 <= s < env.states() && 0 <= t < env.states() ==> policy@[s] == policy@[t],
    {
        let num_actions: usize = env.num_actions();
        let action: usize = rng.below(num_actions);
        Self::filled(env.num_states(), num_actions, action)
    }

    /// The policy for `env` with the given table, or `IndexOutOfRange` when
    /// the table has not one entry per state or holds something that is not
    /// an action.
    pub fn from_vec<E: Environment>(env: &E, policy_table: Vec<usize>) -> (res: Result<
        Self,
        RlError,
    >)
        ensures
            match res {
                Ok(policy) => {
                    &&& policy.wf()
                    &&& policy.state_count() == env.states()
                    &&& policy.action_count() == env.actions()
                    &&& policy@ == policy_table@
                },
                Err(e) => {
                    &&& e == RlError::IndexOutOfRange
                    &&& !Self::table_fits(policy_table@, env.states(), env.actions())
                },
            },
    {
        Self::from_parts(env.num_states(), env.num_actions(), policy_table)
    }

    /// Whether `table` holds one action per state.
    pub open spec fn table_fits(table: Seq<usize>, states: nat, actions: nat) -> bool {
        &&& table.len() == states
        &&& forall|s: int| 0 <= s < table.len() ==> (#[trigger] table[s]) < actions
    }

    /// The policy with the given sizes and table: the way back from
    /// [`DeterministicPolicy::into_parts`]. Fails with `IndexOutOfRange`
    /// when the table has not one entry per state or holds something that is
    /// not an action.
    pub fn from_parts(num_states: usize, num_actions: usize, policy_table: Vec<usize>) -> (res:
        Result<Self, RlError>)
        ensures
            match res {
                Ok(policy) => {
                    &&& policy.wf()
                    &&& policy.state_count() == num_states
                    &&& policy.action_count() == num_actions
                    &&& policy@ == policy_table@
                },
                Err(e) => {
                    &&& e == RlError::IndexOutOfRange
                    &&& !Self::table_fits(policy_table@, num_states as nat, num_actions as nat)
                },
            },
    {
        if policy_table.len() != num_states {
            return Err(RlError::IndexOutOfRange);
        }
        let mut s: usize = 0;
        while s < policy_table.len()
            invariant
                s <= policy_table.len(),
                forall|k: int| 0 <= k < s ==> (#[trigger] policy_table[k]) < num_actions,
            decreases policy_table.len() - s,
        {
            if policy_table[s] >= num_actions {
                return Err(RlError::IndexOutOfRange);
            }
            s = s + 1;
        }
        Ok(DeterministicPolicy { policy_table, num_states, num_actions })
    }

    /// The policy with the given sizes and table, where the table is known
    /// to hold one action per state.
    pub fn from_table(num_states: usize, num_actions: usize, policy_table: Vec<usize>) -> (policy:
        Self)
        requires
            Self::table_fits(policy_table@, num_states as nat, num_actions as nat),
        ensures
            policy.wf(),
            policy.state_count() == num_states,
            policy.action_count() == num_actions,
            policy@ == policy_table@,
    {
        DeterministicPolicy { policy_table, num_states, num_actions }
    }

    /// The sizes and the table, as plain values that can be stored and
    /// handed to [`DeterministicPolicy::from_parts`] later.
    pub fn into_parts(self) -> (parts: (usize, usize, Vec<usize>))
        ensures
            parts.0 == self.state_count(),
            parts.1 == self.action_count(),
            parts.2@ == self@,
    {
        (self.num_states, self.num_actions, self.policy_table)
    }

    /// Saving and loading give the policy back: the parts of a policy are
    /// accepted by [`DeterministicPolicy::from_parts`], which returns a
    /// policy with the same sizes and the same action in every state.
    pub proof fn lemma_round_trip(&self)
        requires
            self.wf(),
        ensures
            Self::table_fits(self@, self.state_count(), self.action_count()),
    {
    }

    pub fn num_states(&self) -> (n: usize)
        ensures
            n == self.state_count(),
    {
        self.num_states
    }

    pub fn num_actions(&self) -> (n: usize)
        ensures
            n == self.action_count(),
    {
        self.num_actions
    }

    /// The table itself, one action per state.
    pub fn policy_table(&self) -> (table: &Vec<usize>)
        ensures
            table@ == self@,
    {
        &self.policy_table
    }

    /// Makes `action` the choice in `state`, or fails with
    /// `IndexOutOfRange` and changes nothing.
    pub fn set_action(&mut self, state: &usize, action: usize) -> (res: Result<(), RlError>)
        requires
            old(self).wf(),
        ensures
            final(self).wf(),
            final(self).state_count() == old(self).state_count(),
            final(self).action_count() == old(self).action_count(),
            *state < old(self).state_count() && action < old(self).action_count() ==> res is Ok
                && final(self)@ == old(self)@.update(*state as int, action),
            !(*state < old(self).state_count() && action < old(self).action_count()) ==> res
                == Err::<(), RlError>(RlError::IndexOutOfRange) && final(self)@ == old(self)@,
    {
        if *state >= self.num_states || action >= self.num_actions {
            return Err(RlError::IndexOutOfRange);
        }
        self.policy_table[*state] = action;
        Ok(())
    }

    /// Makes `action` the choice in `state`, where both are known to exist.
    pub fn assign(&mut self, state: usize, action: usize)
        requires
            old(self).wf(),
            state < old(self).state_count(),
            action < old(self).action_count(),
        ensures
            final(self).wf(),
            final(self).state_count() == old(self).state_count(),
            final(self).action_count() == old(self).action_count(),
            final(self)@ == old(self)@.update(state as int, action),
    {
        self.policy_table[state] = action;
    }

    /// The action chosen in `state`, or `IndexOutOfRange` when there is no
    /// such state.
    pub fn get_action(&self, state: &usize) -> (res: Result<usize, RlError>)
        requires
            self.wf(),
        ensures
            *state < self.state_count() ==> res == Ok::<usize, RlError>(self@[*state as int]),
            *state >= self.state_count() ==> res == Err::<usize, RlError>(
                RlError::IndexOutOfRange,
            ),
    {
        if *state >= self.num_states {
            return Err(RlError::IndexOutOfRange);
        }
        Ok(self.policy_table[*state])
    }

    /// The action chosen in a state that is known to exist.
    pub fn action_at(&self, state: usize) -> (action: usize)
        requires
            self.wf(),
            state < self.state_count(),
        ensures
            action == self@[state as int],
            action < self.action_count(),
    {
        self.policy_table[state]
    }
}

impl Policy for DeterministicPolicy {
    open spec fn well_formed(&self) -> bool {
        self.wf()
    }

    open spec fn action_count(&self) -> nat {
        DeterministicPolicy::action_count(self)
    }

    open spec fn answers(&self, state: usize) -> bool {
        state < self.state_count()
    }

    open spec fn refusal(&self, state: usize) -> RlError {
        RlError::IndexOutOfRange
    }

    open spec fn may_choose(&self, state: usize, action: usize) -> bool {
        state < self.state_count() && self@[state as int] == action
    }

    fn get_action(&self, state: &usize, rng: &mut RandomSource) -> (res: Result<usize, RlError>) {
        DeterministicPolicy::get_action(self, state)
    }
}

/// The equal share of one that action `action` of `actions` gets: the shares
/// differ by at most one raw unit and sum to exactly one.
pub open spec fn uniform_share(actions: int, action: int) -> int {
    if action < (SCALE as int) % actions {
        (SCALE as int) / actions + 1
    } else {
        (SCALE as int) / actions
    }
}

/// The sum of the first `k` entries of the row of `table` that starts at
/// `start`.
pub open spec fn row_sum(table: Seq<Fixed>, start: int, k: int) -> int
    decreases k,
{
    if k <= 0 {
        0
    } else {
        row_sum(table, start, k - 1) + table[start + k - 1].raw
    }
}

/// The smaller of two integers.
pub open spec fn smaller(a: int, b: int) -> int {
    if a < b {
        a
    } else {
        b
    }
}

/// The first `k` equal shares sum to `k` times the smaller share plus one
/// raw unit for each larger share among them.
proof fn lemma_uniform_prefix(table: Seq<Fixed>, start: int, actions: int, k: int)
    requires
        actions > 0,
        0 <= k <= actions,
        0 <= start,
        start + actions <= table.len(),
        forall|j: int|
            0 <= j < actions ==> (#[trigger] table[start + j]).raw == uniform_share(actions, j),
    ensures
        row_sum(table, start, k) == k * ((SCALE as int) / actions) + smaller(
            k,
            (SCALE as int) % actions,
        ),
    decreases k,
{
    vstd::arithmetic::div_mod::lemma_mod_bound(SCALE as int, actions);
    if k > 0 {
        lemma_uniform_prefix(table, start, actions, k - 1);
        let j = k - 1;
        let q = (SCALE as int) / actions;
        let r = (SCALE as int) % actions;
        assert(table[start + j].raw == uniform_share(actions, j));
        assert(row_sum(table, start, k) == row_sum(table, start, j) + table[start + j].raw);
        assert(row_sum(table, start, j) == j * q + smaller(j, r));
        assert(j * q + q == k * q) by (nonlinear_arith)
            requires
                j == k - 1,
        ;
    } else {
        assert(0 * ((SCALE as int) / actions) == 0);
    }
}

/// A probability for every action in every state.
#[derive(Debug)]
pub struct ProbabilisticPolicy {
    policy_table: Vec<Fixed>,
    num_states: usize,
    num_actions: usize,
}

impl View for ProbabilisticPolicy {
    type V = Seq<Fixed>;

    /// The table, state by state.
    closed spec fn view(&self) -> Seq<Fixed> {
        self.policy_table@
    }
}

impl ProbabilisticPolicy {
    pub closed spec fn state_count(&self) -> nat {
        self.num_states as nat
    }

    pub closed spec fn action_count(&self) -> nat {
        self.num_actions as nat
    }

    /// One entry per state and action, each of them in the unit interval.
    pub open spec fn wf(&self) -> bool {
        &&& self@.len() == self.state_count() * self.action_count()
        &&& forall|i: int| 0 <= i < self@.len() ==> (#[trigger] self@[i]).is_unit()
    }

    /// The probability of `action` in `state`.
    pub open spec fn probability(&self, state: int, action: int) -> Fixed {
        self@[state * self.action_count() + action]
    }

    /// The sum of the probabilities of the first `k` actions in `state`.
    pub open spec fn prefix_sum(&self, state: int, k: int) -> int {
        row_sum(self@, state * self.action_count(), k)
    }

    /// Whether the probabilities of `state` sum to one within the tolerance.
    pub open spec fn sums_to_one(&self, state: int) -> bool {
        SCALE - SUM_TOLERANCE <= self.prefix_sum(state, self.action_count() as int) <= SCALE
            + SUM_TOLERANCE
    }

    /// The policy for `env` that gives every action the same probability in
    /// every state, up to one raw unit, so that each row sums to exactly one.
    pub fn new_pb_pol<E: Environment>(env: &E) -> (policy: Self)
        requires
            env.states() * env.actions() <= usize::MAX,
        ensures
            policy.wf(),
            policy.state_count() == env.states(),
            policy.action_count() == env.actions(),
            forall|s: int, a: int|
                0 <= s < env.states() && 0 <= a < env.actions() ==> (#[trigger] policy.probability(
                    s,
                    a,
                )).raw == uniform_share(env.actions() as int, a),
            forall|s: int|
                0 <= s < env.states() && env.actions() > 0 ==> #[trigger] policy.prefix_sum(
                    s,
                    env.actions() as int,
                ) == SCALE,
    {
        let n: usize = env.num_states();
        let m: usize = env.num_actions();
        let mut table: Vec<Fixed> = Vec::new();
        let mut s: usize = 0;
        while s < n
            invariant
                s <= n,
                n * m <= usize::MAX,
                table.len() == s * m,
                forall|t: int, a: int|
                    0 <= t < s && 0 <= a < m ==> (#[trigger] table[t * m + a]).raw
                        == uniform_share(m as int, a),
            decreases n - s,
        {
            let mut a: usize = 0;
            while a < m
                invariant
                    s < n,
                    a <= m,
                    n * m <= usize::MAX,
                    table.len() == s * m + a,
                    forall|t: int, b: int|
                        0 <= t < s && 0 <= b < m ==> (#[trigger] table[t * m + b]).raw
                            == uniform_share(m as int, b),
                    forall|b: int|
                        0 <= b < a ==> (#[trigger] table[s * m + b]).raw == uniform_share(
                            m as int,
                            b,
                        ),
                decreases m - a,
            {
                let base: u64 = (SCALE as u64) / (m as u64);
                let share: u64 = if (a as u64) < (SCALE as u64) % (m as u64) {
                    base + 1
                } else {
                    base
                };
                proof {
                    lemma_uniform_share_unit(m as int, a as int);
                }
                proof {
                    assert(s * m + a < n * m) by (nonlinear_arith)
                        requires
                            s < n,
                            a < m,
                    ;
                }
                let ghost before = table@;
                table.push(Fixed { raw: share as i64 });
                proof {
                    assert forall|t: int, b: int| 0 <= t < s && 0 <= b < m implies (
                    #[trigger] table[t * m + b]).raw == uniform_share(m as int, b) by {
                        assert(0 <= t * m + b < s * m) by (nonlinear_arith)
                            requires
                                0 <= t < s,
                                0 <= b < m,
                        ;
                        assert(table[t * m + b] == before[t * m + b]);
                    }
                    assert forall|b: int| 0 <= b < a + 1 implies (#[trigger] table[s * m + b]).raw
                        == uniform_share(m as int, b) by {
                        if b < a {
                            assert(table[s * m + b] == before[s * m + b]);
                        }
                    }
                }
                a = a + 1;
            }
            proof {
                assert(s * m + m == (s + 1) * m) by (nonlinear_arith);
                assert forall|t: int, b: int| 0 <= t < s + 1 && 0 <= b < m implies (
                #[trigger] table[t * m + b]).raw == uniform_share(m as int, b) by {
                    if t < s {
                    } else {
                        assert(t == s);
                    }
                }
            }
            s = s + 1;
        }
        let policy = ProbabilisticPolicy { policy_table: table, num_states: n, num_actions: m };
        proof {
            assert forall|i: int| 0 <= i < policy@.len() implies (#[trigger] policy@[i]).is_unit() by {
                lemma_cell_of_index(i, n as int, m as int);
                let t = i / (m as int);
                let b = i % (m as int);
                assert(policy@[t * m + b].raw == uniform_share(m as int, b));
                lemma_uniform_share_unit(m as int, b);
            }
            assert forall|t: int| 0 <= t < n && m > 0 implies #[trigger] policy.prefix_sum(
                t,
                m as int,
            ) == SCALE by {
                assert forall|j: int| 0 <= j < m implies (#[trigger] policy@[t * m + j]).raw
                    == uniform_share(m as int, j) by {}
                assert(0 <= t * m && t * m + m <= n * m) by (nonlinear_arith)
                    requires
                        0 <= t < n,
                        0 <= m,
                ;
                lemma_uniform_prefix(policy@, t * m, m as int, m as int);
                vstd::arithmetic::div_mod::lemma_fundamental_div_mod(SCALE as int, m as int);
                vstd::arithmetic::div_mod::lemma_mod_bound(SCALE as int, m as int);
            }
        }
        policy
    }

    pub fn num_states(&self) -> (n: usize)
        ensures
            n == self.state_count(),
    {
        self.num_states
    }

    pub fn num_actions(&self) -> (n: usize)
        ensures
            n == self.action_count(),
    {
        self.num_actions
    }

    /// The table itself, state by state.
    pub fn policy_table(&self) -> (table: &Vec<Fixed>)
        ensures
            table@ == self@,
    {
        &self.policy_table
    }

    /// Whether `table` holds one probability per state and action.
    pub open spec fn table_fits(table: Seq<Fixed>, states: nat, actions: nat) -> bool {
        &&& table.len() == states * actions
        &&& forall|i: int| 0 <= i < table.len() ==> (#[trigger] table[i]).is_unit()
    }

    /// The policy with the given sizes and table: the way back from
    /// [`ProbabilisticPolicy::into_parts`]. Fails with `IndexOutOfRange`
    /// when the table has not one entry per state and action, and otherwise
    /// with `InvalidDistribution` when an entry lies outside the unit
    /// interval.
    pub fn from_parts(num_states: usize, num_actions: usize, policy_table: Vec<Fixed>) -> (res:
        Result<Self, RlError>)
        ensures
            match res {
                Ok(policy) => {
                    &&& policy.wf()
                    &&& policy.state_count() == num_states
                    &&& policy.action_count() == num_actions
                    &&& policy@ == policy_table@
                },
                Err(e) => {
                    &&& !Self::table_fits(policy_table@, num_states as nat, num_actions as nat)
                    &&& e == if policy_table.len() != num_states * num_actions {
                        RlError::IndexOutOfRange
                    } else {
                        RlError::InvalidDistribution
                    }
                },
            },
    {
        let fits: bool = match num_states.checked_mul(num_actions) {
            Some(size) => size == policy_table.len(),
            None => false,
        };
        if !fits {
            assert(policy_table.len() != num_states * num_actions);
            assert(policy_table@.len() != (num_states as nat) * (num_actions as nat));
            return Err(RlError::IndexOutOfRange);
        }
        assert(policy_table@.len() == (num_states as nat) * (num_actions as nat));
        let mut i: usize = 0;
        while i < policy_table.len()
            invariant
                i <= policy_table.len(),
                policy_table.len() == num_states * num_actions,
                forall|k: int| 0 <= k < i ==> (#[trigger] policy_table[k]).is_unit(),
            decreases policy_table.len() - i,
        {
            if !policy_table[i].in_unit_interval() {
                assert(!policy_table@[i as int].is_unit());
                return Err(RlError::InvalidDistribution);
            }
            i = i + 1;
        }
        Ok(ProbabilisticPolicy { policy_table, num_states, num_actions })
    }

    /// The sizes and the table, as plain values that can be stored and
    /// handed to [`ProbabilisticPolicy::from_parts`] later.
    pub fn into_parts(self) -> (parts: (usize, usize, Vec<Fixed>))
        ensures
            parts.0 == self.state_count(),
            parts.1 == self.action_count(),
            parts.2@ == self@,
    {
        (self.num_states, self.num_actions, self.policy_table)
    }

    /// Saving and loading give the policy back: the parts of a policy are
    /// accepted by [`ProbabilisticPolicy::from_parts`], which returns a
    /// policy with the same sizes and the same probability for every state
    /// and action.
    pub proof fn lemma_round_trip(&self)
        requires
            self.wf(),
        ensures
            Self::table_fits(self@, self.state_count(), self.action_count()),
    {
    }

    /// Position of a cell in the table.
    fn cell(&self, state: usize, action: usize) -> (i: usize)
        requires
            self.wf(),
            state < self.state_count(),
            action < self.action_count(),
        ensures
            i == state * self.action_count() + action,
            i < self@.len(),
    {
        let len: usize = self.policy_table.len();
        proof {
            assert(len == self.num_states * self.num_actions);
            assert(0 <= state * self.num_actions && state * self.num_actions + action
                < self.num_states * self.num_actions) by (nonlinear_arith)
                requires
                    state < self.num_states,
                    action < self.num_actions,
            ;
        }
        state * self.num_actions + action
    }

    /// The probability of `action` in `state`, or `IndexOutOfRange`.
    pub fn get_probability(&self, state: usize, action: usize) -> (res: Result<Fixed, RlError>)
        requires
            self.wf(),
        ensures
            state < self.state_count() && action < self.action_count() ==> res == Ok::<
                Fixed,
                RlError,
            >(self.probability(state as int, action as int)),
            !(state < self.state_count() && action < self.action_count()) ==> res == Err::<
                Fixed,
                RlError,
            >(RlError::IndexOutOfRange),
    {
        if state >= self.num_states || action >= self.num_actions {
            return Err(RlError::IndexOutOfRange);
        }
        let i: usize = self.cell(state, action);
        Ok(self.policy_table[i])
    }

    /// Sets the probability of `action` in `state`.
    ///
    /// Fails with `IndexOutOfRange` when there is no such state or action,
    /// and otherwise with `InvalidDistribution` when `proba` lies outside
    /// the unit interval; a call that fails changes nothing.
    pub fn set_probability(&mut self, state: usize, action: usize, proba: Fixed) -> (res: Result<
        (),
        RlError,
    >)
        requires
            old(self).wf(),
        ensures
            final(self).wf(),
            final(self).state_count() == old(self).state_count(),
            final(self).action_count() == old(self).action_count(),
            match res {
                Ok(_) => {
                    &&& state < old(self).state_count()
                    &&& action < old(self).action_count()
                    &&& proba.is_unit()
                    &&& final(self)@ == old(self)@.update(
                        state * old(self).action_count() + action,
                        proba,
                    )
                },
                Err(e) => {
                    &&& final(self)@ == old(self)@
                    &&& if !(state < old(self).state_count() && action < old(self).action_count()) {
                        e == RlError::IndexOutOfRange
                    } else {
                        e == RlError::InvalidDistribution && !proba.is_unit()
                    }
                },
            },
    {
        if state >= self.num_states || action >= self.num_actions {
            return Err(RlError::IndexOutOfRange);
        }
        if !proba.in_unit_interval() {
            return Err(RlError::InvalidDistribution);
        }
        let i: usize = self.cell(state, action);
        self.policy_table[i] = proba;
        Ok(())
    }

    /// The sum of the probabilities of `state`.
    fn row_total(&self, state: usize) -> (total: i128)
        requires
            self.wf(),
            state < self.state_count(),
        ensures
            total == self.prefix_sum(state as int, self.action_count() as int),
    {
        let mut total: i128 = 0;
        let mut a: usize = 0;
        while a < self.num_actions
            invariant
                self.wf(),
                state < self.state_count(),
                a <= self.num_actions,
                total == self.prefix_sum(state as int, a as int),
                0 <= total <= a * SCALE,
            decreases self.num_actions - a,
        {
            let i: usize = self.cell(state, a);
            proof {
                assert(self@[i as int].is_unit());
                assert(a * SCALE + SCALE == (a + 1) * SCALE) by (nonlinear_arith);
                assert((a + 1) * SCALE <= 0x1_0000_0000_0000_0000 * 0x4000_0000) by (nonlinear_arith)
                    requires
                        a + 1 <= 0x1_0000_0000_0000_0000,
                        SCALE <= 0x4000_0000,
                ;
            }
            total = total + self.policy_table[i].raw as i128;
            a = a + 1;
        }
        total
    }

    /// Whether the probabilities of `state` sum to one within the tolerance.
    pub fn is_distribution(&self, state: usize) -> (b: bool)
        requires
            self.wf(),
            state < self.state_count(),
        ensures
            b == self.sums_to_one(state as int),
    {
        let total: i128 = self.row_total(state);
        (SCALE - SUM_TOLERANCE) as i128 <= total && total <= (SCALE + SUM_TOLERANCE) as i128
    }

    /// The action that the cumulative distribution of `state` assigns to the
    /// point `draw`: the first action with which the cumulative sum of the
    /// row reaches the draw.
    pub fn pick_action(&self, state: usize, draw: i64) -> (action: usize)
        requires
            self.wf(),
            state < self.state_count(),
            0 < draw <= self.prefix_sum(state as int, self.action_count() as int),
        ensures
            action < self.action_count(),
            self.prefix_sum(state as int, action as int) < draw <= self.prefix_sum(
                state as int,
                action + 1,
            ),
            self.probability(state as int, action as int).raw > 0,
    {
        let mut total: i128 = 0;
        let mut a: usize = 0;
        loop
            invariant
                self.wf(),
                state < self.state_count(),
                a < self.num_actions,
                total == self.prefix_sum(state as int, a as int),
                0 <= total < draw,
                0 < draw <= self.prefix_sum(state as int, self.action_count() as int),
            decreases self.num_actions - a,
        {
            let i: usize = self.cell(state, a);
            proof {
                assert(self@[i as int].is_unit());
            }
            let next: i128 = total + self.policy_table[i].raw as i128;
            if next >= draw as i128 {
                return a;
            }
            total = next;
            a = a + 1;
            proof {
                if a == self.num_actions {
                    assert(false);
                }
            }
        }
    }

    /// An action of `state` drawn according to its probabilities.
    ///
    /// Fails with `IndexOutOfRange` when there is no such state, and
    /// otherwise with `InvalidDistribution` when the probabilities of the
    /// state do not sum to one within the tolerance.
    pub fn sample_action(&self, state: usize, rng: &mut RandomSource) -> (res: Result<
        usize,
        RlError,
    >)
        requires
            self.wf(),
        ensures
            match res {
                Ok(action) => {
                    &&& state < self.state_count()
                    &&& self.sums_to_one(state as int)
                    &&& action < self.action_count()
                    &&& self.probability(state as int, action as int).raw > 0
                },
                Err(e) => {
                    if state >= self.state_count() {
                        e == RlError::IndexOutOfRange
                    } else {
                        e == RlError::InvalidDistribution && !self.sums_to_one(state as int)
                    }
                },
            },
    {
        if state >= self.num_states {
            return Err(RlError::IndexOutOfRange);
        }
        let total: i128 = self.row_total(state);
        if total < (SCALE - SUM_TOLERANCE) as i128 || total > (SCALE + SUM_TOLERANCE) as i128 {
            return Err(RlError::InvalidDistribution);
        }
        let draw: usize = rng.below(total as usize) + 1;
        Ok(self.pick_action(state, draw as i64))
    }
}

/// Every position of a table of `n` rows of `m` cells is a cell of a row.
pub proof fn lemma_cell_of_index(i: int, n: int, m: int)
    requires
        0 <= i < n * m,
        0 <= n,
        0 <= m,
    ensures
        m > 0,
        0 <= i / m < n,
        0 <= i % m < m,
        i == (i / m) * m + i % m,
{
    if m == 0 {
        assert(n * m == 0) by (nonlinear_arith)
            requires
                m == 0,
        ;
    }
    vstd::arithmetic::div_mod::lemma_fundamental_div_mod(i, m);
    vstd::arithmetic::div_mod::lemma_mod_bound(i, m);
    let q = i / m;
    assert(i == m * q + i % m);
    assert(q * m == m * q) by (nonlinear_arith);
    assert(0 <= q < n) by (nonlinear_arith)
        requires
            i == m * q + i % m,
            0 <= i % m < m,
            0 <= i < n * m,
            m > 0,
    ;
}

/// An equal share is a probability.
pub proof fn lemma_uniform_share_unit(actions: int, action: int)
    requires
        actions > 0,
        0 <= action < actions,
    ensures
        0 <= uniform_share(actions, action) <= SCALE,
{
    crate::fixed::lemma_quotient_bounds(SCALE as int, actions);
    vstd::arithmetic::div_mod::lemma_fundamental_div_mod(SCALE as int, actions);
    vstd::arithmetic::div_mod::lemma_mod_bound(SCALE as int, actions);
    let q = (SCALE as int) / actions;
    let r = (SCALE as int) % actions;
    if action < r {
        assert(q + 1 <= SCALE) by (nonlinear_arith)
            requires
                SCALE == actions * q + r,
                r > 0,
                actions >= 1,
                q >= 0,
        ;
    }
}

impl Policy for ProbabilisticPolicy {
    open spec fn well_formed(&self) -> bool {
        self.wf()
    }

    open spec fn action_count(&self) -> nat {
        ProbabilisticPolicy::action_count(self)
    }

    open spec fn answers(&self, state: usize) -> bool {
        state < self.state_count() && self.sums_to_one(state as int)
    }

    open spec fn refusal(&self, state: usize) -> RlError {
        if state >= self.state_count() {
            RlError::IndexOutOfRange
        } else {
            RlError::InvalidDistribution
        }
    }

    open spec fn may_choose(&self, state: usize, action: usize) -> bool {
        self.probability(state as int, action as int).raw > 0
    }

    fn get_action(&self, state: &usize, rng: &mut RandomSource) -> (res: Result<usize, RlError>) {
        self.sample_action(*state, rng)
    }
}

} // verus!
