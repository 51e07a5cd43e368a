use vstd::prelude::*;

use crate::envs::addresses;
use crate::envs::DynamicProgramingEnvironment;
use crate::fixed::clamp;
use crate::fixed::distance;
use crate::fixed::floor_div;
use crate::fixed::narrow;
use crate::fixed::Fixed;
use crate::fixed::SCALE;

verus! {

/// Whether `state` is listed as terminal.
pub open spec fn is_terminal<E: DynamicProgramingEnvironment>(env: &E, state: int) -> bool {
    exists|i: int| 0 <= i < env.terminals().len() && #[trigger] env.terminals()[i] == state
}

/// Number of outcomes of a transition: a next state and a reward index.
pub open spec fn outcomes<E: DynamicProgramingEnvironment>(env: &E) -> int {
    (env.states() * env.rewards()) as int
}

/// Probability of the `k`-th outcome of taking `action` in `state`, the
/// outcomes counted by next state and then by reward index.
pub open spec fn chance<E: DynamicProgramingEnvironment>(
    env: &E,
    state: int,
    action: int,
    k: int,
) -> Fixed {
    env.transition(state, action, k / (env.rewards() as int), k % (env.rewards() as int))
}

/// Total probability of the first `k` outcomes of taking `action` in `state`.
pub open spec fn mass<E: DynamicProgramingEnvironment>(
    env: &E,
    state: int,
    action: int,
    k: int,
) -> int
    decreases k,
{
    if k <= 0 {
        0
    } else {
        mass(env, state, action, k - 1) + chance(env, state, action, k - 1).raw
    }
}

/// Whether the outcomes of taking `action` in `state` form a probability
/// distribution: none is negative and together they have probability one.
pub open spec fn row_is_distribution<E: DynamicProgramingEnvironment>(
    env: &E,
    state: int,
    action: int,
) -> bool {
    &&& forall|k: int| 0 <= k < outcomes(env) ==> (#[trigger] chance(env, state, action, k)).raw >= 0
    &&& mass(env, state, action, outcomes(env)) == SCALE
}

/// Whether the model can be solved: there is an action to take, and every
/// action of every state that is not terminal has a distribution over its
/// outcomes.
pub open spec fn model_valid<E: DynamicProgramingEnvironment>(env: &E) -> bool {
    &&& env.actions() > 0
    &&& forall|s: int, a: int|
        0 <= s < env.states() && 0 <= a < env.actions() && !is_terminal(env, s)
            ==> #[trigger] row_is_distribution(env, s, a)
}

/// What the `k`-th outcome is worth: its reward and the discounted value of
/// its next state.
pub open spec fn worth<E: DynamicProgramingEnvironment>(
    env: &E,
    values: Seq<Fixed>,
    gamma: Fixed,
    k: int,
) -> Fixed {
    env.reward(k % (env.rewards() as int)).spec_add(
        gamma.spec_mul(values[k / (env.rewards() as int)]),
    )
}

/// The first `k` outcomes of taking `action` in `state`, each weighted by its
/// probability, in raw units squared.
pub open spec fn weighted<E: DynamicProgramingEnvironment>(
    env: &E,
    values: Seq<Fixed>,
    gamma: Fixed,
    state: int,
    action: int,
    k: int,
) -> int
    decreases k,
{
    if k <= 0 {
        0
    } else {
        weighted(env, values, gamma, state, action, k - 1) + chance(env, state, action, k - 1).raw
            * worth(env, values, gamma, k - 1).raw
    }
}

/// The expected worth of taking `action` in `state`:
/// `sum over s', r of P(s, a, s', r) * (R(r) + gamma * V(s'))`,
/// summed exactly and rounded once.
pub open spec fn backup<E: DynamicProgramingEnvironment>(
    env: &E,
    values: Seq<Fixed>,
    gamma: Fixed,
    state: int,
    action: int,
) -> Fixed {
    Fixed {
        raw: clamp(weighted(env, values, gamma, state, action, outcomes(env)) / (SCALE as int)) as i64,
    }
}

/// The value of taking `action` in `state`: nothing in a terminal state, the
/// expected worth elsewhere.
pub open spec fn action_value<E: DynamicProgramingEnvironment>(
    env: &E,
    values: Seq<Fixed>,
    gamma: Fixed,
    state: int,
    action: int,
) -> Fixed {
    if is_terminal(env, state) {
        Fixed { raw: 0 }
    } else {
        backup(env, values, gamma, state, action)
    }
}

/// The best of the first `k` actions in `state`, the first of them where
/// several are equally good.
pub open spec fn best_action<E: DynamicProgramingEnvironment>(
    env: &E,
    values: Seq<Fixed>,
    gamma: Fixed,
    state: int,
    k: int,
) -> int
    decreases k,
{
    if k <= 1 {
        0
    } else {
        let best = best_action(env, values, gamma, state, k - 1);
        if action_value(env, values, gamma, state, k - 1).raw > action_value(
            env,
            values,
            gamma,
            state,
            best,
        ).raw {
            k - 1
        } else {
            best
        }
    }
}

/// The greedy action in `state`: `argmax over a of Q(s, a)`, ties going to
/// the action that comes first.
pub open spec fn greedy_action<E: DynamicProgramingEnvironment>(
    env: &E,
    values: Seq<Fixed>,
    gamma: Fixed,
    state: int,
) -> int {
    best_action(env, values, gamma, state, env.actions() as int)
}

/// The policy that is greedy in every state.
pub open spec fn greedy_policy<E: DynamicProgramingEnvironment>(
    env: &E,
    values: Seq<Fixed>,
    gamma: Fixed,
) -> Seq<usize> {
    Seq::new(env.states(), |s: int| greedy_action(env, values, gamma, s) as usize)
}

/// The value function that is zero everywhere.
pub open spec fn zero_values(states: nat) -> Seq<Fixed> {
    Seq::new(states, |s: int| Fixed { raw: 0 })
}

/// The largest distance between the first `k` entries of two value
/// functions.
pub open spec fn max_change(a: Seq<Fixed>, b: Seq<Fixed>, k: int) -> int
    decreases k,
{
    if k <= 0 {
        0
    } else {
        let rest = max_change(a, b, k - 1);
        let here = distance(a[k - 1].raw as int, b[k - 1].raw as int);
        if here > rest {
            here
        } else {
            rest
        }
    }
}

/// The change between two value functions as a sweep reports it.
pub open spec fn reported_change(a: Seq<Fixed>, b: Seq<Fixed>) -> Fixed {
    Fixed { raw: clamp(max_change(a, b, a.len() as int)) as i64 }
}

/// The greedy action is an action, no action is worth more, and every
/// action before it is worth less.
pub proof fn lemma_best_action<E: DynamicProgramingEnvironment>(
    env: &E,
    values: Seq<Fixed>,
    gamma: Fixed,
    state: int,
    k: int,
)
    requires
        k >= 1,
    ensures
        0 <= best_action(env, values, gamma, state, k) < k,
        forall|a: int|
            0 <= a < k ==> (#[trigger] action_value(env, values, gamma, state, a)).raw
                <= action_value(
                env,
                values,
                gamma,
                state,
                best_action(env, values, gamma, state, k),
            ).raw,
        forall|a: int|
            0 <= a < best_action(env, values, gamma, state, k) ==> (#[trigger] action_value(
                env,
                values,
                gamma,
                state,
                a,
            )).raw < action_value(
                env,
                values,
                gamma,
                state,
                best_action(env, values, gamma, state, k),
            ).raw,
    decreases k,
{
    if k > 1 {
        lemma_best_action(env, values, gamma, state, k - 1);
    }
}

/// The partial sums of a row of probabilities never fall and stay within
/// one.
pub proof fn lemma_mass_bounds<E: DynamicProgramingEnvironment>(
    env: &E,
    state: int,
    action: int,
    j: int,
    k: int,
)
    requires
        0 <= j <= k <= outcomes(env),
        forall|i: int| 0 <= i < outcomes(env) ==> (#[trigger] chance(env, state, action, i)).raw >= 0,
    ensures
        0 <= mass(env, state, action, j) <= mass(env, state, action, k),
    decreases k,
{
    if k == 0 {
    } else if j == k {
        lemma_mass_bounds(env, state, action, k - 1, k - 1);
        assert(chance(env, state, action, k - 1).raw >= 0);
    } else {
        lemma_mass_bounds(env, state, action, j, k - 1);
        assert(chance(env, state, action, k - 1).raw >= 0);
    }
}

/// The `k`-th outcome is the pair of next state and reward index it was
/// counted from.
pub proof fn lemma_outcome_index(rewards: int, state_prime: int, reward_index: int)
    requires
        0 <= state_prime,
        0 <= reward_index < rewards,
    ensures
        (state_prime * rewards + reward_index) / rewards == state_prime,
        (state_prime * rewards + reward_index) % rewards == reward_index,
        0 <= state_prime * rewards + reward_index,
        state_prime * rewards + rewards == (state_prime + 1) * rewards,
{
    vstd::arithmetic::div_mod::lemma_fundamental_div_mod_converse(
        state_prime * rewards + reward_index,
        rewards,
        state_prime,
        reward_index,
    );
    assert(0 <= state_prime * rewards) by (nonlinear_arith)
        requires
            0 <= state_prime,
            0 <= rewards,
    ;
    assert(state_prime * rewards + rewards == (state_prime + 1) * rewards) by (nonlinear_arith);
}

/// One entry of the model, read where the indices are known to address one.
pub fn chance_of<E: DynamicProgramingEnvironment>(
    env: &E,
    state: usize,
    action: usize,
    state_prime: usize,
    reward_index: usize,
) -> (p: Fixed)
    requires
        env.well_formed(),
        addresses(env, state as int, action as int, state_prime as int, reward_index as int),
    ensures
        p == env.transition(state as int, action as int, state_prime as int, reward_index as int),
{
    match env.get_transition_prob(state, action, state_prime, reward_index) {
        Ok(p) => p,
        Err(_) => vstd::pervasive::unreached(),
    }
}

/// One reward value, read where the index is known to be one.
pub fn reward_of<E: DynamicProgramingEnvironment>(env: &E, i: usize) -> (r: Fixed)
    requires
        env.well_formed(),
        i < env.rewards(),
    ensures
        r == env.reward(i as int),
{
    match env.get_reward(i) {
        Ok(r) => r,
        Err(_) => vstd::pervasive::unreached(),
    }
}

/// For each state, whether it is listed as terminal.
pub fn terminal_flags<E: DynamicProgramingEnvironment>(env: &E) -> (flags: Vec<bool>)
    requires
        env.well_formed(),
    ensures
        flags.len() == env.states(),
        forall|s: int| 0 <= s < env.states() ==> (#[trigger] flags[s]) == is_terminal(env, s),
{
    let n: usize = env.num_states();
    let listed: Vec<usize> = env.get_terminal_states();
    let mut flags: Vec<bool> = vec![false; n];
    let mut i: usize = 0;
    while i < listed.len()
        invariant
            i <= listed.len(),
            listed@ == env.terminals(),
            flags.len() == n,
            n == env.states(),
            forall|s: int|
                0 <= s < n ==> ((#[trigger] flags[s]) <==> exists|j: int|
                    0 <= j < i && #[trigger] listed[j] == s),
        decreases listed.len() - i,
    {
        let t: usize = listed[i];
        if t < n {
            flags[t] = true;
        }
        proof {
            assert forall|s: int| 0 <= s < n implies ((#[trigger] flags[s]) <==> exists|j: int|
                0 <= j < i + 1 && #[trigger] listed[j] == s) by {
                if s == t {
                    assert(listed[i as int] == s);
                } else {
                    if exists|j: int| 0 <= j < i + 1 && #[trigger] listed[j] == s {
                        let j = choose|j: int| 0 <= j < i + 1 && #[trigger] listed[j] == s;
                        assert(j < i);
                    }
                }
            }
        }
        i = i + 1;
    }
    flags
}

/// Whether the outcomes of taking `action` in `state` form a probability
/// distribution.
pub fn check_row<E: DynamicProgramingEnvironment>(env: &E, state: usize, action: usize) -> (ok:
    bool)
    requires
        env.well_formed(),
        state < env.states(),
        action < env.actions(),
    ensures
        ok == row_is_distribution(env, state as int, action as int),
{
    let n: usize = env.num_states();
    let m: usize = env.num_rewards();
    let mut total: i128 = 0;
    let mut sp: usize = 0;
    while sp < n
        invariant
            env.well_formed(),
            state < env.states(),
            action < env.actions(),
            n == env.states(),
            m == env.rewards(),
            sp <= n,
            0 <= sp * m <= outcomes(env),
            total == mass(env, state as int, action as int, sp * m),
            0 <= total <= SCALE,
            forall|k: int|
                0 <= k < sp * m ==> (#[trigger] chance(env, state as int, action as int, k)).raw
                    >= 0,
        decreases n - sp,
    {
        let mut r: usize = 0;
        while r < m
            invariant
                env.well_formed(),
                state < env.states(),
                action < env.actions(),
                n == env.states(),
                m == env.rewards(),
                sp < n,
                r <= m,
                0 <= sp * m + r <= outcomes(env),
                total == mass(env, state as int, action as int, sp * m + r),
                0 <= total <= SCALE,
                forall|k: int|
                    0 <= k < sp * m + r ==> (#[trigger] chance(
                        env,
                        state as int,
                        action as int,
                        k,
                    )).raw >= 0,
            decreases m - r,
        {
            let p: Fixed = chance_of(env, state, action, sp, r);
            let ghost k = sp * m + r;
            proof {
                lemma_outcome_index(m as int, sp as int, r as int);
                assert(chance(env, state as int, action as int, k) == p);
                assert(k < outcomes(env)) by (nonlinear_arith)
                    requires
                        k == sp * m + r,
                        sp < n,
                        r < m,
                        outcomes(env) == n * m,
                ;
            }
            if p.raw < 0 {
                return false;
            }
            total = total + p.raw as i128;
            if total > SCALE as i128 {
                proof {
                    assert(mass(env, state as int, action as int, k + 1) > SCALE);
                    if row_is_distribution(env, state as int, action as int) {
                        lemma_mass_bounds(env, state as int, action as int, k + 1, outcomes(env));
                    }
                }
                return false;
            }
            r = r + 1;
        }
        proof {
            assert(sp * m + m == (sp + 1) * m) by (nonlinear_arith);
            assert((sp + 1) * m <= n * m) by (nonlinear_arith)
                requires
                    sp < n,
                    0 <= m,
            ;
        }
        sp = sp + 1;
    }
    total == SCALE as i128
}

/// Whether the model can be solved.
pub fn check_model<E: DynamicProgramingEnvironment>(env: &E, flags: &Vec<bool>) -> (ok: bool)
    requires
        env.well_formed(),
        flags.len() == env.states(),
        forall|s: int| 0 <= s < env.states() ==> (#[trigger] flags[s]) == is_terminal(env, s),
    ensures
        ok == model_valid(env),
{
    let n: usize = env.num_states();
    let actions: usize = env.num_actions();
    if actions == 0 {
        return false;
    }
    let mut s: usize = 0;
    while s < n
        invariant
            env.well_formed(),
            n == env.states(),
            actions == env.actions(),
            s <= n,
            flags.len() == n,
            forall|t: int| 0 <= t < n ==> (#[trigger] flags[t]) == is_terminal(env, t),
            forall|t: int, a: int|
                0 <= t < s && 0 <= a < actions && !is_terminal(env, t)
                    ==> #[trigger] row_is_distribution(env, t, a),
        decreases n - s,
    {
        if !flags[s] {
            let mut a: usize = 0;
            while a < actions
                invariant
                    env.well_formed(),
                    n == env.states(),
                    actions == env.actions(),
                    s < n,
                    a <= actions,
                    !is_terminal(env, s as int),
                    forall|b: int| 0 <= b < a ==> #[trigger] row_is_distribution(env, s as int, b),
                decreases actions - a,
            {
                if !check_row(env, s, a) {
                    return false;
                }
                a = a + 1;
            }
        }
        s = s + 1;
    }
    true
}

/// The expected worth of taking `action` in `state`.
pub fn backup_value<E: DynamicProgramingEnvironment>(
    env: &E,
    values: &Vec<Fixed>,
    gamma: Fixed,
    state: usize,
    action: usize,
) -> (value: Fixed)
    requires
        env.well_formed(),
        values.len() == env.states(),
        state < env.states(),
        action < env.actions(),
        row_is_distribution(env, state as int, action as int),
    ensures
        value == backup(env, values@, gamma, state as int, action as int),
{
    let n: usize = env.num_states();
    let m: usize = env.num_rewards();
    let mut total: i128 = 0;
    let mut sp: usize = 0;
    let ghost limit: int = 0x8000_0000_0000_0000;
    while sp < n
        invariant
            env.well_formed(),
            values.len() == env.states(),
            state < env.states(),
            action < env.actions(),
            row_is_distribution(env, state as int, action as int),
            n == env.states(),
            m == env.rewards(),
            sp <= n,
            limit == 0x8000_0000_0000_0000,
            0 <= sp * m <= outcomes(env),
            total == weighted(env, values@, gamma, state as int, action as int, sp * m),
            -mass(env, state as int, action as int, sp * m) * limit <= total <= mass(
                env,
                state as int,
                action as int,
                sp * m,
            ) * limit,
        decreases n - sp,
    {
        let next: Fixed = gamma.sat_mul(values[sp]);
        let mut r: usize = 0;
        while r < m
            invariant
                env.well_formed(),
                values.len() == env.states(),
                state < env.states(),
                action < env.actions(),
                row_is_distribution(env, state as int, action as int),
                n == env.states(),
                m == env.rewards(),
                sp < n,
                r <= m,
                limit == 0x8000_0000_0000_0000,
                next == gamma.spec_mul(values@[sp as int]),
                0 <= sp * m + r <= outcomes(env),
                total == weighted(env, values@, gamma, state as int, action as int, sp * m + r),
                -mass(env, state as int, action as int, sp * m + r) * limit <= total <= mass(
                    env,
                    state as int,
                    action as int,
                    sp * m + r,
                ) * limit,
            decreases m - r,
        {
            let p: Fixed = chance_of(env, state, action, sp, r);
            let w: Fixed = reward_of(env, r).sat_add(next);
            let ghost k = sp * m + r;
            proof {
                lemma_outcome_index(m as int, sp as int, r as int);
                assert(chance(env, state as int, action as int, k) == p);
                assert(worth(env, values@, gamma, k) == w);
                assert(k < outcomes(env)) by (nonlinear_arith)
                    requires
                        k == sp * m + r,
                        sp < n,
                        r < m,
                        outcomes(env) == n * m,
                ;
                lemma_mass_bounds(env, state as int, action as int, k, k + 1);
                lemma_mass_bounds(env, state as int, action as int, k + 1, outcomes(env));
                let before = mass(env, state as int, action as int, k);
                let after = mass(env, state as int, action as int, k + 1);
                assert(after == before + p.raw);
                assert(0 <= p.raw <= SCALE);
                assert(-p.raw * limit <= p.raw * w.raw <= p.raw * limit) by (nonlinear_arith)
                    requires
                        0 <= p.raw,
                        -limit <= w.raw <= limit,
                ;
                assert(after * limit == before * limit + p.raw * limit) by (nonlinear_arith)
                    requires
                        after == before + p.raw,
                ;
                assert(after * limit <= SCALE * limit) by (nonlinear_arith)
                    requires
                        0 <= after <= SCALE,
                        limit >= 0,
                ;
                assert(p.raw * limit <= SCALE * limit) by (nonlinear_arith)
                    requires
                        0 <= p.raw <= SCALE,
                        limit >= 0,
                ;
            }
            total = total + (p.raw as i128) * (w.raw as i128);
            r = r + 1;
        }
        proof {
            assert(sp * m + m == (sp + 1) * m) by (nonlinear_arith);
            assert((sp + 1) * m <= n * m) by (nonlinear_arith)
                requires
                    sp < n,
                    0 <= m,
            ;
        }
        sp = sp + 1;
    }
    Fixed { raw: narrow(floor_div(total, SCALE as i128)) }
}

} // verus!
