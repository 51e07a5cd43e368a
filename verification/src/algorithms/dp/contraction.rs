use vstd::prelude::*;

use crate::algorithms::dp::model::action_value;
use crate::algorithms::dp::model::backup;
use crate::algorithms::dp::model::best_action;
use crate::algorithms::dp::model::greedy_action;
use crate::algorithms::dp::model::greedy_policy;
use crate::algorithms::dp::model::lemma_best_action;
use crate::algorithms::dp::model::chance;
use crate::algorithms::dp::model::is_terminal;
use crate::algorithms::dp::model::lemma_mass_bounds;
use crate::algorithms::dp::model::mass;
use crate::algorithms::dp::model::max_change;
use crate::algorithms::dp::model::model_valid;
use crate::algorithms::dp::model::outcomes;
use crate::algorithms::dp::model::reported_change;
use crate::algorithms::dp::model::row_is_distribution;
use crate::algorithms::dp::model::weighted;
use crate::algorithms::dp::model::worth;
use crate::algorithms::dp::policy_iteration::evaluation_change;
use crate::algorithms::dp::policy_iteration::evaluation_iterate;
use crate::algorithms::dp::policy_iteration::evaluation_sweep;
use crate::algorithms::dp::policy_iteration::iteration_outcome;
use crate::algorithms::dp::value_iteration::value_iterate;
use crate::algorithms::dp::value_iteration::value_policy;
use crate::envs::DynamicProgramingEnvironment;
use crate::fixed::clamp;
use crate::fixed::distance;
use crate::fixed::Fixed;
use crate::fixed::SCALE;
use crate::policies::lemma_cell_of_index;

verus! {

/// Two numbers that differ by at most `scale * d` have quotients by `scale`,
/// rounded down, that differ by at most `d`.
pub proof fn lemma_quotients_close(x: int, y: int, scale: int, d: int)
    requires
        scale > 0,
        d >= 0,
        distance(x, y) <= scale * d,
    ensures
        distance(x / scale, y / scale) <= d,
{
    let lo = if x <= y {
        x
    } else {
        y
    };
    let hi = if x <= y {
        y
    } else {
        x
    };
    vstd::arithmetic::div_mod::lemma_fundamental_div_mod(lo, scale);
    vstd::arithmetic::div_mod::lemma_mod_bound(lo, scale);
    let q = lo / scale;
    let r = lo % scale;
    assert(lo + scale * d == (q + d) * scale + r) by (nonlinear_arith)
        requires
            lo == scale * q + r,
    ;
    vstd::arithmetic::div_mod::lemma_fundamental_div_mod_converse(lo + scale * d, scale, q + d, r);
    vstd::arithmetic::div_mod::lemma_div_is_ordered(lo, hi, scale);
    vstd::arithmetic::div_mod::lemma_div_is_ordered(hi, lo + scale * d, scale);
}

/// Products with one factor between nothing and `scale` differ by at most
/// `scale` times what the other factors differ by.
pub proof fn lemma_products_close(g: int, a: int, b: int, scale: int, d: int)
    requires
        0 <= g <= scale,
        d >= 0,
        distance(a, b) <= d,
    ensures
        distance(g * a, g * b) <= scale * d,
        distance(g * a, g * b) <= g * d,
{
    assert(distance(g * a, g * b) <= g * d && g * d <= scale * d) by (nonlinear_arith)
        requires
            0 <= g <= scale,
            d >= 0,
            distance(a, b) <= d,
            distance(g * a, g * b) == if g * a >= g * b {
                g * a - g * b
            } else {
                g * b - g * a
            },
            distance(a, b) == if a >= b {
                a - b
            } else {
                b - a
            },
    ;
}

/// Discounting by a factor in the unit interval brings two values no
/// further apart.
pub proof fn lemma_discount_close(gamma: Fixed, a: Fixed, b: Fixed, d: int)
    requires
        gamma.is_unit(),
        d >= 0,
        distance(a.raw as int, b.raw as int) <= d,
    ensures
        distance(gamma.spec_mul(a).raw as int, gamma.spec_mul(b).raw as int) <= d,
{
    lemma_products_close(gamma.raw as int, a.raw as int, b.raw as int, SCALE as int, d);
    lemma_quotients_close(gamma.raw * a.raw, gamma.raw * b.raw, SCALE as int, d);
}

/// No entry of two value functions differs by more than their largest
/// distance.
pub proof fn lemma_max_change_covers(a: Seq<Fixed>, b: Seq<Fixed>, k: int, i: int)
    requires
        0 <= i < k,
    ensures
        distance(a[i].raw as int, b[i].raw as int) <= max_change(a, b, k),
        0 <= max_change(a, b, k),
    decreases k,
{
    if i < k - 1 {
        lemma_max_change_covers(a, b, k - 1, i);
    } else {
        lemma_max_change_floor(a, b, k - 1);
    }
}

/// The largest distance is not negative.
pub proof fn lemma_max_change_floor(a: Seq<Fixed>, b: Seq<Fixed>, k: int)
    ensures
        0 <= max_change(a, b, k),
    decreases k,
{
    if k > 0 {
        lemma_max_change_floor(a, b, k - 1);
    }
}

/// Where no entry of two value functions differs by more than `d`, neither
/// does their largest distance.
pub proof fn lemma_max_change_within(a: Seq<Fixed>, b: Seq<Fixed>, k: int, d: int)
    requires
        d >= 0,
        forall|i: int| 0 <= i < k ==> distance((#[trigger] a[i]).raw as int, b[i].raw as int) <= d,
    ensures
        max_change(a, b, k) <= d,
    decreases k,
{
    if k > 0 {
        lemma_max_change_within(a, b, k - 1, d);
        assert(distance(a[k - 1].raw as int, b[k - 1].raw as int) <= d);
    }
}

/// What an outcome is worth under two value functions differs by no more
/// than the value functions do.
pub proof fn lemma_worth_close<E: DynamicProgramingEnvironment>(
    env: &E,
    v1: Seq<Fixed>,
    v2: Seq<Fixed>,
    gamma: Fixed,
    k: int,
)
    requires
        gamma.is_unit(),
        v1.len() == env.states(),
        v2.len() == env.states(),
        0 <= k < outcomes(env),
    ensures
        distance(worth(env, v1, gamma, k).raw as int, worth(env, v2, gamma, k).raw as int)
            <= max_change(v1, v2, env.states() as int),
{
    let n = env.states() as int;
    let m = env.rewards() as int;
    lemma_cell_of_index(k, n, m);
    let sp = k / m;
    lemma_max_change_covers(v1, v2, n, sp);
    lemma_discount_close(gamma, v1[sp], v2[sp], max_change(v1, v2, n));
}

/// The weighted sums of the first `k` outcomes under two value functions
/// differ by no more than the probability of those outcomes times what the
/// value functions differ by.
pub proof fn lemma_weighted_close<E: DynamicProgramingEnvironment>(
    env: &E,
    v1: Seq<Fixed>,
    v2: Seq<Fixed>,
    gamma: Fixed,
    state: int,
    action: int,
    k: int,
)
    requires
        gamma.is_unit(),
        v1.len() == env.states(),
        v2.len() == env.states(),
        0 <= k <= outcomes(env),
        row_is_distribution(env, state, action),
    ensures
        distance(
            weighted(env, v1, gamma, state, action, k),
            weighted(env, v2, gamma, state, action, k),
        ) <= mass(env, state, action, k) * max_change(v1, v2, env.states() as int),
    decreases k,
{
    let d = max_change(v1, v2, env.states() as int);
    lemma_max_change_floor(v1, v2, env.states() as int);
    if k > 0 {
        lemma_weighted_close(env, v1, v2, gamma, state, action, k - 1);
        lemma_worth_close(env, v1, v2, gamma, k - 1);
        let p = chance(env, state, action, k - 1).raw as int;
        assert(p >= 0);
        let t1 = worth(env, v1, gamma, k - 1).raw as int;
        let t2 = worth(env, v2, gamma, k - 1).raw as int;
        lemma_mass_bounds(env, state, action, k - 1, k);
        lemma_mass_bounds(env, state, action, k, outcomes(env));
        lemma_products_close(p, t1, t2, SCALE as int, d);
        let before = mass(env, state, action, k - 1);
        assert((before + p) * d == before * d + p * d) by (nonlinear_arith);
    } else {
        assert(0 * d == 0);
    }
}

/// The expected worth of an action under two value functions differs by no
/// more than the value functions do.
pub proof fn lemma_backup_close<E: DynamicProgramingEnvironment>(
    env: &E,
    v1: Seq<Fixed>,
    v2: Seq<Fixed>,
    gamma: Fixed,
    state: int,
    action: int,
)
    requires
        gamma.is_unit(),
        v1.len() == env.states(),
        v2.len() == env.states(),
        row_is_distribution(env, state, action),
    ensures
        distance(
            backup(env, v1, gamma, state, action).raw as int,
            backup(env, v2, gamma, state, action).raw as int,
        ) <= max_change(v1, v2, env.states() as int),
{
    let d = max_change(v1, v2, env.states() as int);
    lemma_max_change_floor(v1, v2, env.states() as int);
    assert(outcomes(env) >= 0) by (nonlinear_arith)
        requires
            outcomes(env) == env.states() * env.rewards(),
    ;
    lemma_weighted_close(env, v1, v2, gamma, state, action, outcomes(env));
    lemma_quotients_close(
        weighted(env, v1, gamma, state, action, outcomes(env)),
        weighted(env, v2, gamma, state, action, outcomes(env)),
        SCALE as int,
        d,
    );
}

/// A sweep of policy evaluation brings two value functions no further
/// apart: on a valid model and with a discount in the unit interval,
/// `max |T(V1) - T(V2)| <= max |V1 - V2|`.
pub proof fn lemma_sweep_nonexpansive<E: DynamicProgramingEnvironment>(
    env: &E,
    policy: Seq<usize>,
    gamma: Fixed,
    v1: Seq<Fixed>,
    v2: Seq<Fixed>,
)
    requires
        model_valid(env),
        gamma.is_unit(),
        policy.len() == env.states(),
        forall|s: int| 0 <= s < policy.len() ==> (#[trigger] policy[s]) < env.actions(),
        v1.len() == env.states(),
        v2.len() == env.states(),
    ensures
        max_change(
            evaluation_sweep(env, policy, gamma, v1),
            evaluation_sweep(env, policy, gamma, v2),
            env.states() as int,
        ) <= max_change(v1, v2, env.states() as int),
{
    let n = env.states() as int;
    let d = max_change(v1, v2, n);
    lemma_max_change_floor(v1, v2, n);
    let w1 = evaluation_sweep(env, policy, gamma, v1);
    let w2 = evaluation_sweep(env, policy, gamma, v2);
    assert forall|s: int| 0 <= s < n implies distance(
        (#[trigger] w1[s]).raw as int,
        w2[s].raw as int,
    ) <= d by {
        let a = policy[s] as int;
        if !is_terminal(env, s) {
            assert(row_is_distribution(env, s, a));
            lemma_backup_close(env, v1, v2, gamma, s, a);
        }
    }
    lemma_max_change_within(w1, w2, n, d);
}

/// Once a sweep of policy evaluation has changed every value by less than
/// `theta`, so does the sweep after it: evaluating again from values that
/// have converged leaves them converged.
pub proof fn lemma_converged_stays_converged<E: DynamicProgramingEnvironment>(
    env: &E,
    policy: Seq<usize>,
    gamma: Fixed,
    theta: Fixed,
    k: nat,
)
    requires
        model_valid(env),
        gamma.is_unit(),
        policy.len() == env.states(),
        forall|s: int| 0 <= s < policy.len() ==> (#[trigger] policy[s]) < env.actions(),
        k >= 1,
        evaluation_change(env, policy, gamma, k).raw < theta.raw,
    ensures
        evaluation_change(env, policy, gamma, k + 1).raw < theta.raw,
        evaluation_change(env, policy, gamma, k + 1).raw <= evaluation_change(
            env,
            policy,
            gamma,
            k,
        ).raw,
{
    let before = evaluation_iterate(env, policy, gamma, (k - 1) as nat);
    let now = evaluation_iterate(env, policy, gamma, k);
    let after = evaluation_iterate(env, policy, gamma, k + 1);
    lemma_iterate_len(env, policy, gamma, (k - 1) as nat);
    lemma_iterate_len(env, policy, gamma, k);
    lemma_iterate_len(env, policy, gamma, k + 1);
    assert(now == evaluation_sweep(env, policy, gamma, before));
    assert(after == evaluation_sweep(env, policy, gamma, now));
    lemma_sweep_nonexpansive(env, policy, gamma, before, now);
}

/// The value of an action under two value functions differs by no more than
/// the value functions do.
pub proof fn lemma_action_value_close<E: DynamicProgramingEnvironment>(
    env: &E,
    v: Seq<Fixed>,
    w: Seq<Fixed>,
    gamma: Fixed,
    state: int,
    action: int,
)
    requires
        model_valid(env),
        gamma.is_unit(),
        v.len() == env.states(),
        w.len() == env.states(),
        0 <= state < env.states(),
        0 <= action < env.actions(),
    ensures
        distance(
            action_value(env, v, gamma, state, action).raw as int,
            action_value(env, w, gamma, state, action).raw as int,
        ) <= max_change(v, w, env.states() as int),
{
    lemma_max_change_floor(v, w, env.states() as int);
    if !is_terminal(env, state) {
        assert(row_is_distribution(env, state, action));
        lemma_backup_close(env, v, w, gamma, state, action);
    }
}

/// An action that is worth more than every other of the first `k` actions
/// is the best of them.
pub proof fn lemma_best_is<E: DynamicProgramingEnvironment>(
    env: &E,
    values: Seq<Fixed>,
    gamma: Fixed,
    state: int,
    k: int,
    best: int,
)
    requires
        0 <= best < k,
        forall|a: int|
            0 <= a < k && a != best ==> (#[trigger] action_value(env, values, gamma, state, a)).raw
                < action_value(env, values, gamma, state, best).raw,
    ensures
        best_action(env, values, gamma, state, k) == best,
    decreases k,
{
    if k > 1 {
        if best == k - 1 {
            lemma_best_action(env, values, gamma, state, k - 1);
            let b = best_action(env, values, gamma, state, k - 1);
            assert(action_value(env, values, gamma, state, b).raw < action_value(
                env,
                values,
                gamma,
                state,
                best,
            ).raw);
        } else {
            lemma_best_is(env, values, gamma, state, k - 1, best);
            assert(action_value(env, values, gamma, state, k - 1).raw < action_value(
                env,
                values,
                gamma,
                state,
                best,
            ).raw);
        }
    }
}

/// In a terminal state, where every action is worth nothing, the first
/// action is the best.
pub proof fn lemma_best_in_terminal<E: DynamicProgramingEnvironment>(
    env: &E,
    values: Seq<Fixed>,
    gamma: Fixed,
    state: int,
    k: int,
)
    requires
        is_terminal(env, state),
    ensures
        best_action(env, values, gamma, state, k) == 0,
    decreases k,
{
    if k > 1 {
        lemma_best_in_terminal(env, values, gamma, state, k - 1);
    }
}

/// Whether, under `values`, the greedy action of every state that is not
/// terminal is worth more than every other action by more than twice `d`.
pub open spec fn separated<E: DynamicProgramingEnvironment>(
    env: &E,
    values: Seq<Fixed>,
    gamma: Fixed,
    d: int,
) -> bool {
    forall|s: int, a: int|
        0 <= s < env.states() && 0 <= a < env.actions() && !is_terminal(env, s) && a
            != greedy_action(env, values, gamma, s) ==> (#[trigger] action_value(
            env,
            values,
            gamma,
            s,
            a,
        )).raw + 2 * d < action_value(env, values, gamma, s, greedy_action(env, values, gamma, s)).raw
}

/// Value functions that are close enough have the same greedy policy: where
/// `v` separates its greedy actions by more than twice `d` and `w` differs
/// from `v` by no more than `d`, the policy that is greedy for `w` is the
/// one that is greedy for `v`.
pub proof fn lemma_greedy_agrees<E: DynamicProgramingEnvironment>(
    env: &E,
    v: Seq<Fixed>,
    w: Seq<Fixed>,
    gamma: Fixed,
    d: int,
)
    requires
        model_valid(env),
        gamma.is_unit(),
        v.len() == env.states(),
        w.len() == env.states(),
        max_change(v, w, env.states() as int) <= d,
        separated(env, v, gamma, d),
    ensures
        greedy_policy(env, w, gamma) == greedy_policy(env, v, gamma),
{
    let n = env.states() as int;
    let m = env.actions() as int;
    assert forall|s: int| 0 <= s < n implies greedy_action(env, w, gamma, s) == greedy_action(
        env,
        v,
        gamma,
        s,
    ) by {
        if is_terminal(env, s) {
            lemma_best_in_terminal(env, v, gamma, s, m);
            lemma_best_in_terminal(env, w, gamma, s, m);
        } else {
            lemma_best_action(env, v, gamma, s, m);
            let best = greedy_action(env, v, gamma, s);
            lemma_action_value_close(env, v, w, gamma, s, best);
            assert forall|a: int| 0 <= a < m && a != best implies (#[trigger] action_value(
                env,
                w,
                gamma,
                s,
                a,
            )).raw < action_value(env, w, gamma, s, best).raw by {
                lemma_action_value_close(env, v, w, gamma, s, a);
                assert(action_value(env, v, gamma, s, a).raw + 2 * d < action_value(
                    env,
                    v,
                    gamma,
                    s,
                    best,
                ).raw);
            }
            lemma_best_is(env, w, gamma, s, m, best);
        }
    }
    assert(greedy_policy(env, w, gamma) =~= greedy_policy(env, v, gamma));
}

/// Value iteration and policy iteration return the same policy where their
/// values are close and the best action stands out: if policy iteration
/// ended stable with the values `values`, these separate their greedy
/// actions by more than twice `d`, and the values from which the last sweep
/// of value iteration started differ from them by no more than `d`, then the
/// two policies agree in every state.
pub proof fn lemma_solvers_agree<E: DynamicProgramingEnvironment>(
    env: &E,
    initial: Seq<usize>,
    gamma: Fixed,
    theta: Fixed,
    cap: nat,
    policy: Seq<usize>,
    values: Seq<Fixed>,
    rounds: nat,
    sweeps: nat,
    d: int,
)
    requires
        model_valid(env),
        gamma.is_unit(),
        iteration_outcome(env, initial, gamma, theta, cap, policy, values, rounds, true),
        sweeps >= 1,
        values.len() == env.states(),
        max_change(values, value_iterate(env, gamma, (sweeps - 1) as nat), env.states() as int)
            <= d,
        separated(env, values, gamma, d),
    ensures
        value_policy(env, gamma, sweeps) == policy,
{
    let w = value_iterate(env, gamma, (sweeps - 1) as nat);
    assert(w.len() == env.states());
    lemma_greedy_agrees(env, values, w, gamma, d);
}

/// Every iterate of policy evaluation has one value per state.
pub proof fn lemma_iterate_len<E: DynamicProgramingEnvironment>(
    env: &E,
    policy: Seq<usize>,
    gamma: Fixed,
    k: nat,
)
    ensures
        evaluation_iterate(env, policy, gamma, k).len() == env.states(),
{
}

} // verus!
