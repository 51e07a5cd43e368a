use vstd::prelude::*;

use crate::algorithms::dp::contraction::lemma_max_change_covers;
use crate::algorithms::dp::contraction::lemma_max_change_within;
use crate::algorithms::dp::contraction::lemma_solvers_agree;
use crate::algorithms::dp::contraction::lemma_sweep_nonexpansive;
use crate::algorithms::dp::contraction::separated;
use crate::algorithms::dp::contraction::lemma_max_change_floor;
use crate::algorithms::dp::contraction::lemma_quotients_close;
use crate::algorithms::dp::model::action_value;
use crate::algorithms::dp::model::backup;
use crate::algorithms::dp::model::chance;
use crate::algorithms::dp::model::greedy_action;
use crate::algorithms::dp::model::greedy_policy;
use crate::algorithms::dp::model::lemma_best_action;
use crate::algorithms::dp::model::reported_change;
use crate::algorithms::dp::model::is_terminal;
use crate::algorithms::dp::model::lemma_mass_bounds;
use crate::algorithms::dp::model::mass;
use crate::algorithms::dp::model::max_change;
use crate::algorithms::dp::model::model_valid;
use crate::algorithms::dp::model::outcomes;
use crate::algorithms::dp::model::row_is_distribution;
use crate::algorithms::dp::model::weighted;
use crate::algorithms::dp::model::worth;
use crate::algorithms::dp::policy_iteration::evaluated;
use crate::algorithms::dp::policy_iteration::evaluation_change;
use crate::algorithms::dp::policy_iteration::evaluation_delta;
use crate::algorithms::dp::policy_iteration::evaluation_iterate;
use crate::algorithms::dp::policy_iteration::evaluation_sweep;
use crate::algorithms::dp::policy_iteration::evaluation_sweeps;
use crate::algorithms::dp::policy_iteration::improved_policy;
use crate::algorithms::dp::policy_iteration::iteration_outcome;
use crate::algorithms::dp::policy_iteration::last_change;
use crate::algorithms::dp::value_iteration::value_change;
use crate::algorithms::dp::value_iteration::value_delta;
use crate::algorithms::dp::value_iteration::value_iterate;
use crate::algorithms::dp::value_iteration::value_policy;
use crate::algorithms::dp::value_iteration::value_sweep;
use crate::envs::DynamicProgramingEnvironment;
use crate::fixed::distance;
use crate::fixed::Fixed;
use crate::fixed::SCALE;
use crate::policies::lemma_cell_of_index;

verus! {

/// How far apart, at most, a sweep leaves two value functions that were `d`
/// apart: the discounted distance, rounded down, and one raw unit for the
/// rounding.
pub open spec fn shrunk(gamma: Fixed, d: int) -> int {
    (gamma.raw * d) / (SCALE as int) + 1
}

/// The quotient of a sum is at most one more than the sum of the quotients.
pub proof fn lemma_quotient_of_sum(x: int, y: int, scale: int)
    requires
        scale > 0,
    ensures
        (x + y) / scale <= x / scale + y / scale + 1,
{
    vstd::arithmetic::div_mod::lemma_fundamental_div_mod(x, scale);
    vstd::arithmetic::div_mod::lemma_fundamental_div_mod(y, scale);
    vstd::arithmetic::div_mod::lemma_mod_bound(x, scale);
    vstd::arithmetic::div_mod::lemma_mod_bound(y, scale);
    let q = x / scale + y / scale;
    let r = x % scale + y % scale;
    assert(x + y == q * scale + r) by (nonlinear_arith)
        requires
            x == scale * (x / scale) + x % scale,
            y == scale * (y / scale) + y % scale,
            q == x / scale + y / scale,
            r == x % scale + y % scale,
    ;
    if r < scale {
        vstd::arithmetic::div_mod::lemma_fundamental_div_mod_converse(x + y, scale, q, r);
    } else {
        assert(x + y == (q + 1) * scale + (r - scale)) by (nonlinear_arith)
            requires
                x + y == q * scale + r,
        ;
        vstd::arithmetic::div_mod::lemma_fundamental_div_mod_converse(
            x + y,
            scale,
            q + 1,
            r - scale,
        );
    }
}

/// Discounting by a factor in the unit interval brings two values that are
/// `d` apart to within the discounted distance and one raw unit.
pub proof fn lemma_discount_tight(gamma: Fixed, a: Fixed, b: Fixed, d: int)
    requires
        gamma.is_unit(),
        d >= 0,
        distance(a.raw as int, b.raw as int) <= d,
    ensures
        distance(gamma.spec_mul(a).raw as int, gamma.spec_mul(b).raw as int) <= shrunk(gamma, d),
{
    let g = gamma.raw as int;
    let s = SCALE as int;
    let lo = if a.raw <= b.raw {
        a.raw as int
    } else {
        b.raw as int
    };
    let hi = if a.raw <= b.raw {
        b.raw as int
    } else {
        a.raw as int
    };
    assert(g * lo <= g * hi && g * hi <= g * lo + g * d) by (nonlinear_arith)
        requires
            0 <= g,
            lo <= hi,
            hi - lo <= d,
    ;
    vstd::arithmetic::div_mod::lemma_div_is_ordered(g * lo, g * hi, s);
    vstd::arithmetic::div_mod::lemma_div_is_ordered(g * hi, g * lo + g * d, s);
    lemma_quotient_of_sum(g * lo, g * d, s);
    assert(g * a.raw == a.raw * g && g * b.raw == b.raw * g) by (nonlinear_arith);
    assert(gamma.raw * a.raw == g * a.raw);
    assert(gamma.raw * b.raw == g * b.raw);
}

/// What an outcome is worth under two value functions differs by no more
/// than the shrunk distance of the value functions.
pub proof fn lemma_worth_tight<E: DynamicProgramingEnvironment>(
    env: &E,
    v1: Seq<Fixed>,
    v2: Seq<Fixed>,
    gamma: Fixed,
    k: int,
)
    requires
        gamma.is_unit(),
        v1.len() == env.states(),
        v2.len() == env.states(),
        0 <= k < outcomes(env),
    ensures
        distance(worth(env, v1, gamma, k).raw as int, worth(env, v2, gamma, k).raw as int)
            <= shrunk(gamma, max_change(v1, v2, env.states() as int)),
{
    let n = env.states() as int;
    let m = env.rewards() as int;
    lemma_cell_of_index(k, n, m);
    let sp = k / m;
    lemma_max_change_covers(v1, v2, n, sp);
    lemma_discount_tight(gamma, v1[sp], v2[sp], max_change(v1, v2, n));
}

/// The weighted sums of the first `k` outcomes under two value functions
/// differ by no more than the probability of those outcomes times the
/// shrunk distance of the value functions.
pub proof fn lemma_weighted_tight<E: DynamicProgramingEnvironment>(
    env: &E,
    v1: Seq<Fixed>,
    v2: Seq<Fixed>,
    gamma: Fixed,
    state: int,
    action: int,
    k: int,
)
    requires
        gamma.is_unit(),
        v1.len() == env.states(),
        v2.len() == env.states(),
        0 <= k <= outcomes(env),
        row_is_distribution(env, state, action),
    ensures
        distance(
            weighted(env, v1, gamma, state, action, k),
            weighted(env, v2, gamma, state, action, k),
        ) <= mass(env, state, action, k) * shrunk(gamma, max_change(v1, v2, env.states() as int)),
    decreases k,
{
    let e = shrunk(gamma, max_change(v1, v2, env.states() as int));
    if k > 0 {
        lemma_weighted_tight(env, v1, v2, gamma, state, action, k - 1);
        lemma_worth_tight(env, v1, v2, gamma, k - 1);
        let p = chance(env, state, action, k - 1).raw as int;
        assert(p >= 0);
        let t1 = worth(env, v1, gamma, k - 1).raw as int;
        let t2 = worth(env, v2, gamma, k - 1).raw as int;
        assert(distance(p * t1, p * t2) <= p * e) by (nonlinear_arith)
            requires
                p >= 0,
                distance(t1, t2) <= e,
                distance(t1, t2) == if t1 >= t2 {
                    t1 - t2
                } else {
                    t2 - t1
                },
                distance(p * t1, p * t2) == if p * t1 >= p * t2 {
                    p * t1 - p * t2
                } else {
                    p * t2 - p * t1
                },
        ;
        let before = mass(env, state, action, k - 1);
        assert((before + p) * e == before * e + p * e) by (nonlinear_arith);
    } else {
        assert(0 * e == 0);
    }
}

/// The value of an action under two value functions differs by no more than
/// the shrunk distance of the value functions.
pub proof fn lemma_action_value_tight<E: DynamicProgramingEnvironment>(
    env: &E,
    v1: Seq<Fixed>,
    v2: Seq<Fixed>,
    gamma: Fixed,
    state: int,
    action: int,
)
    requires
        model_valid(env),
        gamma.is_unit(),
        v1.len() == env.states(),
        v2.len() == env.states(),
        0 <= state < env.states(),
        0 <= action < env.actions(),
    ensures
        distance(
            action_value(env, v1, gamma, state, action).raw as int,
            action_value(env, v2, gamma, state, action).raw as int,
        ) <= shrunk(gamma, max_change(v1, v2, env.states() as int)),
{
    let d = max_change(v1, v2, env.states() as int);
    let e = shrunk(gamma, d);
    lemma_max_change_floor(v1, v2, env.states() as int);
    assert(e >= 1) by {
        assert(gamma.raw * d >= 0) by (nonlinear_arith)
            requires
                gamma.raw >= 0,
                d >= 0,
        ;
        crate::fixed::lemma_quotient_bounds(gamma.raw * d, SCALE as int);
    }
    if !is_terminal(env, state) {
        assert(row_is_distribution(env, state, action));
        assert(outcomes(env) >= 0) by (nonlinear_arith)
            requires
                outcomes(env) == env.states() * env.rewards(),
        ;
        lemma_weighted_tight(env, v1, v2, gamma, state, action, outcomes(env));
        lemma_quotients_close(
            weighted(env, v1, gamma, state, action, outcomes(env)),
            weighted(env, v2, gamma, state, action, outcomes(env)),
            SCALE as int,
            e,
        );
    }
}

/// The values of the greedy actions of a state under two value functions
/// differ by no more than the shrunk distance of the value functions.
pub proof fn lemma_optimal_tight<E: DynamicProgramingEnvironment>(
    env: &E,
    v1: Seq<Fixed>,
    v2: Seq<Fixed>,
    gamma: Fixed,
    state: int,
)
    requires
        model_valid(env),
        gamma.is_unit(),
        v1.len() == env.states(),
        v2.len() == env.states(),
        0 <= state < env.states(),
    ensures
        distance(
            action_value(env, v1, gamma, state, greedy_action(env, v1, gamma, state)).raw as int,
            action_value(env, v2, gamma, state, greedy_action(env, v2, gamma, state)).raw as int,
        ) <= shrunk(gamma, max_change(v1, v2, env.states() as int)),
{
    let m = env.actions() as int;
    lemma_best_action(env, v1, gamma, state, m);
    lemma_best_action(env, v2, gamma, state, m);
    let g1 = greedy_action(env, v1, gamma, state);
    let g2 = greedy_action(env, v2, gamma, state);
    lemma_action_value_tight(env, v1, v2, gamma, state, g1);
    lemma_action_value_tight(env, v1, v2, gamma, state, g2);
    assert(action_value(env, v1, gamma, state, g2).raw <= action_value(
        env,
        v1,
        gamma,
        state,
        g1,
    ).raw);
    assert(action_value(env, v2, gamma, state, g1).raw <= action_value(
        env,
        v2,
        gamma,
        state,
        g2,
    ).raw);
}

/// A change that is reported below a threshold is below it.
pub proof fn lemma_reported_below(a: Seq<Fixed>, b: Seq<Fixed>, theta: Fixed)
    requires
        reported_change(a, b).raw < theta.raw,
    ensures
        max_change(a, b, a.len() as int) < theta.raw,
{
    lemma_max_change_floor(a, b, a.len() as int);
}

/// Value iteration and policy iteration return the same policy on a model
/// whose best actions stand out: with a discount below one, if policy
/// iteration ended stable and its last evaluation converged, value
/// iteration converged as well, and the values of policy iteration separate
/// their greedy actions by more than twice some `d` with
/// `d * (1 - gamma) >= 2 * theta`, then the two policies agree in every
/// state.
pub proof fn lemma_converged_solvers_agree<E: DynamicProgramingEnvironment>(
    env: &E,
    initial: Seq<usize>,
    gamma: Fixed,
    theta: Fixed,
    cap: nat,
    policy: Seq<usize>,
    values: Seq<Fixed>,
    rounds: nat,
    sweeps: nat,
    d: int,
)
    requires
        model_valid(env),
        env.actions() <= usize::MAX,
        0 <= gamma.raw < SCALE,
        iteration_outcome(env, initial, gamma, theta, cap, policy, values, rounds, true),
        last_change(env, initial, gamma, theta, cap, rounds).raw < theta.raw,
        sweeps >= 1,
        value_delta(env, gamma, sweeps).raw < theta.raw,
        d >= 0,
        d * (SCALE - gamma.raw) >= (2 * theta.raw - 1) * SCALE,
        separated(env, values, gamma, d),
    ensures
        value_policy(env, gamma, sweeps) == policy,
{
    let n = env.states() as int;
    let m = env.actions() as int;
    let before = improved_policy(env, initial, gamma, theta, cap, (rounds - 1) as nat);
    let j = evaluation_sweeps(env, before, gamma, theta, cap);
    assert(policy == before);
    assert(policy == greedy_policy(env, values, gamma));
    assert(values == evaluation_iterate(env, before, gamma, j));
    assert(j >= 1);
    let earlier = evaluation_iterate(env, before, gamma, (j - 1) as nat);
    let next = evaluation_iterate(env, before, gamma, j + 1);
    assert(next == evaluation_sweep(env, before, gamma, values));
    assert(values == evaluation_sweep(env, before, gamma, earlier));
    assert(values.len() == n);
    assert(earlier.len() == n);
    assert forall|s: int| 0 <= s < before.len() implies (#[trigger] before[s]) < env.actions() by {
        lemma_best_action(env, values, gamma, s, m);
    }
    lemma_reported_below(earlier, values, theta);
    lemma_sweep_nonexpansive(env, before, gamma, earlier, values);
    let w = value_iterate(env, gamma, (sweeps - 1) as nat);
    let wn = value_iterate(env, gamma, sweeps);
    assert(wn == value_sweep(env, gamma, w));
    assert(w.len() == n);
    lemma_reported_below(w, wn, theta);
    let big = max_change(values, w, n);
    lemma_max_change_floor(values, w, n);
    let bound = 2 * theta.raw - 2 + shrunk(gamma, big);
    assert(gamma.raw * big >= 0) by (nonlinear_arith)
        requires
            gamma.raw >= 0,
            big >= 0,
    ;
    crate::fixed::lemma_quotient_bounds(gamma.raw * big, SCALE as int);
    lemma_max_change_floor(values, next, n);
    lemma_max_change_floor(w, wn, n);
    assert forall|s: int| 0 <= s < n implies distance(
        (#[trigger] values[s]).raw as int,
        w[s].raw as int,
    ) <= bound by {
        lemma_best_action(env, values, gamma, s, m);
        lemma_max_change_covers(values, next, n, s);
        lemma_max_change_covers(w, wn, n, s);
        lemma_optimal_tight(env, values, w, gamma, s);
        assert(before[s] == greedy_action(env, values, gamma, s));
        assert(next[s] == action_value(
            env,
            values,
            gamma,
            s,
            greedy_action(env, values, gamma, s),
        ));
        assert(wn[s] == action_value(env, w, gamma, s, greedy_action(env, w, gamma, s)));
    }
    lemma_max_change_within(values, w, n, bound);
    let q = (gamma.raw * big) / (SCALE as int);
    assert(q * SCALE <= gamma.raw * big) by {
        vstd::arithmetic::div_mod::lemma_fundamental_div_mod(gamma.raw * big, SCALE as int);
        vstd::arithmetic::div_mod::lemma_mod_bound(gamma.raw * big, SCALE as int);
        assert(q * SCALE == SCALE * q) by (nonlinear_arith);
    }
    assert(big <= d) by (nonlinear_arith)
        requires
            big <= 2 * theta.raw - 1 + q,
            q * SCALE <= gamma.raw * big,
            d * (SCALE - gamma.raw) >= (2 * theta.raw - 1) * SCALE,
            0 <= gamma.raw < SCALE,
            big >= 0,
            d >= 0,
    ;
    lemma_solvers_agree(env, initial, gamma, theta, cap, policy, values, rounds, sweeps, d);
}

} // verus!
