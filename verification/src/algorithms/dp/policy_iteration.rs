use vstd::prelude::*;

use crate::algorithms::dp::model::action_value;
use crate::algorithms::dp::model::backup_value;
use crate::algorithms::dp::model::best_action;
use crate::algorithms::dp::model::check_model;
use crate::algorithms::dp::model::greedy_action;
use crate::algorithms::dp::model::greedy_policy;
use crate::algorithms::dp::model::is_terminal;
use crate::algorithms::dp::model::lemma_best_action;
use crate::algorithms::dp::model::max_change;
use crate::algorithms::dp::model::model_valid;
use crate::algorithms::dp::model::reported_change;
use crate::algorithms::dp::model::terminal_flags;
use crate::algorithms::dp::model::zero_values;
use crate::envs::DynamicProgramingEnvironment;
use crate::error::RlError;
use crate::fixed::Fixed;
use crate::policies::DeterministicPolicy;
use crate::random::RandomSource;

verus! {

/// One synchronous sweep of policy evaluation: every state that is not
/// terminal takes the expected worth of the action its policy chooses,
/// computed from the old values; terminal states stay at zero.
pub open spec fn evaluation_sweep<E: DynamicProgramingEnvironment>(
    env: &E,
    policy: Seq<usize>,
    gamma: Fixed,
    values: Seq<Fixed>,
) -> Seq<Fixed> {
    Seq::new(env.states(), |s: int| action_value(env, values, gamma, s, policy[s] as int))
}

/// The value function after `k` sweeps from zero.
pub open spec fn evaluation_iterate<E: DynamicProgramingEnvironment>(
    env: &E,
    policy: Seq<usize>,
    gamma: Fixed,
    k: nat,
) -> Seq<Fixed>
    decreases k,
{
    if k == 0 {
        zero_values(env.states())
    } else {
        evaluation_sweep(env, policy, gamma, evaluation_iterate(env, policy, gamma, (k - 1) as nat))
    }
}

/// The largest change that sweep number `k` makes to a value, `k` counted
/// from one.
pub open spec fn evaluation_change<E: DynamicProgramingEnvironment>(
    env: &E,
    policy: Seq<usize>,
    gamma: Fixed,
    k: nat,
) -> Fixed {
    reported_change(
        evaluation_iterate(env, policy, gamma, (k - 1) as nat),
        evaluation_iterate(env, policy, gamma, k),
    )
}

/// The number of sweeps after which evaluation stops, given that it has not
/// stopped within the first `done`: the first sweep that changes every value
/// by less than `theta`, or `cap` if there is none up to there.
pub open spec fn evaluation_stop<E: DynamicProgramingEnvironment>(
    env: &E,
    policy: Seq<usize>,
    gamma: Fixed,
    theta: Fixed,
    cap: nat,
    done: nat,
) -> nat
    decreases cap - done,
{
    if done >= cap {
        done
    } else if evaluation_change(env, policy, gamma, done + 1).raw < theta.raw {
        done + 1
    } else {
        evaluation_stop(env, policy, gamma, theta, cap, done + 1)
    }
}

/// The number of sweeps that evaluation makes.
pub open spec fn evaluation_sweeps<E: DynamicProgramingEnvironment>(
    env: &E,
    policy: Seq<usize>,
    gamma: Fixed,
    theta: Fixed,
    cap: nat,
) -> nat {
    evaluation_stop(env, policy, gamma, theta, cap, 0)
}

/// The value function that evaluation returns.
pub open spec fn evaluated<E: DynamicProgramingEnvironment>(
    env: &E,
    policy: Seq<usize>,
    gamma: Fixed,
    theta: Fixed,
    cap: nat,
) -> Seq<Fixed> {
    evaluation_iterate(env, policy, gamma, evaluation_sweeps(env, policy, gamma, theta, cap))
}

/// The change that evaluation reports: that of its last sweep, or the
/// largest number there is when it made none.
pub open spec fn evaluation_delta<E: DynamicProgramingEnvironment>(
    env: &E,
    policy: Seq<usize>,
    gamma: Fixed,
    sweeps: nat,
) -> Fixed {
    if sweeps == 0 {
        Fixed { raw: i64::MAX }
    } else {
        evaluation_change(env, policy, gamma, sweeps)
    }
}

/// Why a solver refuses its arguments, if it does: a table of the wrong size
/// first, then a discount outside the unit interval, then a model that is
/// not valid.
pub open spec fn refusal<E: DynamicProgramingEnvironment>(
    env: &E,
    sizes_agree: bool,
    gamma: Fixed,
) -> Option<RlError> {
    if !sizes_agree {
        Some(RlError::IndexOutOfRange)
    } else if !gamma.is_unit() {
        Some(RlError::InvalidParameter)
    } else if !model_valid(env) {
        Some(RlError::InvalidDistribution)
    } else {
        None
    }
}

/// Whether `policy` is a policy for `env`.
pub open spec fn fits<E: DynamicProgramingEnvironment>(env: &E, policy: &DeterministicPolicy) -> bool {
    policy.state_count() == env.states() && policy.action_count() == env.actions()
}

/// The value of taking `action` in `state`.
pub(crate) fn state_value<E: DynamicProgramingEnvironment>(
    env: &E,
    flags: &Vec<bool>,
    values: &Vec<Fixed>,
    gamma: Fixed,
    state: usize,
    action: usize,
) -> (value: Fixed)
    requires
        env.well_formed(),
        model_valid(env),
        flags.len() == env.states(),
        forall|s: int| 0 <= s < env.states() ==> (#[trigger] flags[s]) == is_terminal(env, s),
        values.len() == env.states(),
        state < env.states(),
        action < env.actions(),
    ensures
        value == action_value(env, values@, gamma, state as int, action as int),
{
    if flags[state] {
        Fixed { raw: 0 }
    } else {
        backup_value(env, values, gamma, state, action)
    }
}

/// One sweep of policy evaluation, with the largest change it made.
fn evaluation_pass<E: DynamicProgramingEnvironment>(
    env: &E,
    flags: &Vec<bool>,
    policy: &DeterministicPolicy,
    gamma: Fixed,
    values: &Vec<Fixed>,
) -> (out: (Vec<Fixed>, Fixed))
    requires
        env.well_formed(),
        model_valid(env),
        flags.len() == env.states(),
        forall|s: int| 0 <= s < env.states() ==> (#[trigger] flags[s]) == is_terminal(env, s),
        policy.wf(),
        fits(env, policy),
        values.len() == env.states(),
    ensures
        out.0@ == evaluation_sweep(env, policy@, gamma, values@),
        out.1 == reported_change(values@, out.0@),
{
    let n: usize = env.num_states();
    let ghost goal = evaluation_sweep(env, policy@, gamma, values@);
    let mut next: Vec<Fixed> = Vec::new();
    let mut delta: Fixed = Fixed { raw: 0 };
    let mut s: usize = 0;
    while s < n
        invariant
            env.well_formed(),
            model_valid(env),
            flags.len() == env.states(),
            forall|t: int| 0 <= t < env.states() ==> (#[trigger] flags[t]) == is_terminal(env, t),
            policy.wf(),
            fits(env, policy),
            values.len() == env.states(),
            n == env.states(),
            goal == evaluation_sweep(env, policy@, gamma, values@),
            s <= n,
            next.len() == s,
            forall|t: int| 0 <= t < s ==> (#[trigger] next[t]) == goal[t],
            delta.raw == crate::fixed::clamp(max_change(values@, goal, s as int)),
        decreases n - s,
    {
        let a: usize = policy.action_at(s);
        let v: Fixed = state_value(env, flags, values, gamma, s, a);
        let d: Fixed = values[s].abs_diff(v);
        if d.raw > delta.raw {
            delta = d;
        }
        next.push(v);
        s = s + 1;
    }
    proof {
        assert(next@ =~= goal);
    }
    (next, delta)
}

/// Evaluation of a policy on a model that is known to be valid.
fn evaluate<E: DynamicProgramingEnvironment>(
    env: &E,
    flags: &Vec<bool>,
    policy: &DeterministicPolicy,
    theta: Fixed,
    gamma: Fixed,
    max_iterations: usize,
) -> (out: (Vec<Fixed>, usize, Fixed))
    requires
        env.well_formed(),
        model_valid(env),
        flags.len() == env.states(),
        forall|s: int| 0 <= s < env.states() ==> (#[trigger] flags[s]) == is_terminal(env, s),
        policy.wf(),
        fits(env, policy),
    ensures
        out.1 == evaluation_sweeps(env, policy@, gamma, theta, max_iterations as nat),
        out.0@ == evaluated(env, policy@, gamma, theta, max_iterations as nat),
        out.2 == evaluation_delta(env, policy@, gamma, out.1 as nat),
        out.1 <= max_iterations,
        out.2.raw < theta.raw || out.1 == max_iterations,
{
    let n: usize = env.num_states();
    let mut values: Vec<Fixed> = vec![Fixed { raw: 0 }; n];
    let mut delta: Fixed = Fixed { raw: i64::MAX };
    let mut done: usize = 0;
    proof {
        assert(values@ =~= zero_values(env.states()));
    }
    while done < max_iterations
        invariant
            env.well_formed(),
            model_valid(env),
            flags.len() == env.states(),
            forall|s: int| 0 <= s < env.states() ==> (#[trigger] flags[s]) == is_terminal(env, s),
            policy.wf(),
            fits(env, policy),
            n == env.states(),
            done <= max_iterations,
            values@ == evaluation_iterate(env, policy@, gamma, done as nat),
            delta == evaluation_delta(env, policy@, gamma, done as nat),
            evaluation_sweeps(env, policy@, gamma, theta, max_iterations as nat) == evaluation_stop(
                env,
                policy@,
                gamma,
                theta,
                max_iterations as nat,
                done as nat,
            ),
        decreases max_iterations - done,
    {
        let pass = evaluation_pass(env, flags, policy, gamma, &values);
        values = pass.0;
        delta = pass.1;
        done = done + 1;
        if delta.raw < theta.raw {
            return (values, done, delta);
        }
    }
    (values, done, delta)
}

/// Policy evaluation: the value function of `policy`, by sweeps from zero
/// until one of them changes every value by less than `theta` or
/// `max_iterations` sweeps have been made.
///
/// Returns the values, the number of sweeps made and the change of the last
/// one. Running into the cap is no error: the values are then the best
/// found, and the change returned is not below `theta`.
pub fn policy_evaluation<E: DynamicProgramingEnvironment>(
    env: &E,
    policy: &DeterministicPolicy,
    theta: Fixed,
    gamma: Fixed,
    max_iterations: usize,
) -> (res: Result<(Vec<Fixed>, usize, Fixed), RlError>)
    requires
        env.well_formed(),
        policy.wf(),
    ensures
        match res {
            Ok(out) => {
                &&& refusal(env, fits(env, policy), gamma) is None
                &&& out.1 == evaluation_sweeps(env, policy@, gamma, theta, max_iterations as nat)
                &&& out.0@ == evaluation_iterate(env, policy@, gamma, out.1 as nat)
                &&& out.2 == evaluation_delta(env, policy@, gamma, out.1 as nat)
                &&& out.1 <= max_iterations
                &&& out.2.raw < theta.raw || out.1 == max_iterations
            },
            Err(e) => refusal(env, fits(env, policy), gamma) == Some(e),
        },
{
    if policy.num_states() != env.num_states() || policy.num_actions() != env.num_actions() {
        return Err(RlError::IndexOutOfRange);
    }
    if !gamma.in_unit_interval() {
        return Err(RlError::InvalidParameter);
    }
    let flags: Vec<bool> = terminal_flags(env);
    if !check_model(env, &flags) {
        return Err(RlError::InvalidDistribution);
    }
    Ok(evaluate(env, &flags, policy, theta, gamma, max_iterations))
}

/// The greedy action of `state`, with its value.
pub(crate) fn greedy_in<E: DynamicProgramingEnvironment>(
    env: &E,
    flags: &Vec<bool>,
    values: &Vec<Fixed>,
    gamma: Fixed,
    state: usize,
) -> (out: (usize, Fixed))
    requires
        env.well_formed(),
        model_valid(env),
        flags.len() == env.states(),
        forall|s: int| 0 <= s < env.states() ==> (#[trigger] flags[s]) == is_terminal(env, s),
        values.len() == env.states(),
        state < env.states(),
    ensures
        out.0 == greedy_action(env, values@, gamma, state as int),
        out.0 < env.actions(),
        out.1 == action_value(env, values@, gamma, state as int, out.0 as int),
        forall|a: int|
            0 <= a < env.actions() ==> (#[trigger] action_value(
                env,
                values@,
                gamma,
                state as int,
                a,
            )).raw <= out.1.raw,
{
    proof {
        lemma_best_action(env, values@, gamma, state as int, env.actions() as int);
    }
    let actions: usize = env.num_actions();
    let mut best: usize = 0;
    let mut best_value: Fixed = state_value(env, flags, values, gamma, state, 0);
    let mut a: usize = 1;
    while a < actions
        invariant
            env.well_formed(),
            model_valid(env),
            flags.len() == env.states(),
            forall|s: int| 0 <= s < env.states() ==> (#[trigger] flags[s]) == is_terminal(env, s),
            values.len() == env.states(),
            state < env.states(),
            actions == env.actions(),
            1 <= a <= actions,
            best < a,
            best == best_action(env, values@, gamma, state as int, a as int),
            best_value == action_value(env, values@, gamma, state as int, best as int),
        decreases actions - a,
    {
        let value: Fixed = state_value(env, flags, values, gamma, state, a);
        if value.raw > best_value.raw {
            best = a;
            best_value = value;
        }
        a = a + 1;
    }
    (best, best_value)
}

/// Improvement of a policy on a model that is known to be valid.
fn improve<E: DynamicProgramingEnvironment>(
    env: &E,
    flags: &Vec<bool>,
    old_policy: &DeterministicPolicy,
    values: &Vec<Fixed>,
    gamma: Fixed,
) -> (out: (DeterministicPolicy, bool))
    requires
        env.well_formed(),
        model_valid(env),
        flags.len() == env.states(),
        forall|s: int| 0 <= s < env.states() ==> (#[trigger] flags[s]) == is_terminal(env, s),
        old_policy.wf(),
        fits(env, old_policy),
        values.len() == env.states(),
    ensures
        out.0.wf(),
        fits(env, &out.0),
        out.0@ == greedy_policy(env, values@, gamma),
        out.1 == (out.0@ == old_policy@),
{
    let n: usize = env.num_states();
    let mut table: Vec<usize> = Vec::new();
    let mut stable: bool = true;
    let mut s: usize = 0;
    while s < n
        invariant
            env.well_formed(),
            model_valid(env),
            flags.len() == env.states(),
            forall|t: int| 0 <= t < env.states() ==> (#[trigger] flags[t]) == is_terminal(env, t),
            old_policy.wf(),
            fits(env, old_policy),
            values.len() == env.states(),
            n == env.states(),
            s <= n,
            table.len() == s,
            forall|t: int|
                0 <= t < s ==> (#[trigger] table[t]) == greedy_action(env, values@, gamma, t)
                    && table[t] < env.actions(),
            stable == (forall|t: int| 0 <= t < s ==> (#[trigger] table[t]) == old_policy@[t]),
        decreases n - s,
    {
        let chosen = greedy_in(env, flags, values, gamma, s);
        if chosen.0 != old_policy.action_at(s) {
            stable = false;
        }
        let ghost before = table@;
        table.push(chosen.0);
        proof {
            assert(forall|t: int| 0 <= t < s ==> table[t] == before[t]);
            if stable {
                assert forall|t: int| 0 <= t < s + 1 implies (#[trigger] table[t])
                    == old_policy@[t] by {
                    if t < s {
                        assert(before[t] == old_policy@[t]);
                    }
                }
            } else {
                if forall|t: int| 0 <= t < s ==> (#[trigger] before[t]) == old_policy@[t] {
                    assert(table[s as int] != old_policy@[s as int]);
                } else {
                    let t = choose|t: int| 0 <= t < s && (#[trigger] before[t]) != old_policy@[t];
                    assert(table[t] != old_policy@[t]);
                }
            }
        }
        s = s + 1;
    }
    proof {
        assert(table@ =~= greedy_policy(env, values@, gamma));
        if stable {
            assert(table@ =~= old_policy@);
        } else {
            let t = choose|t: int| 0 <= t < n && (#[trigger] table[t]) != old_policy@[t];
            assert(table@[t] != old_policy@[t]);
        }
    }
    (DeterministicPolicy::from_table(n, env.num_actions(), table), stable)
}

/// Policy improvement: the policy that is greedy for `v` in every state,
/// and whether it is the old policy again.
pub fn policy_improvement<E: DynamicProgramingEnvironment>(
    env: &E,
    old_policy: &DeterministicPolicy,
    v: &Vec<Fixed>,
    gamma: Fixed,
) -> (res: Result<(DeterministicPolicy, bool), RlError>)
    requires
        env.well_formed(),
        old_policy.wf(),
    ensures
        match res {
            Ok(out) => {
                &&& refusal(env, fits(env, old_policy) && v.len() == env.states(), gamma) is None
                &&& out.0.wf()
                &&& fits(env, &out.0)
                &&& out.0@ == greedy_policy(env, v@, gamma)
                &&& out.1 == (out.0@ == old_policy@)
            },
            Err(e) => refusal(env, fits(env, old_policy) && v.len() == env.states(), gamma)
                == Some(e),
        },
{
    if old_policy.num_states() != env.num_states() || old_policy.num_actions()
        != env.num_actions() || v.len() != env.num_states() {
        return Err(RlError::IndexOutOfRange);
    }
    if !gamma.in_unit_interval() {
        return Err(RlError::InvalidParameter);
    }
    let flags: Vec<bool> = terminal_flags(env);
    if !check_model(env, &flags) {
        return Err(RlError::InvalidDistribution);
    }
    Ok(improve(env, &flags, old_policy, v, gamma))
}

/// The policy that policy iteration holds after `rounds` rounds of
/// evaluation and improvement.
pub open spec fn improved_policy<E: DynamicProgramingEnvironment>(
    env: &E,
    initial: Seq<usize>,
    gamma: Fixed,
    theta: Fixed,
    cap: nat,
    rounds: nat,
) -> Seq<usize>
    decreases rounds,
{
    if rounds == 0 {
        initial
    } else {
        greedy_policy(
            env,
            evaluated(
                env,
                improved_policy(env, initial, gamma, theta, cap, (rounds - 1) as nat),
                gamma,
                theta,
                cap,
            ),
            gamma,
        )
    }
}

/// Whether round number `round` of policy iteration, counted from one,
/// changes the policy.
pub open spec fn round_changes<E: DynamicProgramingEnvironment>(
    env: &E,
    initial: Seq<usize>,
    gamma: Fixed,
    theta: Fixed,
    cap: nat,
    round: nat,
) -> bool {
    improved_policy(env, initial, gamma, theta, cap, round) != improved_policy(
        env,
        initial,
        gamma,
        theta,
        cap,
        (round - 1) as nat,
    )
}

/// What policy iteration from `initial` returns: the policy after `rounds`
/// rounds and the values its last evaluation found, where `rounds` is the
/// first round that left the policy as it was, or `cap` if none did.
pub open spec fn iteration_outcome<E: DynamicProgramingEnvironment>(
    env: &E,
    initial: Seq<usize>,
    gamma: Fixed,
    theta: Fixed,
    cap: nat,
    policy: Seq<usize>,
    values: Seq<Fixed>,
    rounds: nat,
    stable: bool,
) -> bool {
    &&& rounds <= cap
    &&& policy == improved_policy(env, initial, gamma, theta, cap, rounds)
    &&& values == if rounds == 0 {
        zero_values(env.states())
    } else {
        evaluated(
            env,
            improved_policy(env, initial, gamma, theta, cap, (rounds - 1) as nat),
            gamma,
            theta,
            cap,
        )
    }
    &&& stable == (rounds > 0 && policy == improved_policy(
        env,
        initial,
        gamma,
        theta,
        cap,
        (rounds - 1) as nat,
    ))
    &&& stable || rounds == cap
    &&& forall|j: nat|
        1 <= j < rounds ==> #[trigger] round_changes(env, initial, gamma, theta, cap, j)
}

/// The change that the last evaluation of policy iteration reports after
/// `rounds` rounds: that of the last sweep of the evaluation of the policy
/// before the last improvement, or the largest number there is when no round
/// was made.
pub open spec fn last_change<E: DynamicProgramingEnvironment>(
    env: &E,
    initial: Seq<usize>,
    gamma: Fixed,
    theta: Fixed,
    cap: nat,
    rounds: nat,
) -> Fixed {
    if rounds == 0 {
        Fixed { raw: i64::MAX }
    } else {
        evaluation_delta(
            env,
            improved_policy(env, initial, gamma, theta, cap, (rounds - 1) as nat),
            gamma,
            evaluation_sweeps(
                env,
                improved_policy(env, initial, gamma, theta, cap, (rounds - 1) as nat),
                gamma,
                theta,
                cap,
            ),
        )
    }
}

/// Policy iteration from a given policy: evaluation and improvement in turn
/// until an improvement leaves the policy as it was or `max_iter` rounds
/// have been made. Each evaluation makes at most `max_iter` sweeps.
///
/// Returns the policy, the values of the last evaluation, the number of
/// rounds made, whether the policy is stable, and the change of the last
/// sweep of the last evaluation: that evaluation was cut off by the cap
/// exactly when this change is not below `theta`.
pub fn policy_iteration_from<E: DynamicProgramingEnvironment>(
    env: &E,
    initial: DeterministicPolicy,
    theta: Fixed,
    gamma: Fixed,
    max_iter: usize,
) -> (res: Result<(DeterministicPolicy, Vec<Fixed>, usize, bool, Fixed), RlError>)
    requires
        env.well_formed(),
        initial.wf(),
    ensures
        match res {
            Ok(out) => {
                &&& refusal(env, fits(env, &initial), gamma) is None
                &&& out.0.wf()
                &&& fits(env, &out.0)
                &&& iteration_outcome(
                    env,
                    initial@,
                    gamma,
                    theta,
                    max_iter as nat,
                    out.0@,
                    out.1@,
                    out.2 as nat,
                    out.3,
                )
                &&& out.4 == last_change(env, initial@, gamma, theta, max_iter as nat, out.2 as nat)
            },
            Err(e) => refusal(env, fits(env, &initial), gamma) == Some(e),
        },
{
    if initial.num_states() != env.num_states() || initial.num_actions() != env.num_actions() {
        return Err(RlError::IndexOutOfRange);
    }
    if !gamma.in_unit_interval() {
        return Err(RlError::InvalidParameter);
    }
    let flags: Vec<bool> = terminal_flags(env);
    if !check_model(env, &flags) {
        return Err(RlError::InvalidDistribution);
    }
    let ghost start = initial@;
    let ghost cap = max_iter as nat;
    let mut policy: DeterministicPolicy = initial;
    let mut values: Vec<Fixed> = vec![Fixed { raw: 0 }; env.num_states()];
    let mut rounds: usize = 0;
    let mut change: Fixed = Fixed { raw: i64::MAX };
    proof {
        assert(values@ =~= zero_values(env.states()));
    }
    while rounds < max_iter
        invariant
            env.well_formed(),
            model_valid(env),
            flags.len() == env.states(),
            forall|s: int| 0 <= s < env.states() ==> (#[trigger] flags[s]) == is_terminal(env, s),
            policy.wf(),
            fits(env, &policy),
            cap == max_iter,
            start == initial@,
            refusal(env, fits(env, &initial), gamma) is None,
            rounds <= max_iter,
            change == last_change(env, start, gamma, theta, cap, rounds as nat),
            policy@ == improved_policy(env, start, gamma, theta, cap, rounds as nat),
            values@ == if rounds == 0 {
                zero_values(env.states())
            } else {
                evaluated(
                    env,
                    improved_policy(env, start, gamma, theta, cap, (rounds - 1) as nat),
                    gamma,
                    theta,
                    cap,
                )
            },
            forall|j: nat|
                1 <= j <= rounds ==> #[trigger] round_changes(env, start, gamma, theta, cap, j),
        decreases max_iter - rounds,
    {
        let found = evaluate(env, &flags, &policy, theta, gamma, max_iter);
        let improved = improve(env, &flags, &policy, &found.0, gamma);
        rounds = rounds + 1;
        proof {
            assert(improved.0@ == improved_policy(env, start, gamma, theta, cap, rounds as nat));
        }
        if improved.1 {
            return Ok((improved.0, found.0, rounds, true, found.2));
        }
        proof {
            assert(round_changes(env, start, gamma, theta, cap, rounds as nat));
        }
        policy = improved.0;
        values = found.0;
        change = found.2;
    }
    proof {
        if rounds > 0 {
            assert(round_changes(env, start, gamma, theta, cap, rounds as nat));
        }
    }
    Ok((policy, values, rounds, false, change))
}

/// Whether `policy` takes one and the same of `actions` actions in each of
/// `states` states.
pub open spec fn is_constant(policy: Seq<usize>, states: nat, actions: nat) -> bool {
    &&& policy.len() == states
    &&& forall|s: int| 0 <= s < states ==> (#[trigger] policy[s]) < actions
    &&& forall|s: int, t: int| 0 <= s < states && 0 <= t < states ==> policy[s] == policy[t]
}

/// Policy iteration from a policy that takes one action, drawn from `rng`,
/// in every state: what [`policy_iteration_from`] returns for that policy,
/// the change of the last sweep of its last evaluation included.
pub fn policy_iteration<E: DynamicProgramingEnvironment>(
    env: &E,
    theta: Fixed,
    gamma: Fixed,
    max_iter: usize,
    rng: &mut RandomSource,
) -> (res: Result<(DeterministicPolicy, Vec<Fixed>, usize, bool, Fixed), RlError>)
    requires
        env.well_formed(),
    ensures
        match res {
            Ok(out) => {
                &&& refusal(env, true, gamma) is None
                &&& out.0.wf()
                &&& fits(env, &out.0)
                &&& exists|initial: Seq<usize>|
                    is_constant(initial, env.states(), env.actions()) && #[trigger] iteration_outcome(
                        env,
                        initial,
                        gamma,
                        theta,
                        max_iter as nat,
                        out.0@,
                        out.1@,
                        out.2 as nat,
                        out.3,
                    ) && out.4 == last_change(
                        env,
                        initial,
                        gamma,
                        theta,
                        max_iter as nat,
                        out.2 as nat,
                    )
            },
            Err(e) => refusal(env, true, gamma) == Some(e),
        },
{
    if !gamma.in_unit_interval() {
        return Err(RlError::InvalidParameter);
    }
    if env.num_actions() == 0 {
        return Err(RlError::InvalidDistribution);
    }
    let initial: DeterministicPolicy = DeterministicPolicy::new_det_pol(env, rng);
    let ghost start = initial@;
    policy_iteration_from(env, initial, theta, gamma, max_iter)
}

} // verus!
