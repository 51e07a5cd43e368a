use vstd::prelude::*;

use crate::algorithms::dp::model::action_value;
use crate::algorithms::dp::model::check_model;
use crate::algorithms::dp::model::greedy_action;
use crate::algorithms::dp::model::greedy_policy;
use crate::algorithms::dp::model::is_terminal;
use crate::algorithms::dp::model::max_change;
use crate::algorithms::dp::model::model_valid;
use crate::algorithms::dp::model::reported_change;
use crate::algorithms::dp::model::terminal_flags;
use crate::algorithms::dp::model::zero_values;
use crate::algorithms::dp::policy_iteration::fits;
use crate::algorithms::dp::policy_iteration::greedy_in;
use crate::algorithms::dp::policy_iteration::iteration_outcome;
use crate::algorithms::dp::policy_iteration::refusal;
use crate::envs::DynamicProgramingEnvironment;
use crate::error::RlError;
use crate::fixed::Fixed;
use crate::policies::DeterministicPolicy;

verus! {

/// One synchronous sweep of value iteration: every state takes the value of
/// its greedy action, `max over a of sum over s', r of P(s, a, s', r) *
/// (R(r) + gamma * V(s'))`, computed from the old values.
pub open spec fn value_sweep<E: DynamicProgramingEnvironment>(
    env: &E,
    gamma: Fixed,
    values: Seq<Fixed>,
) -> Seq<Fixed> {
    Seq::new(
        env.states(),
        |s: int| action_value(env, values, gamma, s, greedy_action(env, values, gamma, s)),
    )
}

/// The value function after `k` sweeps from zero.
pub open spec fn value_iterate<E: DynamicProgramingEnvironment>(
    env: &E,
    gamma: Fixed,
    k: nat,
) -> Seq<Fixed>
    decreases k,
{
    if k == 0 {
        zero_values(env.states())
    } else {
        value_sweep(env, gamma, value_iterate(env, gamma, (k - 1) as nat))
    }
}

/// The largest change that sweep number `k` makes to a value, `k` counted
/// from one.
pub open spec fn value_change<E: DynamicProgramingEnvironment>(
    env: &E,
    gamma: Fixed,
    k: nat,
) -> Fixed {
    reported_change(value_iterate(env, gamma, (k - 1) as nat), value_iterate(env, gamma, k))
}

/// The number of sweeps after which value iteration stops, given that it has
/// not stopped within the first `done`: the first sweep that changes every
/// value by less than `theta`, or `cap` if there is none up to there.
pub open spec fn value_stop<E: DynamicProgramingEnvironment>(
    env: &E,
    gamma: Fixed,
    theta: Fixed,
    cap: nat,
    done: nat,
) -> nat
    decreases cap - done,
{
    if done >= cap {
        done
    } else if value_change(env, gamma, done + 1).raw < theta.raw {
        done + 1
    } else {
        value_stop(env, gamma, theta, cap, done + 1)
    }
}

/// The number of sweeps that value iteration makes.
pub open spec fn value_sweeps<E: DynamicProgramingEnvironment>(
    env: &E,
    gamma: Fixed,
    theta: Fixed,
    cap: nat,
) -> nat {
    value_stop(env, gamma, theta, cap, 0)
}

/// The change that value iteration reports: that of its last sweep, or the
/// largest number there is when it made none.
pub open spec fn value_delta<E: DynamicProgramingEnvironment>(
    env: &E,
    gamma: Fixed,
    sweeps: nat,
) -> Fixed {
    if sweeps == 0 {
        Fixed { raw: i64::MAX }
    } else {
        value_change(env, gamma, sweeps)
    }
}

/// The policy that value iteration returns after `sweeps` sweeps: the
/// actions that its last sweep found greedy, or the first action everywhere
/// when it made none.
pub open spec fn value_policy<E: DynamicProgramingEnvironment>(
    env: &E,
    gamma: Fixed,
    sweeps: nat,
) -> Seq<usize> {
    if sweeps == 0 {
        Seq::new(env.states(), |s: int| 0usize)
    } else {
        greedy_policy(env, value_iterate(env, gamma, (sweeps - 1) as nat), gamma)
    }
}

/// Value iteration and policy iteration return the same policy wherever
/// they are greedy for the same values: if policy iteration ended stable
/// with the values `values`, and the last sweep of value iteration started
/// from these values, then the two policies agree in every state.
pub proof fn lemma_same_values_same_policy<E: DynamicProgramingEnvironment>(
    env: &E,
    initial: Seq<usize>,
    gamma: Fixed,
    theta: Fixed,
    cap: nat,
    policy: Seq<usize>,
    values: Seq<Fixed>,
    rounds: nat,
    sweeps: nat,
)
    requires
        iteration_outcome(env, initial, gamma, theta, cap, policy, values, rounds, true),
        sweeps >= 1,
        value_iterate(env, gamma, (sweeps - 1) as nat) == values,
    ensures
        value_policy(env, gamma, sweeps) == policy,
{
}

/// One sweep of value iteration, with the greedy actions it found and the
/// largest change it made.
fn value_pass<E: DynamicProgramingEnvironment>(
    env: &E,
    flags: &Vec<bool>,
    gamma: Fixed,
    values: &Vec<Fixed>,
) -> (out: (Vec<Fixed>, Vec<usize>, Fixed))
    requires
        env.well_formed(),
        model_valid(env),
        flags.len() == env.states(),
        forall|s: int| 0 <= s < env.states() ==> (#[trigger] flags[s]) == is_terminal(env, s),
        values.len() == env.states(),
    ensures
        out.0@ == value_sweep(env, gamma, values@),
        out.1@ == greedy_policy(env, values@, gamma),
        DeterministicPolicy::table_fits(out.1@, env.states(), env.actions()),
        out.2 == reported_change(values@, out.0@),
{
    let n: usize = env.num_states();
    let ghost goal = value_sweep(env, gamma, values@);
    let mut next: Vec<Fixed> = Vec::new();
    let mut table: Vec<usize> = Vec::new();
    let mut delta: Fixed = Fixed { raw: 0 };
    let mut s: usize = 0;
    while s < n
        invariant
            env.well_formed(),
            model_valid(env),
            flags.len() == env.states(),
            forall|t: int| 0 <= t < env.states() ==> (#[trigger] flags[t]) == is_terminal(env, t),
            values.len() == env.states(),
            n == env.states(),
            goal == value_sweep(env, gamma, values@),
            s <= n,
            next.len() == s,
            table.len() == s,
            forall|t: int| 0 <= t < s ==> (#[trigger] next[t]) == goal[t],
            forall|t: int|
                0 <= t < s ==> (#[trigger] table[t]) == greedy_action(env, values@, gamma, t)
                    && table[t] < env.actions(),
            delta.raw == crate::fixed::clamp(max_change(values@, goal, s as int)),
        decreases n - s,
    {
        let chosen = greedy_in(env, flags, values, gamma, s);
        let d: Fixed = values[s].abs_diff(chosen.1);
        if d.raw > delta.raw {
            delta = d;
        }
        next.push(chosen.1);
        table.push(chosen.0);
        s = s + 1;
    }
    proof {
        assert(next@ =~= goal);
        assert(table@ =~= greedy_policy(env, values@, gamma));
    }
    (next, table, delta)
}

/// Value iteration: sweeps from zero until one of them changes every value
/// by less than `theta` or `max_iterations` sweeps have been made.
///
/// Returns the policy that the last sweep found greedy, the values, the
/// number of sweeps made and the change of the last one. Running into the
/// cap is no error: the result is then the best found, and the change
/// returned is not below `theta`.
pub fn value_iteration<E: DynamicProgramingEnvironment>(
    env: &E,
    theta: Fixed,
    gamma: Fixed,
    max_iterations: usize,
) -> (res: Result<(DeterministicPolicy, Vec<Fixed>, usize, Fixed), RlError>)
    requires
        env.well_formed(),
    ensures
        match res {
            Ok(out) => {
                &&& refusal(env, true, gamma) is None
                &&& out.0.wf()
                &&& fits(env, &out.0)
                &&& out.2 == value_sweeps(env, gamma, theta, max_iterations as nat)
                &&& out.0@ == value_policy(env, gamma, out.2 as nat)
                &&& out.1@ == value_iterate(env, gamma, out.2 as nat)
                &&& out.3 == value_delta(env, gamma, out.2 as nat)
                &&& out.2 <= max_iterations
                &&& out.3.raw < theta.raw || out.2 == max_iterations
            },
            Err(e) => refusal(env, true, gamma) == Some(e),
        },
{
    if !gamma.in_unit_interval() {
        return Err(RlError::InvalidParameter);
    }
    let flags: Vec<bool> = terminal_flags(env);
    if !check_model(env, &flags) {
        return Err(RlError::InvalidDistribution);
    }
    let n: usize = env.num_states();
    let actions: usize = env.num_actions();
    let mut values: Vec<Fixed> = vec![Fixed { raw: 0 }; n];
    let mut table: Vec<usize> = vec![0usize; n];
    let mut delta: Fixed = Fixed { raw: i64::MAX };
    let mut done: usize = 0;
    proof {
        assert(values@ =~= zero_values(env.states()));
        assert(table@ =~= value_policy(env, gamma, 0));
    }
    while done < max_iterations
        invariant
            env.well_formed(),
            model_valid(env),
            gamma.is_unit(),
            flags.len() == env.states(),
            forall|s: int| 0 <= s < env.states() ==> (#[trigger] flags[s]) == is_terminal(env, s),
            n == env.states(),
            actions == env.actions(),
            done <= max_iterations,
            values@ == value_iterate(env, gamma, done as nat),
            table@ == value_policy(env, gamma, done as nat),
            DeterministicPolicy::table_fits(table@, env.states(), env.actions()),
            delta == value_delta(env, gamma, done as nat),
            value_sweeps(env, gamma, theta, max_iterations as nat) == value_stop(
                env,
                gamma,
                theta,
                max_iterations as nat,
                done as nat,
            ),
        decreases max_iterations - done,
    {
        let pass = value_pass(env, &flags, gamma, &values);
        values = pass.0;
        table = pass.1;
        delta = pass.2;
        done = done + 1;
        if delta.raw < theta.raw {
            return Ok((DeterministicPolicy::from_table(n, actions, table), values, done, delta));
        }
    }
    Ok((DeterministicPolicy::from_table(n, actions, table), values, done, delta))
}

} // verus!
