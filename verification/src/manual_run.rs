use vstd::prelude::*;

use crate::algorithms::mc::episode::within;
use crate::algorithms::mc::episode::Visit;
use crate::envs::offered;
use crate::envs::MonteCarloEnvironment;
use crate::error::RlError;
use crate::fixed::Fixed;
use crate::policies::Policy;
use crate::random::RandomSource;
use crate::utils::policy_step;
use crate::utils::step_fails;

verus! {

/// Whether a player may take `choice` where `actions` are available.
pub fn accepts_choice(actions: &Vec<usize>, choice: usize) -> (ok: bool)
    ensures
        ok == offered(actions@, choice),
{
    let mut i: usize = 0;
    while i < actions.len()
        invariant
            i <= actions.len(),
            forall|k: int| 0 <= k < i ==> actions[k] != choice,
        decreases actions.len() - i,
    {
        if actions[i] == choice {
            return true;
        }
        i = i + 1;
    }
    false
}

/// One step of a game played by hand: takes `choice` if it is one of the
/// actions on offer, and reports the reward; `None`, with nothing changed,
/// if it is not.
pub fn run_manual<E: MonteCarloEnvironment>(env: &mut E, choice: usize, rng: &mut RandomSource) -> (res:
    Option<Fixed>)
    requires
        old(env).well_formed(),
        !old(env).game_over(),
    ensures
        final(env).well_formed(),
        final(env).states() == old(env).states(),
        final(env).actions() == old(env).actions(),
        final(env).rewards() == old(env).rewards(),
        res is Some <==> offered(old(env).available(), choice),
        res is None ==> *final(env) == *old(env),
        res is Some ==> choice < old(env).actions() && !old(env).forbidden(choice),
{
    let actions: Vec<usize> = env.available_actions();
    if !accepts_choice(&actions, choice) {
        return None;
    }
    let outcome = env.step(choice, rng);
    Some(outcome.1)
}

/// One episode played by `policy`, cut off after `max_steps` steps: the
/// steps that were made, each of them a choice of the policy.
///
/// Fails with the error of the first step that fails, as [`policy_step`]
/// reports it, and leaves the environment in the state in which that step
/// failed: one in which the policy has no answer, or one in which its answer
/// is no action that the environment allows.
pub fn run_policy<E: MonteCarloEnvironment, P: Policy>(
    env: &mut E,
    policy: &P,
    max_steps: usize,
    rng: &mut RandomSource,
) -> (res: Result<Vec<Visit>, RlError>)
    requires
        old(env).well_formed(),
        policy.well_formed(),
    ensures
        final(env).well_formed(),
        final(env).states() == old(env).states(),
        final(env).actions() == old(env).actions(),
        final(env).rewards() == old(env).rewards(),
        match res {
            Ok(steps) => {
                &&& steps.len() <= max_steps
                &&& within(steps@, old(env).states(), old(env).actions())
                &&& steps.len() < max_steps ==> final(env).game_over()
                &&& forall|i: int|
                    0 <= i < steps.len() ==> policy.answers((#[trigger] steps[i]).state)
                        && policy.may_choose(steps[i].state, steps[i].action)
            },
            Err(e) => {
                &&& max_steps > 0
                &&& !final(env).game_over()
                &&& step_fails(final(env), policy, e)
            },
        },
{
    env.reset(rng);
    let mut steps: Vec<Visit> = Vec::new();
    while steps.len() < max_steps && !env.is_game_over()
        invariant
            env.well_formed(),
            env.states() == old(env).states(),
            env.actions() == old(env).actions(),
            env.rewards() == old(env).rewards(),
            policy.well_formed(),
            steps.len() <= max_steps,
            within(steps@, old(env).states(), old(env).actions()),
            forall|i: int|
                0 <= i < steps.len() ==> policy.answers((#[trigger] steps[i]).state)
                    && policy.may_choose(steps[i].state, steps[i].action),
        decreases max_steps - steps.len(),
    {
        let state: usize = env.state_id();
        match policy_step(env, policy, rng) {
            Ok(out) => {
                steps.push(Visit { state, action: out.0, reward: out.1 });
            },
            Err(e) => {
                return Err(e);
            },
        }
    }
    Ok(steps)
}

} // verus!
