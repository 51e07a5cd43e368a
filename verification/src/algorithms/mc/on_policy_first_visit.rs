use vstd::prelude::*;

use crate::algorithms::mc::episode::dense;
use crate::algorithms::mc::episode::earned;
use crate::algorithms::mc::episode::episode_ran;
use crate::algorithms::mc::episode::follows;
use crate::algorithms::mc::episode::visit_link;
use crate::algorithms::mc::episode::visits_walked;
use crate::algorithms::mc::episode::first_visit_chain;
use crate::algorithms::mc::episode::first_visit_earned;
use crate::algorithms::mc::episode::first_visit_pass;
use crate::algorithms::mc::episode::held;
use crate::algorithms::mc::episode::Estimates;
use crate::algorithms::mc::episode::first_visit_update;
use crate::algorithms::mc::episode::greedy_where_learned;
use crate::algorithms::mc::episode::lemma_reward_sum_push;
use crate::algorithms::mc::episode::reward_sum;
use crate::algorithms::mc::episode::rows;
use crate::algorithms::mc::episode::shaped;
use crate::algorithms::mc::episode::within;
use crate::algorithms::mc::episode::Visit;
use crate::algorithms::td::q_learning::admissible;
use crate::envs::MonteCarloEnvironment;
use crate::error::RlError;
use crate::fixed::Fixed;
use crate::policies::DeterministicPolicy;
use crate::random::RandomSource;

verus! {

/// The action that the epsilon-greedy behaviour takes, given its two draws:
/// `actions[pick]` where the draw from the unit interval falls below
/// `epsilon` or the action of the policy is forbidden, the action of the
/// policy otherwise.
pub open spec fn behaviour_choice(
    policy_action: usize,
    forbidden: bool,
    actions: Seq<usize>,
    epsilon: Fixed,
    explore_draw: Fixed,
    pick: int,
) -> usize {
    if explore_draw.raw < epsilon.raw || forbidden {
        actions[pick]
    } else {
        policy_action
    }
}

/// The action of the epsilon-greedy behaviour with its two draws given.
pub fn behaviour_action(
    policy_action: usize,
    forbidden: bool,
    actions: &Vec<usize>,
    epsilon: Fixed,
    explore_draw: Fixed,
    pick: usize,
) -> (action: usize)
    requires
        pick < actions.len(),
    ensures
        action == behaviour_choice(
            policy_action,
            forbidden,
            actions@,
            epsilon,
            explore_draw,
            pick as int,
        ),
{
    if explore_draw.raw < epsilon.raw || forbidden {
        actions[pick]
    } else {
        policy_action
    }
}

/// One episode under the epsilon-greedy behaviour of `policy`, cut off after
/// `max_steps` steps: the steps and the sum of their rewards. The episode
/// runs until the environment says that it is over, unless it is cut off.
pub fn generate_episode<E: MonteCarloEnvironment>(
    env: &mut E,
    policy: &DeterministicPolicy,
    epsilon: Fixed,
    max_steps: usize,
    rng: &mut RandomSource,
) -> (out: (Vec<Visit>, Fixed))
    requires
        old(env).well_formed(),
        policy.wf(),
        policy.state_count() == old(env).states(),
        policy.action_count() == old(env).actions(),
    ensures
        final(env).well_formed(),
        final(env).states() == old(env).states(),
        final(env).actions() == old(env).actions(),
        final(env).rewards() == old(env).rewards(),
        within(out.0@, old(env).states(), old(env).actions()),
        out.0.len() <= max_steps,
        out.0.len() < max_steps ==> final(env).game_over(),
        out.1 == reward_sum(out.0@, out.0.len() as int),
        episode_ran(
            *old(env),
            *final(env),
            out.0@,
            policy@,
            Some(epsilon),
            max_steps as nat,
        ),
{
    env.reset(rng);
    let mut episode: Vec<Visit> = Vec::new();
    let mut total_reward: Fixed = Fixed { raw: 0 };
    let mut steps: usize = 0;
    let ghost mut walk: Seq<E> = seq![*env];
    while steps < max_steps && !env.is_game_over()
        invariant
            walk.len() == steps + 1,
            old(env).begins(&walk[0]),
            walk[steps as int] == *env,
            forall|i: int| 0 <= i < steps ==> #[trigger] visit_link(walk, episode@, i),
            forall|i: int|
                0 <= i < steps ==> #[trigger] follows(walk, episode@, policy@, epsilon, i),
            env.well_formed(),
            env.states() == old(env).states(),
            env.actions() == old(env).actions(),
            env.rewards() == old(env).rewards(),
            policy.wf(),
            policy.state_count() == old(env).states(),
            policy.action_count() == old(env).actions(),
            steps <= max_steps,
            episode.len() == steps,
            within(episode@, old(env).states(), old(env).actions()),
            total_reward == reward_sum(episode@, steps as int),
        decreases max_steps - steps,
    {
        let s: usize = env.state_id();
        let actions: Vec<usize> = env.available_actions();
        let stored: usize = policy.action_at(s);
        let forbidden: bool = env.is_forbidden(stored);
        let explore_draw: Fixed = rng.unit();
        let pick: usize = rng.below(actions.len());
        let a: usize = behaviour_action(stored, forbidden, &actions, epsilon, explore_draw, pick);
        let ghost before = episode@;
        let outcome = env.step(a, rng);
        let visit = Visit { state: s, action: a, reward: outcome.1 };
        proof {
            lemma_reward_sum_push(episode@, visit, steps as int);
        }
        episode.push(visit);
        proof {
            let walk2 = walk.push(*env);
            assert forall|i: int| 0 <= i < steps + 1 implies #[trigger] visit_link(
                walk2,
                episode@,
                i,
            ) by {
                if i < steps {
                    assert(visit_link(walk, before, i));
                    assert(walk2[i] == walk[i]);
                    assert(walk2[i + 1] == walk[i + 1]);
                    assert(episode@[i] == before[i]);
                }
            }
            assert forall|i: int| 0 <= i < steps + 1 implies #[trigger] follows(
                walk2,
                episode@,
                policy@,
                epsilon,
                i,
            ) by {
                if i < steps {
                    assert(follows(walk, before, policy@, epsilon, i));
                    assert(walk2[i] == walk[i]);
                    assert(episode@[i] == before[i]);
                }
            }
            walk = walk2;
        }
        total_reward = total_reward.sat_add(outcome.1);
        steps = steps + 1;
    }
    proof {
        let behaviour = Some(epsilon);
        assert(visits_walked(
            *old(env),
            *env,
            walk,
            episode@,
            behaviour is None,
            max_steps as nat,
        ));
        assert(episode_ran(*old(env), *env, episode@, policy@, behaviour, max_steps as nat));
    }
    (episode, total_reward)
}

/// On-policy first-visit Monte Carlo control: `episodes` episodes under the
/// epsilon-greedy behaviour of the policy being learned, each worked
/// through from its last step back by first-visit averaging.
///
/// Returns the policy, the action values and the sum of the rewards of each
/// episode. Whatever was drawn, the policy is greedy for the values in every
/// state of which anything was learned. Fails with `InvalidParameter`,
/// before anything is drawn or stepped, when `gamma` or `epsilon` lies
/// outside the unit interval or the environment has no action.
pub fn on_policy_first_visit_mc_control<E: MonteCarloEnvironment>(
    env: &mut E,
    episodes: usize,
    gamma: Fixed,
    epsilon: Fixed,
    max_steps: usize,
    rng: &mut RandomSource,
) -> (res: Result<(DeterministicPolicy, Vec<Vec<Fixed>>, Vec<Fixed>), RlError>)
    requires
        old(env).well_formed(),
    ensures
        final(env).well_formed(),
        final(env).states() == old(env).states(),
        final(env).actions() == old(env).actions(),
        final(env).rewards() == old(env).rewards(),
        match res {
            Ok(out) => {
                &&& admissible(gamma, epsilon, old(env).actions())
                &&& out.0.wf()
                &&& out.0.state_count() == old(env).states()
                &&& out.0.action_count() == old(env).actions()
                &&& shaped(rows(out.1@), old(env).states(), old(env).actions())
                &&& greedy_where_learned(rows(out.1@), out.0@)
                &&& out.2.len() == episodes
                &&& first_visit_earned(
                    *old(env),
                    *final(env),
                    rows(out.1@),
                    out.0@,
                    out.2@,
                    old(env).states(),
                    old(env).actions(),
                    max_steps as nat,
                    Some(epsilon),
                    gamma,
                )
            },
            Err(e) => {
                &&& e == RlError::InvalidParameter
                &&& !admissible(gamma, epsilon, old(env).actions())
                &&& *final(env) == *old(env)
            },
        },
{
    if !gamma.in_unit_interval() || !epsilon.in_unit_interval() || env.num_actions() == 0 {
        return Err(RlError::InvalidParameter);
    }
    let num_states: usize = env.num_states();
    let num_actions: usize = env.num_actions();
    let mut q: Vec<Vec<Fixed>> = dense(num_states, num_actions, Fixed { raw: 0 });
    let mut returns_count: Vec<Vec<u64>> = dense(num_states, num_actions, 0u64);
    let mut policy: DeterministicPolicy = DeterministicPolicy::new_det_pol(env, rng);
    let mut rewards_per_episode: Vec<Fixed> = Vec::new();
    let mut ep: usize = 0;
    let ghost mut estimates: Seq<Estimates> = seq![held(&q, &returns_count, &policy)];
    let ghost mut runs: Seq<Seq<Visit>> = Seq::empty();
    let ghost mut worlds: Seq<E> = seq![*env];
    while ep < episodes
        invariant
            env.well_formed(),
            env.states() == old(env).states(),
            env.actions() == old(env).actions(),
            env.rewards() == old(env).rewards(),
            policy.wf(),
            policy.state_count() == old(env).states(),
            policy.action_count() == old(env).actions(),
            shaped(rows(q@), old(env).states(), old(env).actions()),
            shaped(rows(returns_count@), old(env).states(), old(env).actions()),
            greedy_where_learned(rows(q@), policy@),
            ep <= episodes,
            rewards_per_episode.len() == ep,
            estimates.len() == ep + 1,
            runs.len() == ep,
            estimates[ep as int] == held(&q, &returns_count, &policy),
            worlds.len() == ep + 1,
            worlds[0] == *old(env),
            worlds[ep as int] == *env,
            first_visit_chain(
                worlds,
                estimates,
                runs,
                old(env).states(),
                old(env).actions(),
                max_steps as nat,
                Some(epsilon),
                gamma,
            ),
            earned(runs, rewards_per_episode@),
        decreases episodes - ep,
    {
        let generated = generate_episode(env, &policy, epsilon, max_steps, rng);
        let ghost totals = rewards_per_episode@;
        rewards_per_episode.push(generated.1);
        first_visit_update(&mut q, &mut returns_count, &mut policy, &generated.0, gamma);
        proof {
            let longer = estimates.push(held(&q, &returns_count, &policy));
            let more = runs.push(generated.0@);
            let wider = worlds.push(*env);
            assert forall|k: int| 0 <= k < more.len() implies within(
                #[trigger] more[k],
                old(env).states(),
                old(env).actions(),
            ) && more[k].len() <= max_steps && episode_ran(
                wider[k],
                wider[k + 1],
                more[k],
                longer[k].policy,
                Some(epsilon),
                max_steps as nat,
            ) && longer[k + 1] == first_visit_pass(longer[k], more[k], gamma, 0) by {
                if k < ep {
                    assert(more[k] == runs[k]);
                    assert(wider[k] == worlds[k]);
                    assert(wider[k + 1] == worlds[k + 1]);
                    assert(longer[k] == estimates[k]);
                    assert(longer[k + 1] == estimates[k + 1]);
                }
            }
            worlds = wider;
            assert forall|k: int| 0 <= k < rewards_per_episode@.len() implies (
            #[trigger] rewards_per_episode@[k]) == reward_sum(more[k], more[k].len() as int) by {
                if k < ep {
                    assert(more[k] == runs[k]);
                    assert(rewards_per_episode@[k] == totals[k]);
                }
            }
            estimates = longer;
            runs = more;
        }
        ep = ep + 1;
    }
    proof {
        assert(first_visit_earned(
            *old(env),
            *env,
            rows(q@),
            policy@,
            rewards_per_episode@,
            old(env).states(),
            old(env).actions(),
            max_steps as nat,
            Some(epsilon),
            gamma,
        ));
    }
    Ok((policy, q, rewards_per_episode))
}

} // verus!
