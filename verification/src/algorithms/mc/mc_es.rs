use vstd::prelude::*;

use crate::algorithms::mc::episode::dense;
use crate::algorithms::mc::episode::episode_ran;
use crate::algorithms::mc::episode::visit_link;
use crate::algorithms::mc::episode::visits_walked;
use crate::algorithms::mc::episode::first_visit_chain;
use crate::algorithms::mc::episode::first_visit_pass;
use crate::algorithms::mc::episode::first_visit_trained;
use crate::algorithms::mc::episode::held;
use crate::algorithms::mc::episode::Estimates;
use crate::algorithms::mc::episode::first_visit_update;
use crate::algorithms::mc::episode::greedy_where_learned;
use crate::algorithms::mc::episode::rows;
use crate::algorithms::mc::episode::shaped;
use crate::algorithms::mc::episode::within;
use crate::algorithms::mc::episode::Visit;
use crate::envs::MonteCarloEnvironment;
use crate::error::RlError;
use crate::fixed::Fixed;
use crate::policies::DeterministicPolicy;
use crate::random::RandomSource;

verus! {

/// One episode from a state drawn at random in which every action is drawn
/// uniformly from those available, cut off after `max_steps` steps. The
/// episode runs until the environment says that it is over, unless it is
/// cut off.
pub fn generate_episode<E: MonteCarloEnvironment>(
    env: &mut E,
    max_steps: usize,
    rng: &mut RandomSource,
) -> (episode: Vec<Visit>)
    requires
        old(env).well_formed(),
    ensures
        final(env).well_formed(),
        final(env).states() == old(env).states(),
        final(env).actions() == old(env).actions(),
        final(env).rewards() == old(env).rewards(),
        within(episode@, old(env).states(), old(env).actions()),
        episode.len() <= max_steps,
        episode.len() < max_steps ==> final(env).game_over(),
        forall|policy: Seq<usize>| #[trigger]
            episode_ran(*old(env), *final(env), episode@, policy, None, max_steps as nat),
{
    env.start_from_random_state(rng);
    let mut episode: Vec<Visit> = Vec::new();
    let mut steps: usize = 0;
    let ghost mut walk: Seq<E> = seq![*env];
    while steps < max_steps && !env.is_game_over()
        invariant
            walk.len() == steps + 1,
            old(env).begins_anywhere(&walk[0]),
            walk[steps as int] == *env,
            forall|i: int| 0 <= i < steps ==> #[trigger] visit_link(walk, episode@, i),
            env.well_formed(),
            env.states() == old(env).states(),
            env.actions() == old(env).actions(),
            env.rewards() == old(env).rewards(),
            steps <= max_steps,
            episode.len() == steps,
            within(episode@, old(env).states(), old(env).actions()),
        decreases max_steps - steps,
    {
        let s: usize = env.state_id();
        let actions: Vec<usize> = env.available_actions();
        let a: usize = actions[rng.below(actions.len())];
        let ghost before = episode@;
        let outcome = env.step(a, rng);
        episode.push(Visit { state: s, action: a, reward: outcome.1 });
        proof {
            let walk2 = walk.push(*env);
            assert forall|i: int| 0 <= i < steps + 1 implies #[trigger] visit_link(
                walk2,
                episode@,
                i,
            ) by {
                if i < steps {
                    assert(visit_link(walk, before, i));
                    assert(walk2[i] == walk[i]);
                    assert(walk2[i + 1] == walk[i + 1]);
                    assert(episode@[i] == before[i]);
                }
            }
            walk = walk2;
        }
        steps = steps + 1;
    }
    proof {
        let none: Option<Fixed> = None;
        assert(visits_walked(*old(env), *env, walk, episode@, none is None, max_steps as nat));
        assert forall|policy: Seq<usize>| #[trigger]
            episode_ran(*old(env), *env, episode@, policy, none, max_steps as nat) by {
            assert(visits_walked(*old(env), *env, walk, episode@, none is None, max_steps as nat));
        }
    }
    episode
}

/// Monte Carlo control with exploring starts: `episodes` episodes, each from
/// a state drawn at random and with every action drawn uniformly from those
/// available, each worked through from its last step back by first-visit
/// averaging.
///
/// Returns the policy and the action values. Whatever was drawn, the policy
/// is greedy for the values in every state of which anything was learned.
/// Fails with `InvalidParameter`, before anything is drawn or stepped, when
/// `gamma` lies outside the unit interval or the environment has no action.
pub fn monte_carlo_es<E: MonteCarloEnvironment>(
    env: &mut E,
    episodes: usize,
    gamma: Fixed,
    max_steps: usize,
    rng: &mut RandomSource,
) -> (res: Result<(DeterministicPolicy, Vec<Vec<Fixed>>), RlError>)
    requires
        old(env).well_formed(),
    ensures
        final(env).well_formed(),
        final(env).states() == old(env).states(),
        final(env).actions() == old(env).actions(),
        final(env).rewards() == old(env).rewards(),
        match res {
            Ok(out) => {
                &&& gamma.is_unit()
                &&& old(env).actions() > 0
                &&& out.0.wf()
                &&& out.0.state_count() == old(env).states()
                &&& out.0.action_count() == old(env).actions()
                &&& shaped(rows(out.1@), old(env).states(), old(env).actions())
                &&& greedy_where_learned(rows(out.1@), out.0@)
                &&& first_visit_trained(
                    *old(env),
                    *final(env),
                    rows(out.1@),
                    out.0@,
                    episodes as nat,
                    old(env).states(),
                    old(env).actions(),
                    max_steps as nat,
                    None,
                    gamma,
                )
            },
            Err(e) => {
                &&& e == RlError::InvalidParameter
                &&& !(gamma.is_unit() && old(env).actions() > 0)
                &&& *final(env) == *old(env)
            },
        },
{
    if !gamma.in_unit_interval() || env.num_actions() == 0 {
        return Err(RlError::InvalidParameter);
    }
    let num_states: usize = env.num_states();
    let num_actions: usize = env.num_actions();
    let mut q: Vec<Vec<Fixed>> = dense(num_states, num_actions, Fixed { raw: 0 });
    let mut returns_count: Vec<Vec<u64>> = dense(num_states, num_actions, 0u64);
    let mut policy: DeterministicPolicy = DeterministicPolicy::new_det_pol(env, rng);
    let mut ep: usize = 0;
    let ghost mut estimates: Seq<Estimates> = seq![held(&q, &returns_count, &policy)];
    let ghost mut runs: Seq<Seq<Visit>> = Seq::empty();
    let ghost mut worlds: Seq<E> = seq![*env];
    while ep < episodes
        invariant
            env.well_formed(),
            env.states() == old(env).states(),
            env.actions() == old(env).actions(),
            env.rewards() == old(env).rewards(),
            policy.wf(),
            policy.state_count() == old(env).states(),
            policy.action_count() == old(env).actions(),
            shaped(rows(q@), old(env).states(), old(env).actions()),
            shaped(rows(returns_count@), old(env).states(), old(env).actions()),
            greedy_where_learned(rows(q@), policy@),
            ep <= episodes,
            estimates.len() == ep + 1,
            runs.len() == ep,
            estimates[ep as int] == held(&q, &returns_count, &policy),
            worlds.len() == ep + 1,
            worlds[0] == *old(env),
            worlds[ep as int] == *env,
            first_visit_chain(
                worlds,
                estimates,
                runs,
                old(env).states(),
                old(env).actions(),
                max_steps as nat,
                None,
                gamma,
            ),
        decreases episodes - ep,
    {
        let ghost target = policy@;
        let episode: Vec<Visit> = generate_episode(env, max_steps, rng);
        first_visit_update(&mut q, &mut returns_count, &mut policy, &episode, gamma);
        proof {
            let longer = estimates.push(held(&q, &returns_count, &policy));
            let more = runs.push(episode@);
            let wider = worlds.push(*env);
            assert(episode_ran(worlds[ep as int], *env, episode@, target, None, max_steps as nat));
            assert forall|k: int| 0 <= k < more.len() implies within(
                #[trigger] more[k],
                old(env).states(),
                old(env).actions(),
            ) && more[k].len() <= max_steps && episode_ran(
                wider[k],
                wider[k + 1],
                more[k],
                longer[k].policy,
                None,
                max_steps as nat,
            ) && longer[k + 1] == first_visit_pass(longer[k], more[k], gamma, 0) by {
                if k < ep {
                    assert(more[k] == runs[k]);
                    assert(wider[k] == worlds[k]);
                    assert(wider[k + 1] == worlds[k + 1]);
                    assert(longer[k] == estimates[k]);
                    assert(longer[k + 1] == estimates[k + 1]);
                }
            }
            estimates = longer;
            runs = more;
            worlds = wider;
        }
        ep = ep + 1;
    }
    proof {
        assert(first_visit_trained(
            *old(env),
            *env,
            rows(q@),
            policy@,
            episodes as nat,
            old(env).states(),
            old(env).actions(),
            max_steps as nat,
            None,
            gamma,
        ));
    }
    Ok((policy, q))
}

} // verus!
