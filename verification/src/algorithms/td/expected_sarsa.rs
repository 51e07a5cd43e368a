use vstd::prelude::*;

use crate::algorithms::planning::helpers::all_actions;
use crate::algorithms::planning::helpers::build_policy;
use crate::algorithms::planning::helpers::choose_action;
use crate::algorithms::planning::helpers::greedy_action;
use crate::algorithms::planning::helpers::greedy_choice;
use crate::algorithms::planning::helpers::greedy_table;
use crate::algorithms::td::q_learning::action_range;
use crate::algorithms::planning::model::Transition;
use crate::algorithms::td::q_learning::admissible;
use crate::algorithms::td::q_learning::path;
use crate::algorithms::td::q_learning::walk_link;
use crate::algorithms::td::q_learning::walked;
use crate::envs::offered;
use crate::envs::MonteCarloEnvironment;
use crate::error::RlError;
use crate::fixed::fixed_sum;
use crate::fixed::lemma_fixed_sum_push;
use crate::fixed::Fixed;
use crate::fixed::SCALE;
use crate::policies::DeterministicPolicy;
use crate::qtable::moved_towards;
use crate::qtable::td_target;
use crate::qtable::QTable;
use crate::random::RandomSource;

verus! {

/// The probability with which the epsilon-greedy policy takes the `j`-th of
/// `actions`: `1 - epsilon + epsilon / |A|` for the greedy action,
/// `epsilon / |A|` for every other.
pub open spec fn action_weight(
    actions: Seq<usize>,
    greedy: usize,
    epsilon: Fixed,
    j: int,
) -> Fixed {
    let share = epsilon.spec_div_count(actions.len() as int);
    if actions[j] == greedy {
        (Fixed { raw: SCALE }).spec_sub(epsilon).spec_add(share)
    } else {
        share
    }
}

/// The first `k` terms of the expectation of `Q(state, .)` under the
/// epsilon-greedy policy.
pub open spec fn expected_sum(
    q: &QTable,
    state: usize,
    actions: Seq<usize>,
    epsilon: Fixed,
    k: int,
) -> Fixed
    decreases k,
{
    if k <= 0 {
        Fixed { raw: 0 }
    } else {
        expected_sum(q, state, actions, epsilon, k - 1).spec_add(
            action_weight(actions, greedy_choice(q, state, actions), epsilon, k - 1).spec_mul(
                q.value(state, actions[k - 1]),
            ),
        )
    }
}

/// `E[Q(state, .)]` under the epsilon-greedy policy: `sum over a' of
/// pi(a' | state) * Q(state, a')`; zero where there is no action.
pub open spec fn expected_value(
    q: &QTable,
    state: usize,
    actions: Seq<usize>,
    epsilon: Fixed,
) -> Fixed {
    expected_sum(q, state, actions, epsilon, actions.len() as int)
}

/// `E[Q(s', .)]` under the epsilon-greedy policy.
pub fn compute_expected_q(q: &QTable, s_next: usize, actions: &Vec<usize>, epsilon: Fixed) -> (e:
    Fixed)
    ensures
        e == expected_value(q, s_next, actions@, epsilon),
{
    if actions.len() == 0 {
        return Fixed { raw: 0 };
    }
    let greedy: usize = greedy_action(q, s_next, actions);
    let share: Fixed = epsilon.div_count(actions.len() as u64);
    let favoured: Fixed = Fixed::one().sat_sub(epsilon).sat_add(share);
    let mut sum: Fixed = Fixed { raw: 0 };
    let mut k: usize = 0;
    while k < actions.len()
        invariant
            k <= actions.len(),
            greedy == greedy_choice(q, s_next, actions@),
            share == epsilon.spec_div_count(actions.len() as int),
            favoured == (Fixed { raw: SCALE }).spec_sub(epsilon).spec_add(share),
            sum == expected_sum(q, s_next, actions@, epsilon, k as int),
        decreases actions.len() - k,
    {
        let ap: usize = actions[k];
        let p: Fixed = if ap == greedy {
            favoured
        } else {
            share
        };
        sum = sum.sat_add(p.sat_mul(q.get(s_next, ap)));
        k = k + 1;
    }
    sum
}

/// `Q(s, a) += alpha * (r + gamma * E[Q] - Q(s, a))`.
pub fn update_q(
    q: &mut QTable,
    s: usize,
    a: usize,
    reward: Fixed,
    expected_q: Fixed,
    gamma: Fixed,
    alpha: Fixed,
)
    ensures
        final(q).contains(s, a),
        final(q).value(s, a) == moved_towards(
            old(q).value(s, a),
            td_target(reward, gamma, expected_q),
            alpha,
        ),
        forall|t: usize, b: usize|
            !(t == s && b == a) ==> #[trigger] final(q).value(t, b) == old(q).value(t, b),
        forall|t: usize, b: usize|
            !(t == s && b == a) ==> #[trigger] final(q).contains(t, b) == old(q).contains(t, b),
{
    let target: Fixed = reward.sat_add(gamma.sat_mul(expected_q));
    q.move_towards(s, a, target, alpha);
}

/// Whether `after` is the table `before` after the update of Expected SARSA
/// for the step `seen`: changed in the pair that was taken and nowhere else,
/// and moved there towards the reward and the discounted expectation of `Q`
/// in the state reached.
pub open spec fn expected_step_learned(
    before: &QTable,
    after: &QTable,
    seen: Transition,
    epsilon: Fixed,
    gamma: Fixed,
    alpha: Fixed,
) -> bool {
    &&& after.contains(seen.state, seen.action)
    &&& after.value(seen.state, seen.action) == moved_towards(
        before.value(seen.state, seen.action),
        td_target(
            seen.reward,
            gamma,
            expected_value(before, seen.next_state, seen.next_actions@, epsilon),
        ),
        alpha,
    )
    &&& forall|t: usize, b: usize|
        !(t == seen.state && b == seen.action) ==> #[trigger] after.value(t, b) == before.value(
            t,
            b,
        )
    &&& forall|t: usize, b: usize|
        !(t == seen.state && b == seen.action) ==> #[trigger] after.contains(t, b)
            == before.contains(t, b)
}

/// Whether an episode of Expected SARSA that made the steps `trace` leads
/// from the simulation `start` to the simulation `last` and from the table
/// `before` to the table `after`, and earns `total`: the episode is no
/// longer than `cap` and over unless it is that long, `walk` and `tables`
/// hold the simulation and the table before each step and after the last,
/// each step is a step of the simulation by epsilon-greedy selection, each
/// table is what the update of Expected SARSA makes of the one before, and
/// `total` is the sum of the rewards of the steps.
pub open spec fn expected_sarsa_episode<E: MonteCarloEnvironment>(
    start: E,
    last: E,
    walk: Seq<E>,
    before: QTable,
    after: QTable,
    trace: Seq<Transition>,
    tables: Seq<QTable>,
    rewards: Seq<Fixed>,
    total: Fixed,
    cap: nat,
    epsilon: Fixed,
    gamma: Fixed,
    alpha: Fixed,
) -> bool {
    &&& trace.len() <= cap
    &&& trace.len() < cap ==> last.game_over()
    &&& path(trace, last.state())
    &&& tables.len() == trace.len() + 1
    &&& rewards.len() == trace.len()
    &&& tables[0] == before
    &&& tables[trace.len() as int] == after
    &&& walked(start, last, walk, tables, trace, epsilon)
    &&& forall|i: int|
        0 <= i < trace.len() ==> rewards[i] == (#[trigger] trace[i]).reward
            && expected_step_learned(&tables[i], &tables[i + 1], trace[i], epsilon, gamma, alpha)
    &&& total == fixed_sum(rewards, rewards.len() as int)
}

/// One episode of Expected SARSA, cut off after `max_steps` steps: from a
/// reset, an epsilon-greedy action, the step and the update, one after
/// another until the environment says that the episode is over. Returns the
/// sum of the rewards.
pub fn run_episode<E: MonteCarloEnvironment>(
    env: &mut E,
    q: &mut QTable,
    alpha: Fixed,
    gamma: Fixed,
    epsilon: Fixed,
    max_steps: usize,
    rng: &mut RandomSource,
) -> (total_reward: Fixed)
    requires
        old(env).well_formed(),
    ensures
        final(env).well_formed(),
        final(env).states() == old(env).states(),
        final(env).actions() == old(env).actions(),
        final(env).rewards() == old(env).rewards(),
        old(q).within(old(env).states(), old(env).actions()) ==> final(q).within(
            old(env).states(),
            old(env).actions(),
        ),
        expected_sarsa_ran(
            *old(env),
            *final(env),
            *old(q),
            *final(q),
            total_reward,
            max_steps as nat,
            epsilon,
            gamma,
            alpha,
        ),
{
    env.reset(rng);
    let mut total_reward: Fixed = Fixed { raw: 0 };
    let mut steps: usize = 0;
    let ghost mut trace: Seq<Transition> = Seq::empty();
    let ghost mut tables: Seq<QTable> = seq![*q];
    let ghost mut rewards: Seq<Fixed> = Seq::empty();
    let ghost mut walk: Seq<E> = seq![*env];
    while steps < max_steps && !env.is_game_over()
        invariant
            env.well_formed(),
            env.states() == old(env).states(),
            env.actions() == old(env).actions(),
            env.rewards() == old(env).rewards(),
            old(q).within(old(env).states(), old(env).actions()) ==> q.within(
                old(env).states(),
                old(env).actions(),
            ),
            steps <= max_steps,
            trace.len() == steps,
            path(trace, env.state()),
            tables.len() == steps + 1,
            rewards.len() == steps,
            tables[0] == *old(q),
            tables[steps as int] == *q,
            walk.len() == steps + 1,
            old(env).begins(&walk[0]),
            walk[steps as int] == *env,
            forall|i: int|
                0 <= i < trace.len() ==> #[trigger] walk_link(walk, tables, trace, i, epsilon),
            forall|i: int|
                0 <= i < trace.len() ==> rewards[i] == (#[trigger] trace[i]).reward
                    && expected_step_learned(
                    &tables[i],
                    &tables[i + 1],
                    trace[i],
                    epsilon,
                    gamma,
                    alpha,
                ),
            total_reward == fixed_sum(rewards, steps as int),
        decreases max_steps - steps,
    {
        let s: usize = env.state_id();
        let actions: Vec<usize> = env.available_actions();
        let a: usize = choose_action(q, s, &actions, epsilon, rng);
        let outcome = env.step(a, rng);
        total_reward = total_reward.sat_add(outcome.1);
        let next_actions: Vec<usize> = env.available_actions();
        let expected_q: Fixed = compute_expected_q(q, outcome.0, &next_actions, epsilon);
        update_q(q, s, a, outcome.1, expected_q, gamma, alpha);
        proof {
            let seen = Transition {
                state: s,
                action: a,
                reward: outcome.1,
                next_state: outcome.0,
                next_actions,
                elapsed: 0,
            };
            lemma_fixed_sum_push(rewards, outcome.1, steps as int);
            let trace2 = trace.push(seen);
            let tables2 = tables.push(*q);
            let walk2 = walk.push(*env);
            assert(offered(walk[steps as int].available(), a));
            assert forall|i: int| 0 <= i < trace2.len() implies #[trigger] walk_link(
                walk2,
                tables2,
                trace2,
                i,
                epsilon,
            ) by {
                if i < steps {
                    assert(walk_link(walk, tables, trace, i, epsilon));
                    assert(walk2[i] == walk[i]);
                    assert(walk2[i + 1] == walk[i + 1]);
                    assert(tables2[i] == tables[i]);
                    assert(trace2[i] == trace[i]);
                }
            }
            trace = trace2;
            tables = tables2;
            walk = walk2;
            rewards = rewards.push(outcome.1);
        }
        steps = steps + 1;
    }
    proof {
        assert(expected_sarsa_episode(
            *old(env),
            *env,
            walk,
            *old(q),
            *q,
            trace,
            tables,
            rewards,
            total_reward,
            max_steps as nat,
            epsilon,
            gamma,
            alpha,
        ));
    }
    total_reward
}

/// Whether one episode of Expected SARSA, of at most `cap` steps, leads from
/// the simulation `start` to the simulation `last` and from the table
/// `before` to the table `after`, and earns `total`.
pub open spec fn expected_sarsa_ran<E: MonteCarloEnvironment>(
    start: E,
    last: E,
    before: QTable,
    after: QTable,
    total: Fixed,
    cap: nat,
    epsilon: Fixed,
    gamma: Fixed,
    alpha: Fixed,
) -> bool {
    exists|trace: Seq<Transition>, tables: Seq<QTable>, rewards: Seq<Fixed>, walk: Seq<E>| #[trigger]
        expected_sarsa_episode(
            start,
            last,
            walk,
            before,
            after,
            trace,
            tables,
            rewards,
            total,
            cap,
            epsilon,
            gamma,
            alpha,
        )
}

/// Whether `worlds` and `tables` are the simulations and the tables between
/// the episodes of a run of Expected SARSA: the first table is empty, and
/// each episode leads from one to the next and earns the total of its
/// number in `totals`.
pub open spec fn expected_sarsa_chain<E: MonteCarloEnvironment>(
    worlds: Seq<E>,
    tables: Seq<QTable>,
    totals: Seq<Fixed>,
    cap: nat,
    epsilon: Fixed,
    gamma: Fixed,
    alpha: Fixed,
) -> bool {
    &&& worlds.len() == totals.len() + 1
    &&& tables.len() == totals.len() + 1
    &&& tables[0].entries() == Map::<u128, Fixed>::empty()
    &&& forall|k: int|
        0 <= k < totals.len() ==> expected_sarsa_ran(
            worlds[k],
            worlds[k + 1],
            tables[k],
            tables[k + 1],
            #[trigger] totals[k],
            cap,
            epsilon,
            gamma,
            alpha,
        )
}

/// Whether `table` is the table that a run of Expected SARSA ends with, from
/// the simulation `first` and an empty table, through one episode for each
/// of `totals`, the simulation being left as `last`.
pub open spec fn expected_sarsa_trained<E: MonteCarloEnvironment>(
    first: E,
    last: E,
    table: QTable,
    totals: Seq<Fixed>,
    cap: nat,
    epsilon: Fixed,
    gamma: Fixed,
    alpha: Fixed,
) -> bool {
    exists|worlds: Seq<E>, tables: Seq<QTable>| #[trigger]
        expected_sarsa_chain(worlds, tables, totals, cap, epsilon, gamma, alpha) && worlds[0]
            == first && worlds[totals.len() as int] == last && tables[totals.len() as int]
            == table
}

/// Expected SARSA: `episodes` episodes of at most `max_steps` steps each,
/// the behaviour epsilon-greedy and the target of every update the
/// expectation of `Q` in the state reached under that same policy.
///
/// Returns the policy that is greedy for the final table in every state,
/// over all actions; the sum of the rewards of each episode; and the table.
/// Fails with `InvalidParameter`, before anything is drawn or stepped, when
/// `gamma` or `epsilon` lies outside the unit interval or the environment
/// has no action.
pub fn expected_sarsa<E: MonteCarloEnvironment>(
    env: &mut E,
    alpha: Fixed,
    gamma: Fixed,
    epsilon: Fixed,
    episodes: usize,
    max_steps: usize,
    rng: &mut RandomSource,
) -> (res: Result<(DeterministicPolicy, Vec<Fixed>, QTable), RlError>)
    requires
        old(env).well_formed(),
    ensures
        final(env).well_formed(),
        final(env).states() == old(env).states(),
        final(env).actions() == old(env).actions(),
        final(env).rewards() == old(env).rewards(),
        match res {
            Ok(out) => {
                &&& admissible(gamma, epsilon, old(env).actions())
                &&& out.0.wf()
                &&& out.0.state_count() == old(env).states()
                &&& out.0.action_count() == old(env).actions()
                &&& out.0@ == greedy_table(&out.2, old(env).states(), action_range(old(env).actions()))
                &&& out.1.len() == episodes
                &&& out.2.within(old(env).states(), old(env).actions())
                &&& expected_sarsa_trained(
                    *old(env),
                    *final(env),
                    out.2,
                    out.1@,
                    max_steps as nat,
                    epsilon,
                    gamma,
                    alpha,
                )
            },
            Err(e) => {
                &&& e == RlError::InvalidParameter
                &&& !admissible(gamma, epsilon, old(env).actions())
                &&& *final(env) == *old(env)
            },
        },
{
    if !gamma.in_unit_interval() || !epsilon.in_unit_interval() || env.num_actions() == 0 {
        return Err(RlError::InvalidParameter);
    }
    let actions: Vec<usize> = all_actions(env.num_actions());
    let mut q: QTable = QTable::new();
    let mut rewards_per_episode: Vec<Fixed> = Vec::new();
    let mut episode: usize = 0;
    let ghost mut tables: Seq<QTable> = seq![q];
    let ghost mut worlds: Seq<E> = seq![*env];
    while episode < episodes
        invariant
            env.well_formed(),
            env.states() == old(env).states(),
            env.actions() == old(env).actions(),
            env.rewards() == old(env).rewards(),
            episode <= episodes,
            rewards_per_episode.len() == episode,
            q.within(old(env).states(), old(env).actions()),
            tables.len() == episode + 1,
            tables[episode as int] == q,
            worlds.len() == episode + 1,
            worlds[0] == *old(env),
            worlds[episode as int] == *env,
            expected_sarsa_chain(
                worlds,
                tables,
                rewards_per_episode@,
                max_steps as nat,
                epsilon,
                gamma,
                alpha,
            ),
        decreases episodes - episode,
    {
        let ghost totals = rewards_per_episode@;
        let total_reward: Fixed = run_episode(env, &mut q, alpha, gamma, epsilon, max_steps, rng);
        rewards_per_episode.push(total_reward);
        proof {
            let longer = tables.push(q);
            let wider = worlds.push(*env);
            assert forall|k: int| 0 <= k < rewards_per_episode@.len() implies expected_sarsa_ran(
                wider[k],
                wider[k + 1],
                longer[k],
                longer[k + 1],
                #[trigger] rewards_per_episode@[k],
                max_steps as nat,
                epsilon,
                gamma,
                alpha,
            ) by {
                if k < episode {
                    assert(wider[k] == worlds[k]);
                    assert(wider[k + 1] == worlds[k + 1]);
                    assert(longer[k] == tables[k]);
                    assert(longer[k + 1] == tables[k + 1]);
                    assert(rewards_per_episode@[k] == totals[k]);
                }
            }
            tables = longer;
            worlds = wider;
        }
        episode = episode + 1;
    }
    proof {
        assert(actions@ =~= action_range(env.actions()));
    }
    let policy: DeterministicPolicy = build_policy(&q, &actions, env);
    Ok((policy, rewards_per_episode, q))
}

} // verus!
