use vstd::prelude::*;

use crate::algorithms::planning::helpers::all_actions;
use crate::algorithms::planning::helpers::build_policy;
use crate::algorithms::planning::helpers::choose_action;
use crate::algorithms::planning::helpers::greedy_choice;
use crate::algorithms::planning::helpers::greedy_table;
use crate::algorithms::td::q_learning::action_range;
use crate::algorithms::td::q_learning::admissible;
use crate::envs::offered;
use crate::envs::MonteCarloEnvironment;
use crate::error::RlError;
use crate::fixed::fixed_sum;
use crate::fixed::lemma_fixed_sum_push;
use crate::fixed::Fixed;
use crate::policies::DeterministicPolicy;
use crate::qtable::moved_towards;
use crate::qtable::td_target;
use crate::qtable::QTable;
use crate::random::RandomSource;

verus! {

/// `Q(s, a) += alpha * (r + gamma * Q(s', a') - Q(s, a))`.
pub fn update_q(
    q: &mut QTable,
    s: usize,
    a: usize,
    reward: Fixed,
    s_next: usize,
    a_next: usize,
    gamma: Fixed,
    alpha: Fixed,
)
    ensures
        final(q).contains(s, a),
        final(q).value(s, a) == moved_towards(
            old(q).value(s, a),
            td_target(reward, gamma, old(q).value(s_next, a_next)),
            alpha,
        ),
        forall|t: usize, b: usize|
            !(t == s && b == a) ==> #[trigger] final(q).value(t, b) == old(q).value(t, b),
        forall|t: usize, b: usize|
            !(t == s && b == a) ==> #[trigger] final(q).contains(t, b) == old(q).contains(t, b),
{
    let q_next: Fixed = q.get(s_next, a_next);
    let target: Fixed = reward.sat_add(gamma.sat_mul(q_next));
    q.move_towards(s, a, target, alpha);
}

/// The update for a step that ended the episode:
/// `Q(s, a) += alpha * (r - Q(s, a))`.
pub fn update_terminal(q: &mut QTable, s: usize, a: usize, reward: Fixed, alpha: Fixed)
    ensures
        final(q).contains(s, a),
        final(q).value(s, a) == moved_towards(old(q).value(s, a), reward, alpha),
        forall|t: usize, b: usize|
            !(t == s && b == a) ==> #[trigger] final(q).value(t, b) == old(q).value(t, b),
        forall|t: usize, b: usize|
            !(t == s && b == a) ==> #[trigger] final(q).contains(t, b) == old(q).contains(t, b),
{
    q.move_towards(s, a, reward, alpha);
}

/// One step of an episode of SARSA: the state, the action taken in it, the
/// reward earned, the state reached, and the action chosen there, if the
/// step did not end the episode.
pub struct SarsaStep {
    pub state: usize,
    pub action: usize,
    pub reward: Fixed,
    pub next_state: usize,
    pub next_action: Option<usize>,
}

/// The target of the update of SARSA for a step: the reward and the
/// discounted value of the action chosen next, or the reward alone where
/// the step ended the episode.
pub open spec fn sarsa_target(before: &QTable, step: SarsaStep, gamma: Fixed) -> Fixed {
    match step.next_action {
        Some(a_next) => td_target(step.reward, gamma, before.value(step.next_state, a_next)),
        None => step.reward,
    }
}

/// Whether `after` is the table `before` after the update of SARSA for
/// `step`: changed in the pair that was taken and nowhere else, and moved
/// there towards the target of the step.
pub open spec fn sarsa_step_learned(
    before: &QTable,
    after: &QTable,
    step: SarsaStep,
    gamma: Fixed,
    alpha: Fixed,
) -> bool {
    &&& after.contains(step.state, step.action)
    &&& after.value(step.state, step.action) == moved_towards(
        before.value(step.state, step.action),
        sarsa_target(before, step, gamma),
        alpha,
    )
    &&& forall|t: usize, b: usize|
        !(t == step.state && b == step.action) ==> #[trigger] after.value(t, b) == before.value(
            t,
            b,
        )
    &&& forall|t: usize, b: usize|
        !(t == step.state && b == step.action) ==> #[trigger] after.contains(t, b)
            == before.contains(t, b)
}

/// Whether every step of `trace` but the first starts in the state that the
/// step before it reached and takes the action that was chosen there, the
/// last of them reached the state `end`, and a step chose no next action
/// exactly where it ended the episode.
pub open spec fn sarsa_path(trace: Seq<SarsaStep>, end: nat, over: bool) -> bool {
    &&& forall|i: int|
        0 < i < trace.len() ==> (#[trigger] trace[i]).state == trace[i - 1].next_state
            && trace[i - 1].next_action == Some(trace[i].action)
    &&& trace.len() > 0 ==> trace[trace.len() - 1].next_state == end
    &&& trace.len() > 0 ==> (trace[trace.len() - 1].next_action is None <==> over)
}

/// Whether step `i` of `trace` is a step of the simulation from `walk[i]` to
/// `walk[i + 1]`: the episode was not over, the action was on offer, and the
/// simulation may answer it with the reward and the state that the step
/// records; where the step did not end the episode, the action chosen next
/// was on offer in the state reached, and the greedy one for the table
/// before the update where `epsilon` is not positive.
pub open spec fn sarsa_link<E: MonteCarloEnvironment>(
    walk: Seq<E>,
    tables: Seq<QTable>,
    trace: Seq<SarsaStep>,
    i: int,
    epsilon: Fixed,
) -> bool {
    &&& !walk[i].game_over()
    &&& trace[i].state == walk[i].state()
    &&& offered(walk[i].available(), trace[i].action)
    &&& walk[i].leads(trace[i].action, &walk[i + 1], trace[i].reward)
    &&& trace[i].next_state == walk[i + 1].state()
    &&& match trace[i].next_action {
        Some(a_next) => !walk[i + 1].game_over() && offered(walk[i + 1].available(), a_next) && (
        epsilon.raw <= 0 ==> a_next == greedy_choice(
            &tables[i],
            trace[i].next_state,
            walk[i + 1].available(),
        )),
        None => walk[i + 1].game_over(),
    }
}

/// Whether `walk` holds the simulation before each step of `trace` and
/// after the last: a reset of `start` leads to the first, the first action
/// is the greedy one for the first table where `epsilon` is not positive,
/// every step is a step of the simulation, and the last is `last`.
pub open spec fn sarsa_walked<E: MonteCarloEnvironment>(
    start: E,
    last: E,
    walk: Seq<E>,
    tables: Seq<QTable>,
    trace: Seq<SarsaStep>,
    epsilon: Fixed,
) -> bool {
    &&& walk.len() == trace.len() + 1
    &&& start.begins(&walk[0])
    &&& walk[trace.len() as int] == last
    &&& trace.len() > 0 && epsilon.raw <= 0 ==> trace[0].action == greedy_choice(
        &tables[0],
        trace[0].state,
        walk[0].available(),
    )
    &&& forall|i: int| 0 <= i < trace.len() ==> #[trigger] sarsa_link(walk, tables, trace, i, epsilon)
}

/// Whether an episode of SARSA that made the steps `trace` leads from the
/// simulation `start` to the simulation `last` and from the table `before`
/// to the table `after`, and earns `total`: the episode is no longer than
/// `cap` and over unless it is that long, `walk` and `tables` hold the
/// simulation and the table before each step and after the last, each step
/// is a step of the simulation by epsilon-greedy selection, each table is
/// what the update of SARSA makes of the one before, the steps form a path,
/// and `total` is the sum of the rewards of the steps.
pub open spec fn sarsa_episode<E: MonteCarloEnvironment>(
    start: E,
    last: E,
    walk: Seq<E>,
    before: QTable,
    after: QTable,
    trace: Seq<SarsaStep>,
    tables: Seq<QTable>,
    rewards: Seq<Fixed>,
    total: Fixed,
    cap: nat,
    epsilon: Fixed,
    gamma: Fixed,
    alpha: Fixed,
) -> bool {
    &&& trace.len() <= cap
    &&& trace.len() < cap ==> last.game_over()
    &&& sarsa_path(trace, last.state(), last.game_over())
    &&& tables.len() == trace.len() + 1
    &&& rewards.len() == trace.len()
    &&& tables[0] == before
    &&& tables[trace.len() as int] == after
    &&& sarsa_walked(start, last, walk, tables, trace, epsilon)
    &&& forall|i: int|
        0 <= i < trace.len() ==> rewards[i] == (#[trigger] trace[i]).reward
            && sarsa_step_learned(&tables[i], &tables[i + 1], trace[i], gamma, alpha)
    &&& total == fixed_sum(rewards, rewards.len() as int)
}

/// One episode of SARSA, cut off after `max_steps` steps: from a reset, an
/// epsilon-greedy action, and then the step, the choice of the next action
/// and the update, one after another until a step ends the episode. Returns
/// the sum of the rewards.
pub fn run_episode<E: MonteCarloEnvironment>(
    env: &mut E,
    q: &mut QTable,
    alpha: Fixed,
    gamma: Fixed,
    epsilon: Fixed,
    max_steps: usize,
    rng: &mut RandomSource,
) -> (total_reward: Fixed)
    requires
        old(env).well_formed(),
    ensures
        final(env).well_formed(),
        final(env).states() == old(env).states(),
        final(env).actions() == old(env).actions(),
        final(env).rewards() == old(env).rewards(),
        old(q).within(old(env).states(), old(env).actions()) ==> final(q).within(
            old(env).states(),
            old(env).actions(),
        ),
        sarsa_ran(
            *old(env),
            *final(env),
            *old(q),
            *final(q),
            total_reward,
            max_steps as nat,
            epsilon,
            gamma,
            alpha,
        ),
{
    env.reset(rng);
    let mut total_reward: Fixed = Fixed { raw: 0 };
    let ghost mut trace: Seq<SarsaStep> = Seq::empty();
    let ghost mut tables: Seq<QTable> = seq![*q];
    let ghost mut rewards: Seq<Fixed> = Seq::empty();
    let ghost mut walk: Seq<E> = seq![*env];
    if env.is_game_over() {
        proof {
            assert(sarsa_episode(
                *old(env),
                *env,
                walk,
                *old(q),
                *q,
                trace,
                tables,
                rewards,
                total_reward,
                max_steps as nat,
                epsilon,
                gamma,
                alpha,
            ));
        }
        return total_reward;
    }
    let mut s: usize = env.state_id();
    let actions: Vec<usize> = env.available_actions();
    let mut a: usize = choose_action(q, s, &actions, epsilon, rng);
    let mut steps: usize = 0;
    proof {
        assert(offered(env.available(), a));
    }
    while steps < max_steps && !env.is_game_over()
        invariant
            env.well_formed(),
            env.states() == old(env).states(),
            env.actions() == old(env).actions(),
            env.rewards() == old(env).rewards(),
            old(q).within(old(env).states(), old(env).actions()) ==> q.within(
                old(env).states(),
                old(env).actions(),
            ),
            steps <= max_steps,
            s < old(env).states(),
            a < old(env).actions(),
            !env.game_over() ==> !env.forbidden(a),
            !env.game_over() ==> s == env.state(),
            !env.game_over() ==> offered(env.available(), a),
            steps == 0 && epsilon.raw <= 0 ==> a == greedy_choice(
                &tables[0],
                s,
                walk[0].available(),
            ),
            trace.len() == steps,
            forall|i: int|
                0 < i < trace.len() ==> (#[trigger] trace[i]).state == trace[i - 1].next_state
                    && trace[i - 1].next_action == Some(trace[i].action),
            steps > 0 ==> trace[steps - 1].next_state == env.state(),
            steps > 0 ==> (trace[steps - 1].next_action is None <==> env.game_over()),
            steps > 0 && !env.game_over() ==> trace[steps - 1].next_action == Some(a),
            steps > 0 && epsilon.raw <= 0 ==> trace[0].action == greedy_choice(
                &tables[0],
                trace[0].state,
                walk[0].available(),
            ),
            tables.len() == steps + 1,
            rewards.len() == steps,
            walk.len() == steps + 1,
            tables[0] == *old(q),
            tables[steps as int] == *q,
            old(env).begins(&walk[0]),
            walk[steps as int] == *env,
            forall|i: int|
                0 <= i < trace.len() ==> #[trigger] sarsa_link(walk, tables, trace, i, epsilon),
            forall|i: int|
                0 <= i < trace.len() ==> rewards[i] == (#[trigger] trace[i]).reward
                    && sarsa_step_learned(&tables[i], &tables[i + 1], trace[i], gamma, alpha),
            total_reward == fixed_sum(rewards, steps as int),
        ensures
            steps < max_steps ==> env.game_over(),
        decreases max_steps - steps,
    {
        let outcome = env.step(a, rng);
        let r: Fixed = outcome.1;
        let s_next: usize = outcome.0;
        proof {
            lemma_fixed_sum_push(rewards, r, steps as int);
            rewards = rewards.push(r);
        }
        total_reward = total_reward.sat_add(r);
        steps = steps + 1;
        if env.is_game_over() {
            update_terminal(q, s, a, r, alpha);
            proof {
                let trace2 = trace.push(
                    SarsaStep { state: s, action: a, reward: r, next_state: s_next, next_action: None },
                );
                let tables2 = tables.push(*q);
                let walk2 = walk.push(*env);
                assert forall|i: int| 0 <= i < trace2.len() implies #[trigger] sarsa_link(
                    walk2,
                    tables2,
                    trace2,
                    i,
                    epsilon,
                ) by {
                    if i < steps - 1 {
                        assert(sarsa_link(walk, tables, trace, i, epsilon));
                        assert(walk2[i] == walk[i]);
                        assert(walk2[i + 1] == walk[i + 1]);
                        assert(tables2[i] == tables[i]);
                        assert(trace2[i] == trace[i]);
                    }
                }
                trace = trace2;
                tables = tables2;
                walk = walk2;
            }
            break;
        }
        let next_actions: Vec<usize> = env.available_actions();
        let a_next: usize = choose_action(q, s_next, &next_actions, epsilon, rng);
        proof {
            assert(offered(env.available(), a_next));
        }
        update_q(q, s, a, r, s_next, a_next, gamma, alpha);
        proof {
            let trace2 = trace.push(
                SarsaStep {
                    state: s,
                    action: a,
                    reward: r,
                    next_state: s_next,
                    next_action: Some(a_next),
                },
            );
            let tables2 = tables.push(*q);
            let walk2 = walk.push(*env);
            assert forall|i: int| 0 <= i < trace2.len() implies #[trigger] sarsa_link(
                walk2,
                tables2,
                trace2,
                i,
                epsilon,
            ) by {
                if i < steps - 1 {
                    assert(sarsa_link(walk, tables, trace, i, epsilon));
                    assert(walk2[i] == walk[i]);
                    assert(walk2[i + 1] == walk[i + 1]);
                    assert(tables2[i] == tables[i]);
                    assert(trace2[i] == trace[i]);
                }
            }
            trace = trace2;
            tables = tables2;
            walk = walk2;
        }
        s = s_next;
        a = a_next;
    }
    proof {
        assert(sarsa_episode(
            *old(env),
            *env,
            walk,
            *old(q),
            *q,
            trace,
            tables,
            rewards,
            total_reward,
            max_steps as nat,
            epsilon,
            gamma,
            alpha,
        ));
    }
    total_reward
}

/// Whether one episode of SARSA, of at most `cap` steps, leads from the
/// simulation `start` to the simulation `last` and from the table `before`
/// to the table `after`, and earns `total`.
pub open spec fn sarsa_ran<E: MonteCarloEnvironment>(
    start: E,
    last: E,
    before: QTable,
    after: QTable,
    total: Fixed,
    cap: nat,
    epsilon: Fixed,
    gamma: Fixed,
    alpha: Fixed,
) -> bool {
    exists|trace: Seq<SarsaStep>, tables: Seq<QTable>, rewards: Seq<Fixed>, walk: Seq<E>| #[trigger]
        sarsa_episode(
            start,
            last,
            walk,
            before,
            after,
            trace,
            tables,
            rewards,
            total,
            cap,
            epsilon,
            gamma,
            alpha,
        )
}

/// Whether `worlds` and `tables` are the simulations and the tables between
/// the episodes of a run of SARSA: the first table is empty, and each
/// episode leads from one to the next and earns the total of its number in
/// `totals`.
pub open spec fn sarsa_chain<E: MonteCarloEnvironment>(
    worlds: Seq<E>,
    tables: Seq<QTable>,
    totals: Seq<Fixed>,
    cap: nat,
    epsilon: Fixed,
    gamma: Fixed,
    alpha: Fixed,
) -> bool {
    &&& worlds.len() == totals.len() + 1
    &&& tables.len() == totals.len() + 1
    &&& tables[0].entries() == Map::<u128, Fixed>::empty()
    &&& forall|k: int|
        0 <= k < totals.len() ==> sarsa_ran(
            worlds[k],
            worlds[k + 1],
            tables[k],
            tables[k + 1],
            #[trigger] totals[k],
            cap,
            epsilon,
            gamma,
            alpha,
        )
}

/// Whether `table` is the table that a run of SARSA ends with, from the
/// simulation `first` and an empty table, through one episode for each of
/// `totals`, the simulation being left as `last`.
pub open spec fn sarsa_trained<E: MonteCarloEnvironment>(
    first: E,
    last: E,
    table: QTable,
    totals: Seq<Fixed>,
    cap: nat,
    epsilon: Fixed,
    gamma: Fixed,
    alpha: Fixed,
) -> bool {
    exists|worlds: Seq<E>, tables: Seq<QTable>| #[trigger]
        sarsa_chain(worlds, tables, totals, cap, epsilon, gamma, alpha) && worlds[0] == first
            && worlds[totals.len() as int] == last && tables[totals.len() as int] == table
}

/// SARSA: `episodes` episodes of at most `max_steps` steps each, behaviour
/// and target both epsilon-greedy: every update moves `Q(s, a)` towards the
/// reward and the discounted value of the action taken next, or towards the
/// reward alone where the step ended the episode.
///
/// Returns the policy that is greedy for the final table in every state,
/// over all actions; the sum of the rewards of each episode; and the table.
/// Fails with `InvalidParameter`, before anything is drawn or stepped, when
/// `gamma` or `epsilon` lies outside the unit interval or the environment
/// has no action.
pub fn sarsa<E: MonteCarloEnvironment>(
    env: &mut E,
    alpha: Fixed,
    gamma: Fixed,
    epsilon: Fixed,
    episodes: usize,
    max_steps: usize,
    rng: &mut RandomSource,
) -> (res: Result<(DeterministicPolicy, Vec<Fixed>, QTable), RlError>)
    requires
        old(env).well_formed(),
    ensures
        final(env).well_formed(),
        final(env).states() == old(env).states(),
        final(env).actions() == old(env).actions(),
        final(env).rewards() == old(env).rewards(),
        match res {
            Ok(out) => {
                &&& admissible(gamma, epsilon, old(env).actions())
                &&& out.0.wf()
                &&& out.0.state_count() == old(env).states()
                &&& out.0.action_count() == old(env).actions()
                &&& out.0@ == greedy_table(&out.2, old(env).states(), action_range(old(env).actions()))
                &&& out.1.len() == episodes
                &&& out.2.within(old(env).states(), old(env).actions())
                &&& sarsa_trained(
                    *old(env),
                    *final(env),
                    out.2,
                    out.1@,
                    max_steps as nat,
                    epsilon,
                    gamma,
                    alpha,
                )
            },
            Err(e) => {
                &&& e == RlError::InvalidParameter
                &&& !admissible(gamma, epsilon, old(env).actions())
                &&& *final(env) == *old(env)
            },
        },
{
    if !gamma.in_unit_interval() || !epsilon.in_unit_interval() || env.num_actions() == 0 {
        return Err(RlError::InvalidParameter);
    }
    let actions: Vec<usize> = all_actions(env.num_actions());
    let mut q: QTable = QTable::new();
    let mut rewards_per_episode: Vec<Fixed> = Vec::new();
    let mut episode: usize = 0;
    let ghost mut tables: Seq<QTable> = seq![q];
    let ghost mut worlds: Seq<E> = seq![*env];
    while episode < episodes
        invariant
            env.well_formed(),
            env.states() == old(env).states(),
            env.actions() == old(env).actions(),
            env.rewards() == old(env).rewards(),
            episode <= episodes,
            rewards_per_episode.len() == episode,
            q.within(old(env).states(), old(env).actions()),
            tables.len() == episode + 1,
            tables[episode as int] == q,
            worlds.len() == episode + 1,
            worlds[0] == *old(env),
            worlds[episode as int] == *env,
            sarsa_chain(
                worlds,
                tables,
                rewards_per_episode@,
                max_steps as nat,
                epsilon,
                gamma,
                alpha,
            ),
        decreases episodes - episode,
    {
        let ghost totals = rewards_per_episode@;
        let total_reward: Fixed = run_episode(env, &mut q, alpha, gamma, epsilon, max_steps, rng);
        rewards_per_episode.push(total_reward);
        proof {
            let longer = tables.push(q);
            let wider = worlds.push(*env);
            assert forall|k: int| 0 <= k < rewards_per_episode@.len() implies sarsa_ran(
                wider[k],
                wider[k + 1],
                longer[k],
                longer[k + 1],
                #[trigger] rewards_per_episode@[k],
                max_steps as nat,
                epsilon,
                gamma,
                alpha,
            ) by {
                if k < episode {
                    assert(wider[k] == worlds[k]);
                    assert(wider[k + 1] == worlds[k + 1]);
                    assert(longer[k] == tables[k]);
                    assert(longer[k + 1] == tables[k + 1]);
                    assert(rewards_per_episode@[k] == totals[k]);
                }
            }
            tables = longer;
            worlds = wider;
        }
        episode = episode + 1;
    }
    proof {
        assert(actions@ =~= action_range(env.actions()));
    }
    let policy: DeterministicPolicy = build_policy(&q, &actions, env);
    Ok((policy, rewards_per_episode, q))
}

} // verus!
