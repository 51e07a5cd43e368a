use vstd::prelude::*;

use crate::algorithms::planning::helpers::all_actions;
use crate::algorithms::planning::helpers::build_policy;
use crate::algorithms::planning::helpers::choose_action;
use crate::algorithms::planning::helpers::greedy_action;
use crate::algorithms::planning::helpers::greedy_choice;
use crate::algorithms::planning::helpers::greedy_table;
use crate::algorithms::planning::model::Transition;
use crate::envs::offered;
use crate::envs::MonteCarloEnvironment;
use crate::error::RlError;
use crate::fixed::fixed_sum;
use crate::fixed::lemma_fixed_sum_push;
use crate::fixed::Fixed;
use crate::policies::DeterministicPolicy;
use crate::qtable::key_of;
use crate::qtable::moved_towards;
use crate::qtable::td_target;
use crate::qtable::QTable;
use crate::random::RandomSource;

verus! {

/// The actions `0 .. count`, in order.
pub open spec fn action_range(count: nat) -> Seq<usize> {
    Seq::new(count, |i: int| i as usize)
}

/// Whether the parameters of a control run are admissible: a discount and
/// an exploration rate in the unit interval, and an environment that has an
/// action to take.
pub open spec fn admissible(gamma: Fixed, epsilon: Fixed, actions: nat) -> bool {
    gamma.is_unit() && epsilon.is_unit() && actions > 0
}

/// `max over a in actions of Q(state, a)`, a pair that was never written
/// counting as zero; zero where there is no action.
pub open spec fn max_value(q: &QTable, state: usize, actions: Seq<usize>) -> Fixed {
    if actions.len() == 0 {
        Fixed { raw: 0 }
    } else {
        q.value(state, greedy_choice(q, state, actions))
    }
}

/// `max over a' of Q(s', a')`.
pub fn compute_max_q(q: &QTable, s_next: usize, actions: &Vec<usize>) -> (best: Fixed)
    ensures
        best == max_value(q, s_next, actions@),
{
    if actions.len() == 0 {
        Fixed { raw: 0 }
    } else {
        q.get(s_next, greedy_action(q, s_next, actions))
    }
}

/// `Q(s, a) += alpha * (r + gamma * max_q_next - Q(s, a))`.
pub fn apply_q_update(
    q: &mut QTable,
    s: usize,
    a: usize,
    reward: Fixed,
    max_q_next: Fixed,
    gamma: Fixed,
    alpha: Fixed,
)
    ensures
        final(q).entries() == old(q).entries().insert(
            key_of(s, a),
            moved_towards(old(q).value(s, a), td_target(reward, gamma, max_q_next), alpha),
        ),
        final(q).contains(s, a),
        final(q).value(s, a) == moved_towards(
            old(q).value(s, a),
            td_target(reward, gamma, max_q_next),
            alpha,
        ),
        forall|t: usize, b: usize|
            !(t == s && b == a) ==> #[trigger] final(q).value(t, b) == old(q).value(t, b),
        forall|t: usize, b: usize|
            !(t == s && b == a) ==> #[trigger] final(q).contains(t, b) == old(q).contains(t, b),
{
    let target: Fixed = reward.sat_add(gamma.sat_mul(max_q_next));
    q.move_towards(s, a, target, alpha);
}

/// `Q(s, a)` after the update of Q-learning for a step from `s` by `a` that
/// earned `reward` and led to `s_next`, where `next_actions` could be taken:
/// `Q(s, a) + alpha * (reward + gamma * max over a' of Q(s_next, a') - Q(s, a))`.
pub open spec fn learned(
    q: &QTable,
    s: usize,
    a: usize,
    reward: Fixed,
    s_next: usize,
    next_actions: Seq<usize>,
    gamma: Fixed,
    alpha: Fixed,
) -> Fixed {
    moved_towards(q.value(s, a), td_target(reward, gamma, max_value(q, s_next, next_actions)), alpha)
}

/// Whether `after` is the table `before` after the update of Q-learning for
/// the step `seen`: changed in the pair that was taken and nowhere else.
pub open spec fn step_learned(
    before: &QTable,
    after: Map<u128, Fixed>,
    seen: Transition,
    gamma: Fixed,
    alpha: Fixed,
) -> bool {
    after == before.entries().insert(
        key_of(seen.state, seen.action),
        learned(
            before,
            seen.state,
            seen.action,
            seen.reward,
            seen.next_state,
            seen.next_actions@,
            gamma,
            alpha,
        ),
    )
}

/// One real step of Q-learning from the current state of `env`: an
/// epsilon-greedy action, the step, and the update of `Q` towards the
/// reward and the discounted best value of the state reached.
///
/// Returns what the step showed. Whatever was drawn, the table has changed
/// as [`step_learned`] says.
pub fn q_learning_step<E: MonteCarloEnvironment>(
    env: &mut E,
    q: &mut QTable,
    alpha: Fixed,
    gamma: Fixed,
    epsilon: Fixed,
    rng: &mut RandomSource,
) -> (seen: Transition)
    requires
        old(env).well_formed(),
        !old(env).game_over(),
    ensures
        final(env).well_formed(),
        final(env).states() == old(env).states(),
        final(env).actions() == old(env).actions(),
        final(env).rewards() == old(env).rewards(),
        seen.state == old(env).state(),
        seen.action < old(env).actions(),
        !old(env).forbidden(seen.action),
        seen.next_state == final(env).state(),
        seen.next_state < old(env).states(),
        seen.elapsed == 0,
        step_learned(old(q), final(q).entries(), seen, gamma, alpha),
        offered(old(env).available(), seen.action),
        epsilon.raw <= 0 ==> seen.action == greedy_choice(
            old(q),
            seen.state,
            old(env).available(),
        ),
        old(env).leads(seen.action, &*final(env), seen.reward),
        seen.next_actions@ == final(env).available(),
        final(q).contains(seen.state, seen.action),
        forall|t: usize, b: usize|
            !(t == seen.state && b == seen.action) ==> #[trigger] final(q).contains(t, b) == old(
                q,
            ).contains(t, b),
        old(q).within(old(env).states(), old(env).actions()) ==> final(q).within(
            old(env).states(),
            old(env).actions(),
        ),
{
    let s: usize = env.state_id();
    let actions: Vec<usize> = env.available_actions();
    let a: usize = choose_action(q, s, &actions, epsilon, rng);
    let outcome = env.step(a, rng);
    let next_actions: Vec<usize> = env.available_actions();
    let max_q_next: Fixed = compute_max_q(q, outcome.0, &next_actions);
    apply_q_update(q, s, a, outcome.1, max_q_next, gamma, alpha);
    Transition {
        state: s,
        action: a,
        reward: outcome.1,
        next_state: outcome.0,
        next_actions,
        elapsed: 0,
    }
}

/// Whether every step of `trace` but the first starts in the state that the
/// step before it reached, and the last of them reached the state `end`.
pub open spec fn path(trace: Seq<Transition>, end: nat) -> bool {
    &&& forall|i: int|
        0 < i < trace.len() ==> (#[trigger] trace[i]).state == trace[i - 1].next_state
    &&& trace.len() > 0 ==> trace[trace.len() - 1].next_state == end
}

/// Whether `seen` is a step of the simulation from `from` to `to` by
/// epsilon-greedy selection for `table`: the episode was not over, the
/// action was on offer, it was the greedy one where `epsilon` is not
/// positive, and the simulation may answer it with the reward and the state
/// that the step records.
pub open spec fn step_link<E: MonteCarloEnvironment>(
    from: E,
    to: E,
    table: &QTable,
    seen: Transition,
    epsilon: Fixed,
) -> bool {
    &&& !from.game_over()
    &&& seen.state == from.state()
    &&& offered(from.available(), seen.action)
    &&& epsilon.raw <= 0 ==> seen.action == greedy_choice(table, seen.state, from.available())
    &&& from.leads(seen.action, &to, seen.reward)
    &&& seen.next_state == to.state()
    &&& seen.next_actions@ == to.available()
}

/// Whether step `i` of `trace` is a step of the simulation from `walk[i]` to
/// `walk[i + 1]` by epsilon-greedy selection for the table `tables[i]`.
pub open spec fn walk_link<E: MonteCarloEnvironment>(
    walk: Seq<E>,
    tables: Seq<QTable>,
    trace: Seq<Transition>,
    i: int,
    epsilon: Fixed,
) -> bool {
    step_link(walk[i], walk[i + 1], &tables[i], trace[i], epsilon)
}

/// Whether `walk` holds the simulation before each step of `trace` and
/// after the last: a reset of `start` leads to the first, every step is a
/// step of the simulation, and the last is `last`.
pub open spec fn walked<E: MonteCarloEnvironment>(
    start: E,
    last: E,
    walk: Seq<E>,
    tables: Seq<QTable>,
    trace: Seq<Transition>,
    epsilon: Fixed,
) -> bool {
    &&& walk.len() == trace.len() + 1
    &&& start.begins(&walk[0])
    &&& walk[trace.len() as int] == last
    &&& forall|i: int| 0 <= i < trace.len() ==> #[trigger] walk_link(walk, tables, trace, i, epsilon)
}

/// Whether an episode of Q-learning that made the steps `trace` leads from
/// the simulation `start` to the simulation `last` and from the table
/// `before` to the table `after`, and earns `total`: the episode is no
/// longer than `cap` and over unless it is that long, `walk` and `tables`
/// hold the simulation and the table before each step and after the last,
/// each step is a step of the simulation by epsilon-greedy selection, each
/// table is what the update of Q-learning makes of the one before, and
/// `total` is the sum of the rewards of the steps.
pub open spec fn q_learning_episode<E: MonteCarloEnvironment>(
    start: E,
    last: E,
    walk: Seq<E>,
    before: QTable,
    after: QTable,
    trace: Seq<Transition>,
    tables: Seq<QTable>,
    rewards: Seq<Fixed>,
    total: Fixed,
    cap: nat,
    epsilon: Fixed,
    gamma: Fixed,
    alpha: Fixed,
) -> bool {
    &&& trace.len() <= cap
    &&& trace.len() < cap ==> last.game_over()
    &&& path(trace, last.state())
    &&& tables.len() == trace.len() + 1
    &&& rewards.len() == trace.len()
    &&& tables[0] == before
    &&& tables[trace.len() as int] == after
    &&& walked(start, last, walk, tables, trace, epsilon)
    &&& forall|i: int|
        0 <= i < trace.len() ==> rewards[i] == (#[trigger] trace[i]).reward && step_learned(
            &tables[i],
            tables[i + 1].entries(),
            trace[i],
            gamma,
            alpha,
        )
    &&& total == fixed_sum(rewards, rewards.len() as int)
}

/// Whether one episode of Q-learning, of at most `cap` steps, leads from the
/// simulation `start` to the simulation `last` and from the table `before`
/// to the table `after`, and earns `total`.
pub open spec fn q_learning_ran<E: MonteCarloEnvironment>(
    start: E,
    last: E,
    before: QTable,
    after: QTable,
    total: Fixed,
    cap: nat,
    epsilon: Fixed,
    gamma: Fixed,
    alpha: Fixed,
) -> bool {
    exists|trace: Seq<Transition>, tables: Seq<QTable>, rewards: Seq<Fixed>, walk: Seq<E>| #[trigger]
        q_learning_episode(
            start,
            last,
            walk,
            before,
            after,
            trace,
            tables,
            rewards,
            total,
            cap,
            epsilon,
            gamma,
            alpha,
        )
}

/// Whether `worlds` and `tables` are the simulations and the tables between
/// the episodes of a run of Q-learning: the first table is empty, and each
/// episode leads from one to the next and earns the total of its number in
/// `totals`.
pub open spec fn q_learning_chain<E: MonteCarloEnvironment>(
    worlds: Seq<E>,
    tables: Seq<QTable>,
    totals: Seq<Fixed>,
    cap: nat,
    epsilon: Fixed,
    gamma: Fixed,
    alpha: Fixed,
) -> bool {
    &&& worlds.len() == totals.len() + 1
    &&& tables.len() == totals.len() + 1
    &&& tables[0].entries() == Map::<u128, Fixed>::empty()
    &&& forall|k: int|
        0 <= k < totals.len() ==> q_learning_ran(
            worlds[k],
            worlds[k + 1],
            tables[k],
            tables[k + 1],
            #[trigger] totals[k],
            cap,
            epsilon,
            gamma,
            alpha,
        )
}

/// Whether `table` is the table that a run of Q-learning ends with, from the
/// simulation `first` and an empty table, through one episode for each of
/// `totals`, the simulation being left as `last`.
pub open spec fn q_learning_trained<E: MonteCarloEnvironment>(
    first: E,
    last: E,
    table: QTable,
    totals: Seq<Fixed>,
    cap: nat,
    epsilon: Fixed,
    gamma: Fixed,
    alpha: Fixed,
) -> bool {
    exists|worlds: Seq<E>, tables: Seq<QTable>| #[trigger]
        q_learning_chain(worlds, tables, totals, cap, epsilon, gamma, alpha) && worlds[0] == first
            && worlds[totals.len() as int] == last && tables[totals.len() as int] == table
}

/// One episode of Q-learning, cut off after `max_steps` steps: from a reset,
/// one step of Q-learning after another until the environment says that the
/// episode is over. Returns the sum of the rewards.
pub fn run_episode<E: MonteCarloEnvironment>(
    env: &mut E,
    q: &mut QTable,
    alpha: Fixed,
    gamma: Fixed,
    epsilon: Fixed,
    max_steps: usize,
    rng: &mut RandomSource,
) -> (total_reward: Fixed)
    requires
        old(env).well_formed(),
    ensures
        final(env).well_formed(),
        final(env).states() == old(env).states(),
        final(env).actions() == old(env).actions(),
        final(env).rewards() == old(env).rewards(),
        old(q).within(old(env).states(), old(env).actions()) ==> final(q).within(
            old(env).states(),
            old(env).actions(),
        ),
        q_learning_ran(
            *old(env),
            *final(env),
            *old(q),
            *final(q),
            total_reward,
            max_steps as nat,
            epsilon,
            gamma,
            alpha,
        ),
{
    env.reset(rng);
    let mut total_reward: Fixed = Fixed { raw: 0 };
    let mut steps: usize = 0;
    let ghost mut trace: Seq<Transition> = Seq::empty();
    let ghost mut tables: Seq<QTable> = seq![*q];
    let ghost mut rewards: Seq<Fixed> = Seq::empty();
    let ghost mut walk: Seq<E> = seq![*env];
    while steps < max_steps && !env.is_game_over()
        invariant
            env.well_formed(),
            env.states() == old(env).states(),
            env.actions() == old(env).actions(),
            env.rewards() == old(env).rewards(),
            old(q).within(old(env).states(), old(env).actions()) ==> q.within(
                old(env).states(),
                old(env).actions(),
            ),
            steps <= max_steps,
            trace.len() == steps,
            path(trace, env.state()),
            tables.len() == steps + 1,
            rewards.len() == steps,
            tables[0] == *old(q),
            tables[steps as int] == *q,
            walk.len() == steps + 1,
            old(env).begins(&walk[0]),
            walk[steps as int] == *env,
            forall|i: int|
                0 <= i < trace.len() ==> #[trigger] walk_link(walk, tables, trace, i, epsilon),
            forall|i: int|
                0 <= i < trace.len() ==> rewards[i] == (#[trigger] trace[i]).reward && step_learned(
                    &tables[i],
                    tables[i + 1].entries(),
                    trace[i],
                    gamma,
                    alpha,
                ),
            total_reward == fixed_sum(rewards, steps as int),
        decreases max_steps - steps,
    {
        let seen: Transition = q_learning_step(env, q, alpha, gamma, epsilon, rng);
        proof {
            lemma_fixed_sum_push(rewards, seen.reward, steps as int);
            let trace2 = trace.push(seen);
            let tables2 = tables.push(*q);
            let walk2 = walk.push(*env);
            assert forall|i: int| 0 <= i < trace2.len() implies #[trigger] walk_link(
                walk2,
                tables2,
                trace2,
                i,
                epsilon,
            ) by {
                if i < steps {
                    assert(walk_link(walk, tables, trace, i, epsilon));
                    assert(walk2[i] == walk[i]);
                    assert(walk2[i + 1] == walk[i + 1]);
                    assert(tables2[i] == tables[i]);
                    assert(trace2[i] == trace[i]);
                }
            }
            trace = trace2;
            tables = tables2;
            walk = walk2;
            rewards = rewards.push(seen.reward);
        }
        total_reward = total_reward.sat_add(seen.reward);
        steps = steps + 1;
    }
    proof {
        assert(q_learning_episode(
            *old(env),
            *env,
            walk,
            *old(q),
            *q,
            trace,
            tables,
            rewards,
            total_reward,
            max_steps as nat,
            epsilon,
            gamma,
            alpha,
        ));
    }
    total_reward
}

/// Q-learning: `episodes` episodes of at most `max_steps` steps each, the
/// behaviour epsilon-greedy and the target of every update the best value of
/// the state reached.
///
/// Returns the policy that is greedy for the final table in every state,
/// over all actions; the sum of the rewards of each episode; and the table.
/// Fails with `InvalidParameter`, before anything is drawn or stepped, when
/// `gamma` or `epsilon` lies outside the unit interval or the environment
/// has no action.
pub fn q_learning<E: MonteCarloEnvironment>(
    env: &mut E,
    alpha: Fixed,
    gamma: Fixed,
    epsilon: Fixed,
    episodes: usize,
    max_steps: usize,
    rng: &mut RandomSource,
) -> (res: Result<(DeterministicPolicy, Vec<Fixed>, QTable), RlError>)
    requires
        old(env).well_formed(),
    ensures
        final(env).well_formed(),
        final(env).states() == old(env).states(),
        final(env).actions() == old(env).actions(),
        final(env).rewards() == old(env).rewards(),
        match res {
            Ok(out) => {
                &&& admissible(gamma, epsilon, old(env).actions())
                &&& out.0.wf()
                &&& out.0.state_count() == old(env).states()
                &&& out.0.action_count() == old(env).actions()
                &&& out.0@ == greedy_table(&out.2, old(env).states(), action_range(old(env).actions()))
                &&& out.1.len() == episodes
                &&& out.2.within(old(env).states(), old(env).actions())
                &&& q_learning_trained(
                    *old(env),
                    *final(env),
                    out.2,
                    out.1@,
                    max_steps as nat,
                    epsilon,
                    gamma,
                    alpha,
                )
            },
            Err(e) => {
                &&& e == RlError::InvalidParameter
                &&& !admissible(gamma, epsilon, old(env).actions())
                &&& *final(env) == *old(env)
            },
        },
{
    if !gamma.in_unit_interval() || !epsilon.in_unit_interval() || env.num_actions() == 0 {
        return Err(RlError::InvalidParameter);
    }
    let actions: Vec<usize> = all_actions(env.num_actions());
    let mut q: QTable = QTable::new();
    let mut rewards_per_episode: Vec<Fixed> = Vec::new();
    let mut episode: usize = 0;
    let ghost mut tables: Seq<QTable> = seq![q];
    let ghost mut worlds: Seq<E> = seq![*env];
    while episode < episodes
        invariant
            env.well_formed(),
            env.states() == old(env).states(),
            env.actions() == old(env).actions(),
            env.rewards() == old(env).rewards(),
            episode <= episodes,
            rewards_per_episode.len() == episode,
            q.within(old(env).states(), old(env).actions()),
            tables.len() == episode + 1,
            tables[episode as int] == q,
            worlds.len() == episode + 1,
            worlds[0] == *old(env),
            worlds[episode as int] == *env,
            q_learning_chain(
                worlds,
                tables,
                rewards_per_episode@,
                max_steps as nat,
                epsilon,
                gamma,
                alpha,
            ),
        decreases episodes - episode,
    {
        let ghost totals = rewards_per_episode@;
        let total_reward: Fixed = run_episode(env, &mut q, alpha, gamma, epsilon, max_steps, rng);
        rewards_per_episode.push(total_reward);
        proof {
            let longer = tables.push(q);
            let wider = worlds.push(*env);
            assert forall|k: int| 0 <= k < rewards_per_episode@.len() implies q_learning_ran(
                wider[k],
                wider[k + 1],
                longer[k],
                longer[k + 1],
                #[trigger] rewards_per_episode@[k],
                max_steps as nat,
                epsilon,
                gamma,
                alpha,
            ) by {
                if k < episode {
                    assert(wider[k] == worlds[k]);
                    assert(wider[k + 1] == worlds[k + 1]);
                    assert(longer[k] == tables[k]);
                    assert(longer[k + 1] == tables[k + 1]);
                    assert(rewards_per_episode@[k] == totals[k]);
                }
            }
            tables = longer;
            worlds = wider;
        }
        episode = episode + 1;
    }
    proof {
        assert(actions@ =~= action_range(env.actions()));
    }
    let policy: DeterministicPolicy = build_policy(&q, &actions, env);
    Ok((policy, rewards_per_episode, q))
}

} // verus!
