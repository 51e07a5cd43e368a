use vstd::prelude::*;

use crate::algorithms::planning::helpers::all_actions;
use crate::algorithms::planning::helpers::build_policy;
use crate::algorithms::planning::helpers::greedy_table;
use crate::algorithms::planning::dyna_q_plus::replayed_plus;
use crate::algorithms::planning::model::entries_within;
use crate::algorithms::planning::model::records;
use crate::algorithms::planning::model::records_and_ages;
use crate::algorithms::planning::model::Model;
use crate::algorithms::planning::model::Transition;
use crate::algorithms::td::q_learning::action_range;
use crate::algorithms::td::q_learning::admissible;
use crate::algorithms::td::q_learning::apply_q_update;
use crate::algorithms::td::q_learning::compute_max_q;
use crate::algorithms::td::q_learning::learned;
use crate::algorithms::td::q_learning::path;
use crate::algorithms::td::q_learning::q_learning_chain;
use crate::algorithms::td::q_learning::q_learning_episode;
use crate::algorithms::td::q_learning::q_learning_ran;
use crate::algorithms::td::q_learning::q_learning_trained;
use crate::algorithms::td::q_learning::q_learning_step;
use crate::algorithms::td::q_learning::step_link;
use crate::algorithms::td::q_learning::walk_link;
use crate::algorithms::td::q_learning::walked;
use crate::algorithms::td::q_learning::step_learned;
use crate::envs::MonteCarloEnvironment;
use crate::error::RlError;
use crate::fixed::fixed_sum;
use crate::fixed::lemma_fixed_sum_push;
use crate::fixed::Fixed;
use crate::policies::DeterministicPolicy;
use crate::qtable::key_of;
use crate::qtable::QTable;
use crate::random::RandomSource;

verus! {

/// The update of Q-learning for one transition, real or replayed:
/// `Q(s, a) += alpha * (r + gamma * max over a' of Q(s', a') - Q(s, a))`.
pub fn update_q(
    q: &mut QTable,
    s: usize,
    a: usize,
    reward: Fixed,
    s_next: usize,
    next_actions: &Vec<usize>,
    gamma: Fixed,
    alpha: Fixed,
)
    ensures
        final(q).entries() == old(q).entries().insert(
            key_of(s, a),
            learned(old(q), s, a, reward, s_next, next_actions@, gamma, alpha),
        ),
        final(q).contains(s, a),
        forall|t: usize, b: usize|
            !(t == s && b == a) ==> #[trigger] final(q).contains(t, b) == old(q).contains(t, b),
{
    let max_q_next: Fixed = compute_max_q(q, s_next, next_actions);
    apply_q_update(q, s, a, reward, max_q_next, gamma, alpha);
}

/// Replays the outcome at position `at` of the model: the update that a
/// real step with that outcome would make.
pub fn replay(q: &mut QTable, model: &Model, at: usize, gamma: Fixed, alpha: Fixed)
    requires
        at < model@.len(),
    ensures
        final(q).entries() == old(q).entries().insert(
            key_of(model@[at as int].state, model@[at as int].action),
            learned(
                old(q),
                model@[at as int].state,
                model@[at as int].action,
                model@[at as int].reward,
                model@[at as int].next_state,
                model@[at as int].next_actions@,
                gamma,
                alpha,
            ),
        ),
        forall|states: nat, actions: nat|
            old(q).within(states, actions) && entries_within(model@, states, actions)
                ==> #[trigger] final(q).within(states, actions),
{
    let t: &Transition = model.entry(at);
    update_q(q, t.state, t.action, t.reward, t.next_state, &t.next_actions, gamma, alpha);
}

/// Whether `after` is `before` with the outcome at some position of the
/// model replayed.
pub open spec fn replayed(
    before: Map<u128, Fixed>,
    after: Map<u128, Fixed>,
    q: &QTable,
    model: Seq<Transition>,
    gamma: Fixed,
    alpha: Fixed,
) -> bool {
    exists|at: int|
        0 <= at < model.len() && after == before.insert(
            key_of((#[trigger] model[at]).state, model[at].action),
            learned(
                q,
                model[at].state,
                model[at].action,
                model[at].reward,
                model[at].next_state,
                model[at].next_actions@,
                gamma,
                alpha,
            ),
        )
}

/// One planning step: replays an outcome drawn uniformly from those the
/// model holds.
pub fn planning_step(
    q: &mut QTable,
    model: &Model,
    gamma: Fixed,
    alpha: Fixed,
    rng: &mut RandomSource,
)
    requires
        model@.len() > 0,
    ensures
        replayed(old(q).entries(), final(q).entries(), old(q), model@, gamma, alpha),
        forall|states: nat, actions: nat|
            old(q).within(states, actions) && entries_within(model@, states, actions)
                ==> #[trigger] final(q).within(states, actions),
{
    let at: usize = rng.below(model.len());
    replay(q, model, at, gamma, alpha);
}

/// Whether planning step number `j` leads from table `j` of `plans` to the
/// next: a replay of an outcome of `model`, with the bonus scaled by the
/// value of `bonus` where there is one.
pub open spec fn replay_link(
    plans: Seq<QTable>,
    j: int,
    model: Seq<Transition>,
    bonus: Option<Fixed>,
    gamma: Fixed,
    alpha: Fixed,
) -> bool {
    match bonus {
        None => replayed(plans[j].entries(), plans[j + 1].entries(), &plans[j], model, gamma, alpha),
        Some(kappa) => replayed_plus(
            plans[j].entries(),
            plans[j + 1].entries(),
            &plans[j],
            model,
            gamma,
            alpha,
            kappa,
        ),
    }
}

/// Whether `plans` are the tables that `planning_steps` planning steps pass
/// through.
pub open spec fn planned_through(
    plans: Seq<QTable>,
    model: Seq<Transition>,
    planning_steps: nat,
    bonus: Option<Fixed>,
    gamma: Fixed,
    alpha: Fixed,
) -> bool {
    &&& plans.len() == planning_steps + 1
    &&& forall|j: int|
        0 <= j < planning_steps ==> #[trigger] replay_link(plans, j, model, bonus, gamma, alpha)
}

/// Whether the model `after` is what a real step that showed `seen` makes
/// of the model `before`: the model holds `seen` for its pair; where there
/// is a bonus, the counts of steps are brought up to date as well.
pub open spec fn model_kept(
    before: Seq<Transition>,
    after: Seq<Transition>,
    seen: Transition,
    bonus: Option<Fixed>,
) -> bool {
    match bonus {
        None => records(before, after, seen),
        Some(_) => records_and_ages(before, after, seen),
    }
}

/// Whether a real step that showed `seen`, with the planning that follows
/// it, leads from the table `before` to the table `after` and from the model
/// `model_before` to the model `model_after`: the update of Q-learning for
/// `seen`, the outcome kept in the model, and then `planning_steps` replays
/// of outcomes of that model.
pub open spec fn dyna_stepped(
    before: QTable,
    after: QTable,
    model_before: Seq<Transition>,
    model_after: Seq<Transition>,
    seen: Transition,
    planning_steps: nat,
    bonus: Option<Fixed>,
    gamma: Fixed,
    alpha: Fixed,
) -> bool {
    &&& model_kept(model_before, model_after, seen, bonus)
    &&& exists|plans: Seq<QTable>| #[trigger]
        planned_through(plans, model_after, planning_steps, bonus, gamma, alpha) && step_learned(
            &before,
            plans[0].entries(),
            seen,
            gamma,
            alpha,
        ) && plans[planning_steps as int] == after
}

/// Whether some real step of the simulation from `from` to `to` that earned
/// `reward`, with the planning that follows it, leads from the table
/// `before` to the table `after` and from the model `model_before` to the
/// model `model_after`.
pub open spec fn dyna_step_made<E: MonteCarloEnvironment>(
    from: E,
    to: E,
    before: QTable,
    after: QTable,
    model_before: Seq<Transition>,
    model_after: Seq<Transition>,
    reward: Fixed,
    planning_steps: nat,
    bonus: Option<Fixed>,
    epsilon: Fixed,
    gamma: Fixed,
    alpha: Fixed,
) -> bool {
    exists|seen: Transition|
        seen.reward == reward && step_link(from, to, &before, seen, epsilon)
            && #[trigger] dyna_stepped(
            before,
            after,
            model_before,
            model_after,
            seen,
            planning_steps,
            bonus,
            gamma,
            alpha,
        )
}

/// One real step of Dyna-Q and the planning that follows it: the step and
/// update of Q-learning, the outcome recorded in the model, and
/// `planning_steps` replays of outcomes drawn from the model.
///
/// Returns the reward of the real step. Without planning the table changes
/// exactly as one step of Q-learning changes it.
pub fn dyna_q_step<E: MonteCarloEnvironment>(
    env: &mut E,
    q: &mut QTable,
    model: &mut Model,
    alpha: Fixed,
    gamma: Fixed,
    epsilon: Fixed,
    planning_steps: usize,
    rng: &mut RandomSource,
) -> (reward: Fixed)
    requires
        old(env).well_formed(),
        !old(env).game_over(),
        old(model).wf(),
    ensures
        final(env).well_formed(),
        final(env).states() == old(env).states(),
        final(env).actions() == old(env).actions(),
        final(env).rewards() == old(env).rewards(),
        final(model).wf(),
        final(model)@.len() > 0,
        old(q).within(old(env).states(), old(env).actions()) && entries_within(
            old(model)@,
            old(env).states(),
            old(env).actions(),
        ) ==> final(q).within(old(env).states(), old(env).actions()) && entries_within(
            final(model)@,
            old(env).states(),
            old(env).actions(),
        ),
        final(model)@.len() >= old(model)@.len(),
        dyna_step_made(
            *old(env),
            *final(env),
            *old(q),
            *final(q),
            old(model)@,
            final(model)@,
            reward,
            planning_steps as nat,
            None,
            epsilon,
            gamma,
            alpha,
        ),
{
    let seen: Transition = q_learning_step(env, q, alpha, gamma, epsilon, rng);
    let reward: Fixed = seen.reward;
    let ghost shown = seen;
    let ghost learnt = q.entries();
    model.record(seen);
    let mut planned: usize = 0;
    let ghost mut plans: Seq<QTable> = seq![*q];
    let ghost kept = model@;
    while planned < planning_steps
        invariant
            planned <= planning_steps,
            model.wf(),
            model@.len() > 0,
            model@ == kept,
            planned == 0 ==> q.entries() == learnt,
            plans.len() == planned + 1,
            plans[0].entries() == learnt,
            plans[planned as int] == *q,
            forall|j: int|
                0 <= j < planned ==> #[trigger] replay_link(
                    plans,
                    j,
                    kept,
                    None,
                    gamma,
                    alpha,
                ),
            old(q).within(old(env).states(), old(env).actions()) && entries_within(
                old(model)@,
                old(env).states(),
                old(env).actions(),
            ) ==> q.within(old(env).states(), old(env).actions()) && entries_within(
                model@,
                old(env).states(),
                old(env).actions(),
            ),
        decreases planning_steps - planned,
    {
        planning_step(q, model, gamma, alpha, rng);
        proof {
            let longer = plans.push(*q);
            assert forall|j: int| 0 <= j < planned + 1 implies #[trigger] replay_link(
                longer,
                j,
                kept,
                None,
                gamma,
                alpha,
            ) by {
                if j < planned {
                    assert(replay_link(plans, j, kept, None, gamma, alpha));
                    assert(longer[j] == plans[j]);
                    assert(longer[j + 1] == plans[j + 1]);
                }
            }
            plans = longer;
        }
        planned = planned + 1;
    }
    proof {
        assert(records(old(model)@, model@, shown));
        assert(planned_through(plans, model@, planning_steps as nat, None, gamma, alpha));
        assert(dyna_stepped(
            *old(q),
            *q,
            old(model)@,
            model@,
            shown,
            planning_steps as nat,
            None,
            gamma,
            alpha,
        ));
        assert(step_link(*old(env), *env, old(q), shown, epsilon));
    }
    reward
}

/// Whether an episode of Dyna-Q, or of Dyna-Q+ where there is a bonus, that
/// made the real steps `trace` leads from the simulation `start` to the
/// simulation `last`, from the table `before` to the table `after` and from
/// the model `model_before` to the model `model_after`, and earns `total`:
/// the episode is no longer than `cap` and over unless it is that long;
/// `walk`, `tables` and `models` hold the simulation, the table and the
/// model before each real step and after the last; each step is a step of
/// the simulation by epsilon-greedy selection, and the table and the model
/// after it are what the step and its planning make of those before; and
/// `total` is the sum of the rewards of the steps.
pub open spec fn dyna_episode<E: MonteCarloEnvironment>(
    start: E,
    last: E,
    walk: Seq<E>,
    before: QTable,
    after: QTable,
    model_before: Seq<Transition>,
    model_after: Seq<Transition>,
    trace: Seq<Transition>,
    tables: Seq<QTable>,
    models: Seq<Seq<Transition>>,
    rewards: Seq<Fixed>,
    total: Fixed,
    cap: nat,
    planning_steps: nat,
    bonus: Option<Fixed>,
    epsilon: Fixed,
    gamma: Fixed,
    alpha: Fixed,
) -> bool {
    &&& trace.len() <= cap
    &&& trace.len() < cap ==> last.game_over()
    &&& path(trace, last.state())
    &&& tables.len() == trace.len() + 1
    &&& models.len() == trace.len() + 1
    &&& rewards.len() == trace.len()
    &&& tables[0] == before
    &&& tables[trace.len() as int] == after
    &&& models[0] == model_before
    &&& models[trace.len() as int] == model_after
    &&& walked(start, last, walk, tables, trace, epsilon)
    &&& forall|i: int|
        0 <= i < trace.len() ==> rewards[i] == (#[trigger] trace[i]).reward && dyna_stepped(
            tables[i],
            tables[i + 1],
            models[i],
            models[i + 1],
            trace[i],
            planning_steps,
            bonus,
            gamma,
            alpha,
        )
    &&& total == fixed_sum(rewards, rewards.len() as int)
}

/// Whether one episode of Dyna-Q, or of Dyna-Q+ where there is a bonus, of
/// at most `cap` real steps, leads from the simulation `start` to the
/// simulation `last`, from the table `before` to the table `after` and from
/// the model `model_before` to the model `model_after`, and earns `total`.
pub open spec fn dyna_ran<E: MonteCarloEnvironment>(
    start: E,
    last: E,
    before: QTable,
    after: QTable,
    model_before: Seq<Transition>,
    model_after: Seq<Transition>,
    total: Fixed,
    cap: nat,
    planning_steps: nat,
    bonus: Option<Fixed>,
    epsilon: Fixed,
    gamma: Fixed,
    alpha: Fixed,
) -> bool {
    exists|
        trace: Seq<Transition>,
        tables: Seq<QTable>,
        models: Seq<Seq<Transition>>,
        rewards: Seq<Fixed>,
        walk: Seq<E>,
    | #[trigger]
        dyna_episode(
            start,
            last,
            walk,
            before,
            after,
            model_before,
            model_after,
            trace,
            tables,
            models,
            rewards,
            total,
            cap,
            planning_steps,
            bonus,
            epsilon,
            gamma,
            alpha,
        )
}

/// One episode of Dyna-Q, cut off after `max_steps` real steps: from a
/// reset, one step of Dyna-Q after another until the environment says that
/// the episode is over. Returns the sum of the rewards.
///
/// The model forgets nothing. Without planning the episode is an episode of
/// Q-learning.
pub fn run_episode<E: MonteCarloEnvironment>(
    env: &mut E,
    q: &mut QTable,
    model: &mut Model,
    alpha: Fixed,
    gamma: Fixed,
    epsilon: Fixed,
    planning_steps: usize,
    max_steps: usize,
    rng: &mut RandomSource,
) -> (total_reward: Fixed)
    requires
        old(env).well_formed(),
        old(model).wf(),
    ensures
        final(env).well_formed(),
        final(env).states() == old(env).states(),
        final(env).actions() == old(env).actions(),
        final(env).rewards() == old(env).rewards(),
        final(model).wf(),
        old(q).within(old(env).states(), old(env).actions()) && entries_within(
            old(model)@,
            old(env).states(),
            old(env).actions(),
        ) ==> final(q).within(old(env).states(), old(env).actions()) && entries_within(
            final(model)@,
            old(env).states(),
            old(env).actions(),
        ),
        final(model)@.len() >= old(model)@.len(),
        dyna_ran(
            *old(env),
            *final(env),
            *old(q),
            *final(q),
            old(model)@,
            final(model)@,
            total_reward,
            max_steps as nat,
            planning_steps as nat,
            None,
            epsilon,
            gamma,
            alpha,
        ),
        planning_steps == 0 ==> q_learning_ran(
            *old(env),
            *final(env),
            *old(q),
            *final(q),
            total_reward,
            max_steps as nat,
            epsilon,
            gamma,
            alpha,
        ),
{
    env.reset(rng);
    let mut total_reward: Fixed = Fixed { raw: 0 };
    let mut steps: usize = 0;
    let ghost bonus: Option<Fixed> = None;
    let ghost mut trace: Seq<Transition> = Seq::empty();
    let ghost mut tables: Seq<QTable> = seq![*q];
    let ghost mut models: Seq<Seq<Transition>> = seq![model@];
    let ghost mut rewards: Seq<Fixed> = Seq::empty();
    let ghost mut walk: Seq<E> = seq![*env];
    while steps < max_steps && !env.is_game_over()
        invariant
            env.well_formed(),
            env.states() == old(env).states(),
            env.actions() == old(env).actions(),
            env.rewards() == old(env).rewards(),
            model.wf(),
            old(q).within(old(env).states(), old(env).actions()) && entries_within(
                old(model)@,
                old(env).states(),
                old(env).actions(),
            ) ==> q.within(old(env).states(), old(env).actions()) && entries_within(
                model@,
                old(env).states(),
                old(env).actions(),
            ),
            steps <= max_steps,
            model@.len() >= old(model)@.len(),
            bonus == None::<Fixed>,
            trace.len() == steps,
            path(trace, env.state()),
            tables.len() == steps + 1,
            models.len() == steps + 1,
            rewards.len() == steps,
            walk.len() == steps + 1,
            tables[0] == *old(q),
            tables[steps as int] == *q,
            models[0] == old(model)@,
            models[steps as int] == model@,
            old(env).begins(&walk[0]),
            walk[steps as int] == *env,
            forall|i: int|
                0 <= i < trace.len() ==> #[trigger] walk_link(walk, tables, trace, i, epsilon),
            forall|i: int|
                0 <= i < trace.len() ==> rewards[i] == (#[trigger] trace[i]).reward
                    && dyna_stepped(
                    tables[i],
                    tables[i + 1],
                    models[i],
                    models[i + 1],
                    trace[i],
                    planning_steps as nat,
                    bonus,
                    gamma,
                    alpha,
                ),
            total_reward == fixed_sum(rewards, steps as int),
        decreases max_steps - steps,
    {
        let ghost before = *q;
        let ghost known = model@;
        let ghost from = *env;
        let reward: Fixed = dyna_q_step(
            env,
            q,
            model,
            alpha,
            gamma,
            epsilon,
            planning_steps,
            rng,
        );
        proof {
            let seen = choose|seen: Transition|
                seen.reward == reward && step_link(from, *env, &before, seen, epsilon)
                    && #[trigger] dyna_stepped(
                    before,
                    *q,
                    known,
                    model@,
                    seen,
                    planning_steps as nat,
                    bonus,
                    gamma,
                    alpha,
                );
            lemma_fixed_sum_push(rewards, reward, steps as int);
            let trace2 = trace.push(seen);
            let tables2 = tables.push(*q);
            let models2 = models.push(model@);
            let rewards2 = rewards.push(reward);
            let walk2 = walk.push(*env);
            assert forall|i: int| 0 <= i < trace2.len() implies #[trigger] walk_link(
                walk2,
                tables2,
                trace2,
                i,
                epsilon,
            ) by {
                if i < steps {
                    assert(walk_link(walk, tables, trace, i, epsilon));
                    assert(walk2[i] == walk[i]);
                    assert(walk2[i + 1] == walk[i + 1]);
                    assert(tables2[i] == tables[i]);
                    assert(trace2[i] == trace[i]);
                }
            }
            assert forall|i: int| 0 <= i < trace2.len() implies rewards2[i] == (
            #[trigger] trace2[i]).reward && dyna_stepped(
                tables2[i],
                tables2[i + 1],
                models2[i],
                models2[i + 1],
                trace2[i],
                planning_steps as nat,
                bonus,
                gamma,
                alpha,
            ) by {
                if i < steps {
                    assert(trace2[i] == trace[i]);
                    assert(tables2[i] == tables[i]);
                    assert(tables2[i + 1] == tables[i + 1]);
                    assert(models2[i] == models[i]);
                    assert(models2[i + 1] == models[i + 1]);
                    assert(rewards2[i] == rewards[i]);
                }
            }
            trace = trace2;
            tables = tables2;
            models = models2;
            rewards = rewards2;
            walk = walk2;
        }
        total_reward = total_reward.sat_add(reward);
        steps = steps + 1;
    }
    proof {
        assert(dyna_episode(
            *old(env),
            *env,
            walk,
            *old(q),
            *q,
            old(model)@,
            model@,
            trace,
            tables,
            models,
            rewards,
            total_reward,
            max_steps as nat,
            planning_steps as nat,
            bonus,
            epsilon,
            gamma,
            alpha,
        ));
        if planning_steps == 0 {
            assert forall|i: int| 0 <= i < trace.len() implies rewards[i] == (
            #[trigger] trace[i]).reward && step_learned(
                &tables[i],
                tables[i + 1].entries(),
                trace[i],
                gamma,
                alpha,
            ) by {
                assert(dyna_stepped(
                    tables[i],
                    tables[i + 1],
                    models[i],
                    models[i + 1],
                    trace[i],
                    0,
                    bonus,
                    gamma,
                    alpha,
                ));
            }
            assert(q_learning_episode(
                *old(env),
                *env,
                walk,
                *old(q),
                *q,
                trace,
                tables,
                rewards,
                total_reward,
                max_steps as nat,
                epsilon,
                gamma,
                alpha,
            ));
        }
    }
    total_reward
}

/// Whether `worlds`, `tables` and `models` are the simulations, the tables
/// and the models between the episodes of a run of Dyna-Q, or of Dyna-Q+
/// where there is a bonus: the first table and the first model are empty,
/// and each episode leads from one to the next and earns the total of its
/// number in `totals`.
pub open spec fn dyna_chain<E: MonteCarloEnvironment>(
    worlds: Seq<E>,
    tables: Seq<QTable>,
    models: Seq<Seq<Transition>>,
    totals: Seq<Fixed>,
    cap: nat,
    planning_steps: nat,
    bonus: Option<Fixed>,
    epsilon: Fixed,
    gamma: Fixed,
    alpha: Fixed,
) -> bool {
    &&& worlds.len() == totals.len() + 1
    &&& tables.len() == totals.len() + 1
    &&& models.len() == totals.len() + 1
    &&& tables[0].entries() == Map::<u128, Fixed>::empty()
    &&& models[0].len() == 0
    &&& forall|k: int|
        0 <= k < totals.len() ==> dyna_ran(
            worlds[k],
            worlds[k + 1],
            tables[k],
            tables[k + 1],
            models[k],
            models[k + 1],
            #[trigger] totals[k],
            cap,
            planning_steps,
            bonus,
            epsilon,
            gamma,
            alpha,
        )
}

/// Whether `table` is the table that a run of Dyna-Q, or of Dyna-Q+ where
/// there is a bonus, ends with, from the simulation `first`, an empty table
/// and an empty model, through one episode for each of `totals`, the
/// simulation being left as `last`.
pub open spec fn dyna_trained<E: MonteCarloEnvironment>(
    first: E,
    last: E,
    table: QTable,
    totals: Seq<Fixed>,
    cap: nat,
    planning_steps: nat,
    bonus: Option<Fixed>,
    epsilon: Fixed,
    gamma: Fixed,
    alpha: Fixed,
) -> bool {
    exists|worlds: Seq<E>, tables: Seq<QTable>, models: Seq<Seq<Transition>>| #[trigger]
        dyna_chain(
            worlds,
            tables,
            models,
            totals,
            cap,
            planning_steps,
            bonus,
            epsilon,
            gamma,
            alpha,
        ) && worlds[0] == first && worlds[totals.len() as int] == last
            && tables[totals.len() as int] == table
}

/// Dyna-Q: Q-learning in which every real step is recorded in a one-step
/// model and followed by `planning_steps` replays of outcomes drawn
/// uniformly from that model.
///
/// Returns the policy that is greedy for the final table in every state,
/// over all actions; the sum of the rewards of each episode; and the table,
/// which holds a value for the pairs that were taken and for no other.
/// Fails with `InvalidParameter`, before anything is drawn or stepped, when
/// `gamma` or `epsilon` lies outside the unit interval or the environment
/// has no action.
pub fn dyna_q<E: MonteCarloEnvironment>(
    env: &mut E,
    alpha: Fixed,
    gamma: Fixed,
    epsilon: Fixed,
    planning_steps: usize,
    episodes: usize,
    max_steps: usize,
    rng: &mut RandomSource,
) -> (res: Result<(DeterministicPolicy, Vec<Fixed>, QTable), RlError>)
    requires
        old(env).well_formed(),
    ensures
        final(env).well_formed(),
        final(env).states() == old(env).states(),
        final(env).actions() == old(env).actions(),
        final(env).rewards() == old(env).rewards(),
        match res {
            Ok(out) => {
                &&& admissible(gamma, epsilon, old(env).actions())
                &&& out.0.wf()
                &&& out.0.state_count() == old(env).states()
                &&& out.0.action_count() == old(env).actions()
                &&& out.0@ == greedy_table(&out.2, old(env).states(), action_range(old(env).actions()))
                &&& out.1.len() == episodes
                &&& out.2.within(old(env).states(), old(env).actions())
                &&& dyna_trained(
                    *old(env),
                    *final(env),
                    out.2,
                    out.1@,
                    max_steps as nat,
                    planning_steps as nat,
                    None,
                    epsilon,
                    gamma,
                    alpha,
                )
                &&& planning_steps == 0 ==> q_learning_trained(
                    *old(env),
                    *final(env),
                    out.2,
                    out.1@,
                    max_steps as nat,
                    epsilon,
                    gamma,
                    alpha,
                )
            },
            Err(e) => {
                &&& e == RlError::InvalidParameter
                &&& !admissible(gamma, epsilon, old(env).actions())
                &&& *final(env) == *old(env)
            },
        },
{
    if !gamma.in_unit_interval() || !epsilon.in_unit_interval() || env.num_actions() == 0 {
        return Err(RlError::InvalidParameter);
    }
    let actions: Vec<usize> = all_actions(env.num_actions());
    let mut q: QTable = QTable::new();
    let mut model: Model = Model::new();
    let mut rewards_per_episode: Vec<Fixed> = Vec::new();
    let mut episode: usize = 0;
    let ghost bonus: Option<Fixed> = None;
    let ghost mut tables: Seq<QTable> = seq![q];
    let ghost mut models: Seq<Seq<Transition>> = seq![model@];
    let ghost mut worlds: Seq<E> = seq![*env];
    while episode < episodes
        invariant
            env.well_formed(),
            env.states() == old(env).states(),
            env.actions() == old(env).actions(),
            env.rewards() == old(env).rewards(),
            model.wf(),
            episode <= episodes,
            rewards_per_episode.len() == episode,
            q.within(old(env).states(), old(env).actions()),
            entries_within(model@, old(env).states(), old(env).actions()),
            bonus == None::<Fixed>,
            tables.len() == episode + 1,
            models.len() == episode + 1,
            worlds.len() == episode + 1,
            tables[episode as int] == q,
            models[episode as int] == model@,
            worlds[0] == *old(env),
            worlds[episode as int] == *env,
            dyna_chain(
                worlds,
                tables,
                models,
                rewards_per_episode@,
                max_steps as nat,
                planning_steps as nat,
                bonus,
                epsilon,
                gamma,
                alpha,
            ),
            planning_steps == 0 ==> q_learning_chain(
                worlds,
                tables,
                rewards_per_episode@,
                max_steps as nat,
                epsilon,
                gamma,
                alpha,
            ),
        decreases episodes - episode,
    {
        let ghost totals = rewards_per_episode@;
        let total_reward: Fixed = run_episode(
            env,
            &mut q,
            &mut model,
            alpha,
            gamma,
            epsilon,
            planning_steps,
            max_steps,
            rng,
        );
        rewards_per_episode.push(total_reward);
        proof {
            let longer = tables.push(q);
            let wider = models.push(model@);
            let further = worlds.push(*env);
            assert forall|k: int| 0 <= k < rewards_per_episode@.len() implies dyna_ran(
                further[k],
                further[k + 1],
                longer[k],
                longer[k + 1],
                wider[k],
                wider[k + 1],
                #[trigger] rewards_per_episode@[k],
                max_steps as nat,
                planning_steps as nat,
                bonus,
                epsilon,
                gamma,
                alpha,
            ) by {
                if k < episode {
                    assert(further[k] == worlds[k]);
                    assert(further[k + 1] == worlds[k + 1]);
                    assert(longer[k] == tables[k]);
                    assert(longer[k + 1] == tables[k + 1]);
                    assert(wider[k] == models[k]);
                    assert(wider[k + 1] == models[k + 1]);
                    assert(rewards_per_episode@[k] == totals[k]);
                }
            }
            if planning_steps == 0 {
                assert forall|k: int| 0 <= k < rewards_per_episode@.len() implies q_learning_ran(
                    further[k],
                    further[k + 1],
                    longer[k],
                    longer[k + 1],
                    #[trigger] rewards_per_episode@[k],
                    max_steps as nat,
                    epsilon,
                    gamma,
                    alpha,
                ) by {
                    if k < episode {
                        assert(further[k] == worlds[k]);
                        assert(further[k + 1] == worlds[k + 1]);
                        assert(longer[k] == tables[k]);
                        assert(longer[k + 1] == tables[k + 1]);
                        assert(rewards_per_episode@[k] == totals[k]);
                    }
                }
            }
            tables = longer;
            models = wider;
            worlds = further;
        }
        episode = episode + 1;
    }
    proof {
        assert(actions@ =~= action_range(env.actions()));
    }
    let policy: DeterministicPolicy = build_policy(&q, &actions, env);
    Ok((policy, rewards_per_episode, q))
}

} // verus!
