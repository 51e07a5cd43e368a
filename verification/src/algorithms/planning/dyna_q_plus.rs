use vstd::prelude::*;

use crate::algorithms::planning::dyna_q::update_q;
use crate::algorithms::planning::helpers::all_actions;
use crate::algorithms::planning::helpers::build_policy;
use crate::algorithms::planning::helpers::greedy_table;
use crate::algorithms::planning::model::entries_within;
use crate::algorithms::planning::model::Model;
use crate::algorithms::planning::model::Transition;
use crate::algorithms::td::q_learning::action_range;
use crate::algorithms::td::q_learning::admissible;
use crate::algorithms::td::q_learning::learned;
use crate::algorithms::planning::dyna_q::dyna_chain;
use crate::algorithms::planning::dyna_q::dyna_episode;
use crate::algorithms::planning::dyna_q::dyna_ran;
use crate::algorithms::planning::dyna_q::dyna_trained;
use crate::algorithms::planning::dyna_q::dyna_step_made;
use crate::algorithms::planning::dyna_q::dyna_stepped;
use crate::algorithms::planning::dyna_q::planned_through;
use crate::algorithms::planning::dyna_q::replay_link;
use crate::algorithms::planning::model::ages;
use crate::algorithms::planning::model::records;
use crate::algorithms::planning::model::records_and_ages;
use crate::algorithms::td::q_learning::path;
use crate::algorithms::td::q_learning::q_learning_chain;
use crate::algorithms::td::q_learning::q_learning_episode;
use crate::algorithms::td::q_learning::q_learning_ran;
use crate::algorithms::td::q_learning::q_learning_trained;
use crate::algorithms::td::q_learning::q_learning_step;
use crate::algorithms::td::q_learning::step_learned;
use crate::algorithms::td::q_learning::step_link;
use crate::algorithms::td::q_learning::walk_link;
use crate::envs::MonteCarloEnvironment;
use crate::error::RlError;
use crate::fixed::fixed_sum;
use crate::fixed::lemma_fixed_sum_push;
use crate::fixed::Fixed;
use crate::policies::DeterministicPolicy;
use crate::qtable::key_of;
use crate::qtable::QTable;
use crate::random::RandomSource;

verus! {

/// The reward that a replay uses for an outcome seen `elapsed` real steps
/// ago: the reward seen and the bonus `kappa * sqrt(elapsed)`.
pub open spec fn with_bonus(reward: Fixed, kappa: Fixed, elapsed: usize) -> Fixed {
    reward.spec_add(kappa.spec_mul(Fixed::spec_sqrt_count(elapsed as int)))
}

/// Replays the outcome at position `at` of the model with its bonus: the
/// update that a real step with that outcome and the raised reward would
/// make.
pub fn replay_plus(
    q: &mut QTable,
    model: &Model,
    at: usize,
    gamma: Fixed,
    alpha: Fixed,
    kappa: Fixed,
)
    requires
        at < model@.len(),
    ensures
        final(q).entries() == old(q).entries().insert(
            key_of(model@[at as int].state, model@[at as int].action),
            learned(
                old(q),
                model@[at as int].state,
                model@[at as int].action,
                with_bonus(model@[at as int].reward, kappa, model@[at as int].elapsed),
                model@[at as int].next_state,
                model@[at as int].next_actions@,
                gamma,
                alpha,
            ),
        ),
        forall|states: nat, actions: nat|
            old(q).within(states, actions) && entries_within(model@, states, actions)
                ==> #[trigger] final(q).within(states, actions),
{
    let t: &Transition = model.entry(at);
    let bonus: Fixed = kappa.sat_mul(Fixed::sqrt_count(t.elapsed));
    update_q(
        q,
        t.state,
        t.action,
        t.reward.sat_add(bonus),
        t.next_state,
        &t.next_actions,
        gamma,
        alpha,
    );
}

/// Whether `after` is `before` with the outcome at some position of the
/// model replayed with its bonus.
pub open spec fn replayed_plus(
    before: Map<u128, Fixed>,
    after: Map<u128, Fixed>,
    q: &QTable,
    model: Seq<Transition>,
    gamma: Fixed,
    alpha: Fixed,
    kappa: Fixed,
) -> bool {
    exists|at: int|
        0 <= at < model.len() && after == before.insert(
            key_of((#[trigger] model[at]).state, model[at].action),
            learned(
                q,
                model[at].state,
                model[at].action,
                with_bonus(model[at].reward, kappa, model[at].elapsed),
                model[at].next_state,
                model[at].next_actions@,
                gamma,
                alpha,
            ),
        )
}

/// One planning step of Dyna-Q+: replays, with its bonus, an outcome drawn
/// uniformly from those the model holds.
pub fn planning_step_plus(
    q: &mut QTable,
    model: &Model,
    gamma: Fixed,
    alpha: Fixed,
    kappa: Fixed,
    rng: &mut RandomSource,
)
    requires
        model@.len() > 0,
    ensures
        replayed_plus(old(q).entries(), final(q).entries(), old(q), model@, gamma, alpha, kappa),
        forall|states: nat, actions: nat|
            old(q).within(states, actions) && entries_within(model@, states, actions)
                ==> #[trigger] final(q).within(states, actions),
{
    let at: usize = rng.below(model.len());
    replay_plus(q, model, at, gamma, alpha, kappa);
}

/// One real step of Dyna-Q+ and the planning that follows it: the step and
/// update of Q-learning, the outcome recorded in the model, the counts of
/// steps brought up to date (zero for the pair taken, one higher for every
/// other pair), and `planning_steps` replays, each with its bonus, of
/// outcomes drawn from the model.
///
/// Returns the reward of the real step.
pub fn dyna_q_plus_step<E: MonteCarloEnvironment>(
    env: &mut E,
    q: &mut QTable,
    model: &mut Model,
    alpha: Fixed,
    gamma: Fixed,
    epsilon: Fixed,
    kappa: Fixed,
    planning_steps: usize,
    rng: &mut RandomSource,
) -> (reward: Fixed)
    requires
        old(env).well_formed(),
        !old(env).game_over(),
        old(model).wf(),
    ensures
        final(env).well_formed(),
        final(env).states() == old(env).states(),
        final(env).actions() == old(env).actions(),
        final(env).rewards() == old(env).rewards(),
        final(model).wf(),
        final(model)@.len() > 0,
        old(q).within(old(env).states(), old(env).actions()) && entries_within(
            old(model)@,
            old(env).states(),
            old(env).actions(),
        ) ==> final(q).within(old(env).states(), old(env).actions()) && entries_within(
            final(model)@,
            old(env).states(),
            old(env).actions(),
        ),
        final(model)@.len() >= old(model)@.len(),
        dyna_step_made(
            *old(env),
            *final(env),
            *old(q),
            *final(q),
            old(model)@,
            final(model)@,
            reward,
            planning_steps as nat,
            Some(kappa),
            epsilon,
            gamma,
            alpha,
        ),
{
    let seen: Transition = q_learning_step(env, q, alpha, gamma, epsilon, rng);
    let reward: Fixed = seen.reward;
    let ghost shown = seen;
    let ghost learnt = q.entries();
    let at: usize = model.record(seen);
    let ghost mid = model@;
    model.age(at);
    let mut planned: usize = 0;
    let ghost mut plans: Seq<QTable> = seq![*q];
    let ghost kept = model@;
    while planned < planning_steps
        invariant
            planned <= planning_steps,
            model.wf(),
            model@.len() > 0,
            model@ == kept,
            plans.len() == planned + 1,
            plans[0].entries() == learnt,
            plans[planned as int] == *q,
            forall|j: int|
                0 <= j < planned ==> #[trigger] replay_link(
                    plans,
                    j,
                    kept,
                    Some(kappa),
                    gamma,
                    alpha,
                ),
            old(q).within(old(env).states(), old(env).actions()) && entries_within(
                old(model)@,
                old(env).states(),
                old(env).actions(),
            ) ==> q.within(old(env).states(), old(env).actions()) && entries_within(
                model@,
                old(env).states(),
                old(env).actions(),
            ),
        decreases planning_steps - planned,
    {
        planning_step_plus(q, model, gamma, alpha, kappa, rng);
        proof {
            let longer = plans.push(*q);
            assert forall|j: int| 0 <= j < planned + 1 implies #[trigger] replay_link(
                longer,
                j,
                kept,
                Some(kappa),
                gamma,
                alpha,
            ) by {
                if j < planned {
                    assert(replay_link(plans, j, kept, Some(kappa), gamma, alpha));
                    assert(longer[j] == plans[j]);
                    assert(longer[j + 1] == plans[j + 1]);
                }
            }
            plans = longer;
        }
        planned = planned + 1;
    }
    proof {
        assert(records(old(model)@, mid, shown));
        assert(ages(mid, model@, at as int));
        assert(records_and_ages(old(model)@, model@, shown));
        assert(planned_through(plans, model@, planning_steps as nat, Some(kappa), gamma, alpha));
        assert(dyna_stepped(
            *old(q),
            *q,
            old(model)@,
            model@,
            shown,
            planning_steps as nat,
            Some(kappa),
            gamma,
            alpha,
        ));
        assert(step_link(*old(env), *env, old(q), shown, epsilon));
    }
    reward
}

/// One episode of Dyna-Q+, cut off after `max_steps` real steps: from a
/// reset, one step of Q-learning after another, each recorded in the model,
/// counted for the pairs that were not taken, and followed by its planning
/// steps, until the environment says that the episode is over. Returns the
/// sum of the rewards.
///
/// The model forgets nothing. Without planning the episode is an episode of
/// Q-learning.
pub fn run_episode<E: MonteCarloEnvironment>(
    env: &mut E,
    q: &mut QTable,
    model: &mut Model,
    alpha: Fixed,
    gamma: Fixed,
    epsilon: Fixed,
    kappa: Fixed,
    planning_steps: usize,
    max_steps: usize,
    rng: &mut RandomSource,
) -> (total_reward: Fixed)
    requires
        old(env).well_formed(),
        old(model).wf(),
    ensures
        final(env).well_formed(),
        final(env).states() == old(env).states(),
        final(env).actions() == old(env).actions(),
        final(env).rewards() == old(env).rewards(),
        final(model).wf(),
        old(q).within(old(env).states(), old(env).actions()) && entries_within(
            old(model)@,
            old(env).states(),
            old(env).actions(),
        ) ==> final(q).within(old(env).states(), old(env).actions()) && entries_within(
            final(model)@,
            old(env).states(),
            old(env).actions(),
        ),
        final(model)@.len() >= old(model)@.len(),
        dyna_ran(
            *old(env),
            *final(env),
            *old(q),
            *final(q),
            old(model)@,
            final(model)@,
            total_reward,
            max_steps as nat,
            planning_steps as nat,
            Some(kappa),
            epsilon,
            gamma,
            alpha,
        ),
        planning_steps == 0 ==> q_learning_ran(
            *old(env),
            *final(env),
            *old(q),
            *final(q),
            total_reward,
            max_steps as nat,
            epsilon,
            gamma,
            alpha,
        ),
{
    env.reset(rng);
    let mut total_reward: Fixed = Fixed { raw: 0 };
    let mut steps: usize = 0;
    let ghost bonus: Option<Fixed> = Some(kappa);
    let ghost mut trace: Seq<Transition> = Seq::empty();
    let ghost mut tables: Seq<QTable> = seq![*q];
    let ghost mut models: Seq<Seq<Transition>> = seq![model@];
    let ghost mut rewards: Seq<Fixed> = Seq::empty();
    let ghost mut walk: Seq<E> = seq![*env];
    while steps < max_steps && !env.is_game_over()
        invariant
            env.well_formed(),
            env.states() == old(env).states(),
            env.actions() == old(env).actions(),
            env.rewards() == old(env).rewards(),
            model.wf(),
            old(q).within(old(env).states(), old(env).actions()) && entries_within(
                old(model)@,
                old(env).states(),
                old(env).actions(),
            ) ==> q.within(old(env).states(), old(env).actions()) && entries_within(
                model@,
                old(env).states(),
                old(env).actions(),
            ),
            steps <= max_steps,
            model@.len() >= old(model)@.len(),
            bonus == Some(kappa),
            trace.len() == steps,
            path(trace, env.state()),
            tables.len() == steps + 1,
            models.len() == steps + 1,
            rewards.len() == steps,
            walk.len() == steps + 1,
            tables[0] == *old(q),
            tables[steps as int] == *q,
            models[0] == old(model)@,
            models[steps as int] == model@,
            old(env).begins(&walk[0]),
            walk[steps as int] == *env,
            forall|i: int|
                0 <= i < trace.len() ==> #[trigger] walk_link(walk, tables, trace, i, epsilon),
            forall|i: int|
                0 <= i < trace.len() ==> rewards[i] == (#[trigger] trace[i]).reward
                    && dyna_stepped(
                    tables[i],
                    tables[i + 1],
                    models[i],
                    models[i + 1],
                    trace[i],
                    planning_steps as nat,
                    bonus,
                    gamma,
                    alpha,
                ),
            total_reward == fixed_sum(rewards, steps as int),
        decreases max_steps - steps,
    {
        let ghost before = *q;
        let ghost known = model@;
        let ghost from = *env;
        let reward: Fixed = dyna_q_plus_step(
            env,
            q,
            model,
            alpha,
            gamma,
            epsilon,
            kappa,
            planning_steps,
            rng,
        );
        proof {
            let seen = choose|seen: Transition|
                seen.reward == reward && step_link(from, *env, &before, seen, epsilon)
                    && #[trigger] dyna_stepped(
                    before,
                    *q,
                    known,
                    model@,
                    seen,
                    planning_steps as nat,
                    bonus,
                    gamma,
                    alpha,
                );
            lemma_fixed_sum_push(rewards, reward, steps as int);
            let trace2 = trace.push(seen);
            let tables2 = tables.push(*q);
            let models2 = models.push(model@);
            let rewards2 = rewards.push(reward);
            let walk2 = walk.push(*env);
            assert forall|i: int| 0 <= i < trace2.len() implies #[trigger] walk_link(
                walk2,
                tables2,
                trace2,
                i,
                epsilon,
            ) by {
                if i < steps {
                    assert(walk_link(walk, tables, trace, i, epsilon));
                    assert(walk2[i] == walk[i]);
                    assert(walk2[i + 1] == walk[i + 1]);
                    assert(tables2[i] == tables[i]);
                    assert(trace2[i] == trace[i]);
                }
            }
            assert forall|i: int| 0 <= i < trace2.len() implies rewards2[i] == (
            #[trigger] trace2[i]).reward && dyna_stepped(
                tables2[i],
                tables2[i + 1],
                models2[i],
                models2[i + 1],
                trace2[i],
                planning_steps as nat,
                bonus,
                gamma,
                alpha,
            ) by {
                if i < steps {
                    assert(trace2[i] == trace[i]);
                    assert(tables2[i] == tables[i]);
                    assert(tables2[i + 1] == tables[i + 1]);
                    assert(models2[i] == models[i]);
                    assert(models2[i + 1] == models[i + 1]);
                    assert(rewards2[i] == rewards[i]);
                }
            }
            trace = trace2;
            tables = tables2;
            models = models2;
            rewards = rewards2;
            walk = walk2;
        }
        total_reward = total_reward.sat_add(reward);
        steps = steps + 1;
    }
    proof {
        assert(dyna_episode(
            *old(env),
            *env,
            walk,
            *old(q),
            *q,
            old(model)@,
            model@,
            trace,
            tables,
            models,
            rewards,
            total_reward,
            max_steps as nat,
            planning_steps as nat,
            bonus,
            epsilon,
            gamma,
            alpha,
        ));
        if planning_steps == 0 {
            assert forall|i: int| 0 <= i < trace.len() implies rewards[i] == (
            #[trigger] trace[i]).reward && step_learned(
                &tables[i],
                tables[i + 1].entries(),
                trace[i],
                gamma,
                alpha,
            ) by {
                assert(dyna_stepped(
                    tables[i],
                    tables[i + 1],
                    models[i],
                    models[i + 1],
                    trace[i],
                    0,
                    bonus,
                    gamma,
                    alpha,
                ));
            }
            assert(q_learning_episode(
                *old(env),
                *env,
                walk,
                *old(q),
                *q,
                trace,
                tables,
                rewards,
                total_reward,
                max_steps as nat,
                epsilon,
                gamma,
                alpha,
            ));
        }
    }
    total_reward
}

/// Dyna-Q+: Dyna-Q in which the model also counts, for every pair, the real
/// steps made since the pair was last taken, and every replay raises the
/// reward it saw by `kappa` times the square root of that count.
///
/// Returns the policy that is greedy for the final table in every state,
/// over all actions; the sum of the rewards of each episode; and the table.
/// Fails with `InvalidParameter`, before anything is drawn or stepped, when
/// `gamma` or `epsilon` lies outside the unit interval or the environment
/// has no action.
pub fn dyna_q_plus<E: MonteCarloEnvironment>(
    env: &mut E,
    alpha: Fixed,
    gamma: Fixed,
    epsilon: Fixed,
    kappa: Fixed,
    planning_steps: usize,
    episodes: usize,
    max_steps: usize,
    rng: &mut RandomSource,
) -> (res: Result<(DeterministicPolicy, Vec<Fixed>, QTable), RlError>)
    requires
        old(env).well_formed(),
    ensures
        final(env).well_formed(),
        final(env).states() == old(env).states(),
        final(env).actions() == old(env).actions(),
        final(env).rewards() == old(env).rewards(),
        match res {
            Ok(out) => {
                &&& admissible(gamma, epsilon, old(env).actions())
                &&& out.0.wf()
                &&& out.0.state_count() == old(env).states()
                &&& out.0.action_count() == old(env).actions()
                &&& out.0@ == greedy_table(&out.2, old(env).states(), action_range(old(env).actions()))
                &&& out.1.len() == episodes
                &&& out.2.within(old(env).states(), old(env).actions())
                &&& dyna_trained(
                    *old(env),
                    *final(env),
                    out.2,
                    out.1@,
                    max_steps as nat,
                    planning_steps as nat,
                    Some(kappa),
                    epsilon,
                    gamma,
                    alpha,
                )
                &&& planning_steps == 0 ==> q_learning_trained(
                    *old(env),
                    *final(env),
                    out.2,
                    out.1@,
                    max_steps as nat,
                    epsilon,
                    gamma,
                    alpha,
                )
            },
            Err(e) => {
                &&& e == RlError::InvalidParameter
                &&& !admissible(gamma, epsilon, old(env).actions())
                &&& *final(env) == *old(env)
            },
        },
{
    if !gamma.in_unit_interval() || !epsilon.in_unit_interval() || env.num_actions() == 0 {
        return Err(RlError::InvalidParameter);
    }
    let actions: Vec<usize> = all_actions(env.num_actions());
    let mut q: QTable = QTable::new();
    let mut model: Model = Model::new();
    let mut rewards_per_episode: Vec<Fixed> = Vec::new();
    let mut episode: usize = 0;
    let ghost bonus: Option<Fixed> = Some(kappa);
    let ghost mut tables: Seq<QTable> = seq![q];
    let ghost mut models: Seq<Seq<Transition>> = seq![model@];
    let ghost mut worlds: Seq<E> = seq![*env];
    while episode < episodes
        invariant
            env.well_formed(),
            env.states() == old(env).states(),
            env.actions() == old(env).actions(),
            env.rewards() == old(env).rewards(),
            model.wf(),
            episode <= episodes,
            rewards_per_episode.len() == episode,
            q.within(old(env).states(), old(env).actions()),
            entries_within(model@, old(env).states(), old(env).actions()),
            bonus == Some(kappa),
            tables.len() == episode + 1,
            models.len() == episode + 1,
            worlds.len() == episode + 1,
            tables[episode as int] == q,
            models[episode as int] == model@,
            worlds[0] == *old(env),
            worlds[episode as int] == *env,
            dyna_chain(
                worlds,
                tables,
                models,
                rewards_per_episode@,
                max_steps as nat,
                planning_steps as nat,
                bonus,
                epsilon,
                gamma,
                alpha,
            ),
            planning_steps == 0 ==> q_learning_chain(
                worlds,
                tables,
                rewards_per_episode@,
                max_steps as nat,
                epsilon,
                gamma,
                alpha,
            ),
        decreases episodes - episode,
    {
        let ghost totals = rewards_per_episode@;
        let total_reward: Fixed = run_episode(
            env,
            &mut q,
            &mut model,
            alpha,
            gamma,
            epsilon,
            kappa,
            planning_steps,
            max_steps,
            rng,
        );
        rewards_per_episode.push(total_reward);
        proof {
            let longer = tables.push(q);
            let wider = models.push(model@);
            let further = worlds.push(*env);
            assert forall|k: int| 0 <= k < rewards_per_episode@.len() implies dyna_ran(
                further[k],
                further[k + 1],
                longer[k],
                longer[k + 1],
                wider[k],
                wider[k + 1],
                #[trigger] rewards_per_episode@[k],
                max_steps as nat,
                planning_steps as nat,
                bonus,
                epsilon,
                gamma,
                alpha,
            ) by {
                if k < episode {
                    assert(further[k] == worlds[k]);
                    assert(further[k + 1] == worlds[k + 1]);
                    assert(longer[k] == tables[k]);
                    assert(longer[k + 1] == tables[k + 1]);
                    assert(wider[k] == models[k]);
                    assert(wider[k + 1] == models[k + 1]);
                    assert(rewards_per_episode@[k] == totals[k]);
                }
            }
            if planning_steps == 0 {
                assert forall|k: int| 0 <= k < rewards_per_episode@.len() implies q_learning_ran(
                    further[k],
                    further[k + 1],
                    longer[k],
                    longer[k + 1],
                    #[trigger] rewards_per_episode@[k],
                    max_steps as nat,
                    epsilon,
                    gamma,
                    alpha,
                ) by {
                    if k < episode {
                        assert(further[k] == worlds[k]);
                        assert(further[k + 1] == worlds[k + 1]);
                        assert(longer[k] == tables[k]);
                        assert(longer[k + 1] == tables[k + 1]);
                        assert(rewards_per_episode@[k] == totals[k]);
                    }
                }
            }
            tables = longer;
            models = wider;
            worlds = further;
        }
        episode = episode + 1;
    }
    proof {
        assert(actions@ =~= action_range(env.actions()));
    }
    let policy: DeterministicPolicy = build_policy(&q, &actions, env);
    Ok((policy, rewards_per_episode, q))
}

} // verus!
