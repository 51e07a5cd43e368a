use tabular_rl::algorithms::mc::episode::first_visit_update;
use tabular_rl::algorithms::mc::episode::Visit;
use tabular_rl::algorithms::mc::mc_es::monte_carlo_es;
use tabular_rl::algorithms::mc::off_policy::off_policy_mc_control;
use tabular_rl::algorithms::mc::off_policy::weighted_update;
use tabular_rl::algorithms::mc::on_policy_first_visit::on_policy_first_visit_mc_control;
use tabular_rl::algorithms::planning::dyna_q::dyna_q;
use tabular_rl::algorithms::planning::dyna_q::replay;
use tabular_rl::algorithms::planning::dyna_q_plus::dyna_q_plus;
use tabular_rl::algorithms::planning::dyna_q_plus::replay_plus;
use tabular_rl::algorithms::planning::helpers::build_policy;
use tabular_rl::algorithms::planning::helpers::choose_action;
use tabular_rl::algorithms::planning::helpers::greedy_action;
use tabular_rl::algorithms::planning::helpers::select_action;
use tabular_rl::algorithms::planning::model::Model;
use tabular_rl::algorithms::planning::model::Transition;
use tabular_rl::algorithms::td::expected_sarsa::compute_expected_q;
use tabular_rl::algorithms::td::expected_sarsa::expected_sarsa;
use tabular_rl::algorithms::td::q_learning::apply_q_update;
use tabular_rl::algorithms::td::q_learning::compute_max_q;
use tabular_rl::algorithms::td::q_learning::q_learning;
use tabular_rl::algorithms::td::sarsa::sarsa;
use tabular_rl::algorithms::td::sarsa::update_q;
use tabular_rl::algorithms::td::sarsa::update_terminal;
use tabular_rl::environments::grid_world::GridWorld;
use tabular_rl::environments::line_world::LineWorld;
use tabular_rl::environments::monty_hall_lvl1::new_monty_hall;
use tabular_rl::envs::Environment;
use tabular_rl::envs::MonteCarloEnvironment;
use tabular_rl::error::RlError;
use tabular_rl::fixed::Fixed;
use tabular_rl::policies::DeterministicPolicy;
use tabular_rl::qtable::QTable;
use tabular_rl::random::RandomSource;

fn fx(x: f64) -> Fixed {
    Fixed { raw: (x * 1e9).round() as i64 }
}

fn as_float(x: Fixed) -> f64 {
    x.raw as f64 / 1e9
}

#[test]
fn test_monte_carlo_es_runs_and_learns() {
    let mut env = LineWorld::new();
    let mut rng = RandomSource::seeded(0);

    let (policy, q) = monte_carlo_es(&mut env, 10_000, fx(0.9), 1_000, &mut rng).unwrap();

    assert_eq!(policy.policy_table().len(), env.num_states());
    for s in 0..env.num_states() {
        let action = policy.get_action(&s).unwrap();
        assert!(action < env.num_actions(), "Action hors borne pour état {} : {}", s, action);
    }
    for actions in q.iter() {
        for &value in actions {
            assert!(as_float(value).is_finite(), "Q-value non finie détectée !");
        }
    }
    let s = 3;
    let best_action = policy.get_action(&s).unwrap();
    assert!(
        as_float(q[s][best_action]) > 0.5,
        "Q-value trop faible à l'état 3 : {}",
        as_float(q[s][best_action])
    );
}

#[test]
fn test_off_policy_mc_control_learns() {
    let mut env = LineWorld { agent_pos: 0 };
    let mut rng = RandomSource::seeded(0);

    let (policy, q, c) =
        off_policy_mc_control(&mut env, 10_000, fx(0.9), fx(0.1), 1_000, &mut rng).unwrap();

    assert_eq!(policy.policy_table().len(), env.num_states());
    for s in 0..env.num_states() {
        let a = policy.get_action(&s).unwrap();
        assert!(a < env.num_actions(), "Action hors borne à l'état {}: {}", s, a);
    }
    for actions in &q {
        for &value in actions {
            assert!(as_float(value).is_finite());
        }
    }
    let s = 3;
    let best_action = policy.get_action(&s).unwrap();
    assert!(
        as_float(q[s][best_action]) > 0.5,
        "Q-value trop faible sur état positif : {}",
        as_float(q[s][best_action])
    );
    for s in 0..5 {
        for a in 0..2 {
            if c[s][a].raw == 0 {
                assert_eq!(q[s][a].raw, 0);
            }
        }
    }
    assert_eq!(q[0], vec![fx(0.0), fx(0.0)]);
    assert_eq!(q[4], vec![fx(0.0), fx(0.0)]);
}

#[test]
fn test_on_policy_first_visit_mc_control_learns() {
    let mut env = LineWorld::new();
    let mut rng = RandomSource::seeded(0);

    let (policy, q, rewards) =
        on_policy_first_visit_mc_control(&mut env, 10_000, fx(0.9), fx(0.1), 1_000, &mut rng)
            .unwrap();
    assert_eq!(rewards.len(), 10_000);

    assert_eq!(policy.policy_table().len(), env.num_states());
    for s in 0..env.num_states() {
        let a = policy.get_action(&s).unwrap();
        assert!(a < env.num_actions());
    }
    for actions in &q {
        for &value in actions {
            assert!(as_float(value).is_finite());
        }
    }
    let s = 3;
    let best = policy.get_action(&s).unwrap();
    assert!(as_float(q[s][best]) > 0.5, "Q-value trop faible: {}", as_float(q[s][best]));
}

#[test]
fn temporal_difference_control_prefers_the_goal_in_the_corridor() {
    let mut rng = RandomSource::seeded(7);
    let mut env = LineWorld::new();
    let (policy, rewards, q) =
        q_learning(&mut env, fx(0.1), fx(0.9), fx(0.1), 10_000, 1_000, &mut rng).unwrap();
    assert!(q.get(3, 1).raw > q.get(3, 0).raw);
    assert_eq!(rewards.len(), 10_000);
    assert_eq!(policy.get_action(&3).unwrap(), 1);
    assert_eq!(policy.get_action(&0).unwrap(), 0);

    let (_, _, q) = sarsa(&mut env, fx(0.1), fx(0.9), fx(0.1), 10_000, 1_000, &mut rng).unwrap();
    assert!(q.get(3, 1).raw > q.get(3, 0).raw);

    let (_, _, q) =
        expected_sarsa(&mut env, fx(0.1), fx(0.9), fx(0.1), 10_000, 1_000, &mut rng).unwrap();
    assert!(q.get(3, 1).raw > q.get(3, 0).raw);
}

#[test]
fn planning_learns_the_corridor_in_few_episodes() {
    let mut rng = RandomSource::seeded(3);
    let mut env = LineWorld::new();
    let (policy, rewards, q) =
        dyna_q(&mut env, fx(0.1), fx(0.9), fx(0.1), 5, 200, 1_000, &mut rng).unwrap();
    assert_eq!(rewards.len(), 200);
    assert!(q.get(3, 1).raw > q.get(3, 0).raw);
    assert_eq!(policy.get_action(&3).unwrap(), 1);
    assert!(!q.has(0, 0));
    assert!(!q.has(4, 1));
    assert_eq!(q.get(4, 1), fx(0.0));

    let (policy, rewards, q) =
        dyna_q_plus(&mut env, fx(0.1), fx(0.9), fx(0.1), fx(0.001), 5, 200, 1_000, &mut rng)
            .unwrap();
    assert_eq!(rewards.len(), 200);
    assert!(q.get(3, 1).raw > q.get(3, 0).raw);
    assert_eq!(policy.get_action(&3).unwrap(), 1);
}

#[test]
fn dyna_q_without_planning_is_q_learning() {
    let mut first = RandomSource::seeded(21);
    let mut second = RandomSource::seeded(21);
    let mut env = GridWorld::new();
    let (by_q, rewards_q, table_q) =
        q_learning(&mut env, fx(0.1), fx(0.95), fx(0.2), 300, 500, &mut first).unwrap();
    let mut env = GridWorld::new();
    let (by_dyna, rewards_dyna, table_dyna) =
        dyna_q(&mut env, fx(0.1), fx(0.95), fx(0.2), 0, 300, 500, &mut second).unwrap();
    assert_eq!(rewards_q, rewards_dyna);
    assert_eq!(by_q.policy_table(), by_dyna.policy_table());
    for s in 0..25 {
        for a in 0..4 {
            assert_eq!(table_q.get(s, a), table_dyna.get(s, a));
            assert_eq!(table_q.has(s, a), table_dyna.has(s, a));
        }
    }
    assert_eq!(table_q.len(), table_dyna.len());
}

#[test]
fn control_rejects_parameters_out_of_range() {
    let mut rng = RandomSource::seeded(0);
    let mut env = LineWorld::new();
    assert_eq!(
        q_learning(&mut env, fx(0.1), fx(1.1), fx(0.1), 1, 10, &mut rng).unwrap_err(),
        RlError::InvalidParameter
    );
    assert_eq!(
        sarsa(&mut env, fx(0.1), fx(0.9), fx(-0.1), 1, 10, &mut rng).unwrap_err(),
        RlError::InvalidParameter
    );
    assert_eq!(
        expected_sarsa(&mut env, fx(0.1), fx(0.9), fx(2.0), 1, 10, &mut rng).unwrap_err(),
        RlError::InvalidParameter
    );
    assert_eq!(
        dyna_q(&mut env, fx(0.1), fx(-1.0), fx(0.1), 1, 1, 10, &mut rng).unwrap_err(),
        RlError::InvalidParameter
    );
    assert_eq!(
        dyna_q_plus(&mut env, fx(0.1), fx(0.9), fx(1.5), fx(0.1), 1, 1, 10, &mut rng).unwrap_err(),
        RlError::InvalidParameter
    );
    assert_eq!(
        monte_carlo_es(&mut env, 1, fx(1.5), 10, &mut rng).unwrap_err(),
        RlError::InvalidParameter
    );
    assert_eq!(
        on_policy_first_visit_mc_control(&mut env, 1, fx(0.5), fx(1.5), 10, &mut rng).unwrap_err(),
        RlError::InvalidParameter
    );
    assert_eq!(
        off_policy_mc_control(&mut env, 1, fx(0.5), fx(-0.5), 10, &mut rng).unwrap_err(),
        RlError::InvalidParameter
    );
    assert_eq!(env.agent_pos, 2);
}

#[test]
fn greedy_selection_takes_the_first_of_the_best() {
    let mut q = QTable::new();
    let actions = vec![2, 0, 1];
    assert_eq!(greedy_action(&q, 5, &actions), 2);
    q.set(5, 0, fx(0.5));
    q.set(5, 1, fx(0.5));
    assert_eq!(greedy_action(&q, 5, &actions), 0);
    q.set(5, 2, fx(-1.0));
    assert_eq!(greedy_action(&q, 5, &vec![2]), 2);
    assert_eq!(select_action(&q, 5, &actions, fx(0.3), fx(0.29), 2), 1);
    assert_eq!(select_action(&q, 5, &actions, fx(0.3), fx(0.3), 2), 0);
    let mut rng = RandomSource::seeded(9);
    for _ in 0..50 {
        assert_eq!(choose_action(&q, 5, &actions, fx(0.0), &mut rng), 0);
        assert!(actions.contains(&choose_action(&q, 5, &actions, fx(1.0), &mut rng)));
    }
    let env = LineWorld::new();
    let policy = build_policy(&q, &vec![0, 1], &env);
    assert_eq!(policy.policy_table(), &vec![0, 0, 0, 0, 0]);
    q.set(1, 1, fx(0.1));
    q.set(2, 0, fx(-0.1));
    let policy = build_policy(&q, &vec![0, 1], &env);
    assert_eq!(policy.policy_table(), &vec![0, 1, 1, 0, 0]);
}

#[test]
fn updates_follow_their_equations() {
    let mut q = QTable::new();
    q.set(1, 0, fx(2.0));
    q.set(2, 1, fx(4.0));
    q.set(2, 0, fx(-1.0));
    update_q(&mut q, 1, 0, fx(1.0), 2, 1, fx(0.5), fx(0.1));
    assert_eq!(q.get(1, 0), fx(2.1));
    update_terminal(&mut q, 1, 0, fx(1.1), fx(0.5));
    assert_eq!(q.get(1, 0), fx(1.6));
    assert_eq!(compute_max_q(&q, 2, &vec![0, 1]), fx(4.0));
    assert_eq!(compute_max_q(&q, 2, &vec![0]), fx(-1.0));
    assert_eq!(compute_max_q(&q, 2, &vec![]), fx(0.0));
    assert_eq!(compute_max_q(&q, 7, &vec![0, 1]), fx(0.0));
    apply_q_update(&mut q, 1, 0, fx(1.0), fx(4.0), fx(0.5), fx(0.5));
    assert_eq!(q.get(1, 0), fx(2.3));
    assert_eq!(compute_expected_q(&q, 2, &vec![0, 1], fx(0.2)), fx(3.5));
    assert_eq!(compute_expected_q(&q, 2, &vec![], fx(0.2)), fx(0.0));
    tabular_rl::algorithms::td::expected_sarsa::update_q(
        &mut q,
        2,
        0,
        fx(0.0),
        fx(3.5),
        fx(1.0),
        fx(0.5),
    );
    assert_eq!(q.get(2, 0), fx(1.25));
    assert_eq!(q.get(2, 1), fx(4.0));
    assert_eq!(q.len(), 3);
}

#[test]
fn replay_uses_the_model_and_the_bonus() {
    let mut model = Model::new();
    let first = Transition {
        state: 1,
        action: 1,
        reward: fx(1.0),
        next_state: 2,
        next_actions: vec![0, 1],
        elapsed: 0,
    };
    assert_eq!(model.record(first), 0);
    let second = Transition {
        state: 2,
        action: 0,
        reward: fx(0.0),
        next_state: 1,
        next_actions: vec![0, 1],
        elapsed: 0,
    };
    assert_eq!(model.record(second), 1);
    let again = Transition {
        state: 1,
        action: 1,
        reward: fx(2.0),
        next_state: 2,
        next_actions: vec![0, 1],
        elapsed: 0,
    };
    assert_eq!(model.record(again), 0);
    assert_eq!(model.len(), 2);
    assert_eq!(model.find(2, 0), Some(1));
    assert_eq!(model.find(2, 1), None);
    assert_eq!(model.entry(0).reward, fx(2.0));
    for _ in 0..4 {
        model.age(1);
    }
    assert_eq!(model.entry(0).elapsed, 4);
    assert_eq!(model.entry(1).elapsed, 0);

    let mut q = QTable::new();
    q.set(2, 1, fx(1.0));
    replay(&mut q, &model, 0, fx(0.5), fx(0.5));
    assert_eq!(q.get(1, 1), fx(1.25));
    let mut q = QTable::new();
    q.set(2, 1, fx(1.0));
    replay_plus(&mut q, &model, 0, fx(0.5), fx(0.5), fx(0.25));
    assert_eq!(q.get(1, 1), fx(1.5));
    assert_eq!(Fixed::sqrt_count(2), Fixed { raw: 1_414_213_562 });
    assert_eq!(Fixed::sqrt_count(0), fx(0.0));
}

#[test]
fn first_visit_averaging_works_backwards() {
    let mut q = vec![vec![fx(0.0); 2]; 3];
    let mut counts = vec![vec![0u64; 2]; 3];
    let mut policy = DeterministicPolicy::filled(3, 2, 0);
    let episode = vec![
        Visit { state: 0, action: 1, reward: fx(0.0) },
        Visit { state: 1, action: 1, reward: fx(0.0) },
        Visit { state: 0, action: 1, reward: fx(0.0) },
        Visit { state: 1, action: 0, reward: fx(1.0) },
    ];
    first_visit_update(&mut q, &mut counts, &mut policy, &episode, fx(0.5));
    assert_eq!(q[1][0], fx(1.0));
    assert_eq!(q[1][1], fx(0.25));
    assert_eq!(q[0][1], fx(0.125));
    assert_eq!(counts, vec![vec![0, 1], vec![1, 1], vec![0, 0]]);
    assert_eq!(policy.policy_table(), &vec![1, 0, 0]);
    first_visit_update(
        &mut q,
        &mut counts,
        &mut policy,
        &vec![Visit { state: 1, action: 0, reward: fx(0.0) }],
        fx(0.5),
    );
    assert_eq!(q[1][0], fx(0.5));
    assert_eq!(counts[1][0], 2);
    assert_eq!(policy.policy_table(), &vec![1, 0, 0]);
}

#[test]
fn the_weighted_pass_ends_where_the_target_policy_disagrees() {
    let mut q = vec![vec![fx(0.0); 2]; 3];
    q[1][1] = fx(5.0);
    let mut c = vec![vec![fx(0.0); 2]; 3];
    c[1][1] = fx(1.0);
    let mut policy = DeterministicPolicy::filled(3, 2, 0);
    let episode = vec![
        Visit { state: 0, action: 0, reward: fx(3.0) },
        Visit { state: 1, action: 0, reward: fx(0.0) },
        Visit { state: 2, action: 1, reward: fx(1.0) },
    ];
    let behaviour = vec![fx(0.5), fx(0.5), fx(0.5)];
    weighted_update(&mut q, &mut c, &mut policy, &episode, &behaviour, fx(1.0));
    assert_eq!(q[2][1], fx(1.0));
    assert_eq!(c[2][1], fx(1.0));
    assert_eq!(q[1][0], fx(1.0));
    assert_eq!(c[1][0], fx(2.0));
    assert_eq!(q[0][0], fx(0.0));
    assert_eq!(c[0][0], fx(0.0));
    assert_eq!(policy.policy_table(), &vec![0, 1, 1]);
}

#[test]
fn control_runs_where_actions_are_forbidden() {
    let mut rng = RandomSource::seeded(4);
    let mut env = new_monty_hall(2, &mut rng);
    let (policy, _, q) =
        q_learning(&mut env, fx(0.1), fx(0.9), fx(0.2), 500, 50, &mut rng).unwrap();
    assert_eq!(policy.policy_table().len(), 300);
    assert!(q.len() > 0);
    let (policy, q, rewards) =
        on_policy_first_visit_mc_control(&mut env, 500, fx(0.9), fx(0.2), 50, &mut rng).unwrap();
    assert_eq!(policy.policy_table().len(), 300);
    assert_eq!(q.len(), 300);
    assert!(rewards.iter().all(|r| *r == fx(0.0) || *r == fx(1.0)));
    let (_, q, c) =
        off_policy_mc_control(&mut env, 500, fx(0.9), fx(0.2), 50, &mut rng).unwrap();
    assert!(c.iter().flatten().all(|w| w.raw >= 0));
    assert!(q.iter().flatten().zip(c.iter().flatten()).all(|(v, w)| w.raw != 0 || v.raw == 0));
    let (policy, _) = monte_carlo_es(&mut env, 500, fx(0.9), 50, &mut rng).unwrap();
    assert_eq!(policy.policy_table().len(), 300);
}

#[test]
fn one_greedy_episode_of_on_policy_control_is_pinned() {
    for seed in 0..20 {
        let mut rng = RandomSource::seeded(seed);
        let mut env = LineWorld::new();
        let (policy, q, rewards) =
            on_policy_first_visit_mc_control(&mut env, 1, fx(0.5), fx(0.0), 100, &mut rng).unwrap();
        assert_eq!(rewards.len(), 1);
        assert_eq!(policy.get_action(&2).unwrap(), 1);
        let mut expected = vec![vec![fx(0.0); 2]; 5];
        if rewards[0] == fx(1.0) {
            expected[3][1] = fx(1.0);
            expected[2][1] = fx(0.5);
        } else {
            assert_eq!(rewards[0], fx(-1.0));
            expected[1][0] = fx(-1.0);
            expected[2][0] = fx(-0.5);
        }
        assert_eq!(q, expected);
        assert!(env.is_game_over());
    }
}

#[test]
fn values_of_the_corridor_stay_within_one() {
    let mut rng = RandomSource::seeded(17);
    let mut env = LineWorld::new();
    let (_, q, rewards) =
        on_policy_first_visit_mc_control(&mut env, 2_000, fx(0.9), fx(0.3), 1_000, &mut rng)
            .unwrap();
    assert!(q.iter().flatten().all(|v| v.raw.abs() <= 1_000_000_000));
    assert!(q[3][1] == fx(0.0) || q[3][1] == fx(1.0));
    assert!(q[1][0] == fx(0.0) || q[1][0] == fx(-1.0));
    assert_eq!(q[0], vec![fx(0.0); 2]);
    assert_eq!(q[4], vec![fx(0.0); 2]);
    assert!(rewards.iter().all(|r| *r == fx(1.0) || *r == fx(-1.0)));
}
