use tabular_rl::environments::helpers::choose_action;
use tabular_rl::environments::helpers::current_state;
use tabular_rl::environments::helpers::environment_step;
use tabular_rl::environments::line_world::LineWorld;
use tabular_rl::environments::monty_hall_lvl1::new_monty_hall;
use tabular_rl::environments::pierre_feuille_ciseaux::pierre_feuille_ciseaux_dp;
use tabular_rl::environments::pierre_feuille_ciseaux::PierreFeuilleCiseaux;
use tabular_rl::envs::DPEnvironment;
use tabular_rl::envs::DynamicProgramingEnvironment;
use tabular_rl::envs::Environment;
use tabular_rl::envs::MonteCarloEnvironment;
use tabular_rl::error::RlError;
use tabular_rl::fixed::Fixed;
use tabular_rl::manual_run::accepts_choice;
use tabular_rl::manual_run::run_manual;
use tabular_rl::manual_run::run_policy;
use tabular_rl::policies::DeterministicPolicy;
use tabular_rl::policies::Policy;
use tabular_rl::policies::ProbabilisticPolicy;
use tabular_rl::qtable::QTable;
use tabular_rl::random::RandomSource;
use tabular_rl::utils::algorithm_kind;
use tabular_rl::utils::discounted_return;
use tabular_rl::utils::environment_kind;
use tabular_rl::utils::evaluate_policy;
use tabular_rl::utils::policy_step;
use tabular_rl::utils::Algorithm;
use tabular_rl::utils::Config;
use tabular_rl::utils::EnvironmentKind;

fn fx(x: f64) -> Fixed {
    Fixed { raw: (x * 1e9).round() as i64 }
}

#[test]
fn fixed_point_operations_round_down_and_saturate() {
    assert_eq!(fx(1.5).sat_add(fx(2.25)), fx(3.75));
    assert_eq!(fx(1.5).sat_sub(fx(2.25)), fx(-0.75));
    assert_eq!(fx(1.5).sat_mul(fx(-2.0)), fx(-3.0));
    assert_eq!(Fixed { raw: 1 }.sat_mul(fx(0.5)), Fixed { raw: 0 });
    assert_eq!(Fixed { raw: -1 }.sat_mul(fx(0.5)), Fixed { raw: -1 });
    assert_eq!(fx(1.0).checked_div(fx(3.0)), Some(Fixed { raw: 333_333_333 }));
    assert_eq!(fx(-1.0).checked_div(fx(3.0)), Some(Fixed { raw: -333_333_334 }));
    assert_eq!(fx(1.0).checked_div(fx(-4.0)), Some(fx(-0.25)));
    assert_eq!(fx(1.0).checked_div(fx(0.0)), None);
    assert_eq!(fx(7.0).div_count(2), fx(3.5));
    assert_eq!(Fixed { raw: -7 }.div_count(2), Fixed { raw: -4 });
    assert_eq!(fx(-2.0).abs_diff(fx(3.0)), fx(5.0));
    assert_eq!(Fixed { raw: i64::MAX }.sat_add(fx(1.0)), Fixed { raw: i64::MAX });
    assert_eq!(Fixed { raw: i64::MIN }.sat_sub(fx(1.0)), Fixed { raw: i64::MIN });
    assert_eq!(Fixed { raw: i64::MAX }.sat_mul(fx(2.0)), Fixed { raw: i64::MAX });
    assert_eq!(Fixed { raw: i64::MIN }.abs_diff(Fixed { raw: i64::MAX }), Fixed { raw: i64::MAX });
    assert_eq!(Fixed::from_int(-3), fx(-3.0));
    assert_eq!(Fixed::from_int(i64::MAX), Fixed { raw: i64::MAX });
    assert_eq!(Fixed::sqrt_count(9), fx(3.0));
    assert_eq!(Fixed::sqrt_count(usize::MAX).raw, 4_294_967_295_999_999_999);
    assert_eq!(Fixed::zero(), fx(0.0));
    assert_eq!(Fixed::one(), fx(1.0));
    assert!(fx(1.0).in_unit_interval());
    assert!(!Fixed { raw: 1_000_000_001 }.in_unit_interval());
    assert!(!Fixed { raw: -1 }.in_unit_interval());
}

#[test]
fn deterministic_policy_rejects_indices_out_of_range() {
    let env = LineWorld::new();
    let mut rng = RandomSource::seeded(2);
    let mut policy = DeterministicPolicy::new_det_pol(&env, &mut rng);
    let first = policy.get_action(&0).unwrap();
    assert!(first < 2);
    assert!(policy.policy_table().iter().all(|a| *a == first));
    assert_eq!(policy.set_action(&5, 0), Err(RlError::IndexOutOfRange));
    assert_eq!(policy.set_action(&0, 2), Err(RlError::IndexOutOfRange));
    assert_eq!(policy.get_action(&5), Err(RlError::IndexOutOfRange));
    assert_eq!(policy.set_action(&4, 1 - first), Ok(()));
    assert_eq!(policy.get_action(&4), Ok(1 - first));
    assert_eq!(policy.action_at(3), first);
    policy.assign(3, 1 - first);
    assert_eq!(policy.policy_table()[3], 1 - first);
    assert_eq!(Policy::get_action(&policy, &4, &mut rng), Ok(1 - first));
    assert_eq!(Policy::get_action(&policy, &9, &mut rng), Err(RlError::IndexOutOfRange));
    assert_eq!(policy.num_states(), 5);
    assert_eq!(policy.num_actions(), 2);
    assert_eq!(
        DeterministicPolicy::from_vec(&env, vec![0, 1, 0]).unwrap_err(),
        RlError::IndexOutOfRange
    );
    assert_eq!(
        DeterministicPolicy::from_vec(&env, vec![0, 1, 0, 2, 0]).unwrap_err(),
        RlError::IndexOutOfRange
    );
    let loaded = DeterministicPolicy::from_vec(&env, vec![0, 1, 0, 1, 0]).unwrap();
    assert_eq!(loaded.policy_table(), &vec![0, 1, 0, 1, 0]);
}

#[test]
fn saving_and_loading_give_the_policy_back() {
    let policy = DeterministicPolicy::from_parts(4, 3, vec![2, 0, 1, 1]).unwrap();
    let (states, actions, table) = policy.into_parts();
    assert_eq!((states, actions, table.clone()), (4, 3, vec![2, 0, 1, 1]));
    let again = DeterministicPolicy::from_parts(states, actions, table).unwrap();
    for s in 0..4 {
        assert_eq!(again.get_action(&s).unwrap(), [2, 0, 1, 1][s]);
    }
    let text = serde_json::to_string(&again.into_parts()).unwrap();
    let (states, actions, table): (usize, usize, Vec<usize>) =
        serde_json::from_str(&text).unwrap();
    let loaded = DeterministicPolicy::from_parts(states, actions, table).unwrap();
    assert_eq!(loaded.policy_table(), &vec![2, 0, 1, 1]);

    let env = new_monty_hall(1, &mut RandomSource::seeded(0));
    let mut uniform = ProbabilisticPolicy::new_pb_pol(&env);
    uniform.set_probability(2, 0, fx(0.25)).unwrap();
    let before = uniform.policy_table().clone();
    let (states, actions, table) = uniform.into_parts();
    let raw: Vec<i64> = table.iter().map(|p| p.raw).collect();
    let text = serde_json::to_string(&(states, actions, raw)).unwrap();
    let (states, actions, raw): (usize, usize, Vec<i64>) = serde_json::from_str(&text).unwrap();
    let table: Vec<Fixed> = raw.iter().map(|r| Fixed { raw: *r }).collect();
    let loaded = ProbabilisticPolicy::from_parts(states, actions, table).unwrap();
    assert_eq!(loaded.policy_table(), &before);
    assert_eq!(loaded.get_probability(2, 0), Ok(fx(0.25)));
    assert_eq!(
        ProbabilisticPolicy::from_parts(2, 2, vec![fx(0.5); 3]).unwrap_err(),
        RlError::IndexOutOfRange
    );
    assert_eq!(
        ProbabilisticPolicy::from_parts(2, 2, vec![fx(0.5), fx(0.5), fx(1.5), fx(0.0)])
            .unwrap_err(),
        RlError::InvalidDistribution
    );
}

#[test]
fn sampling_needs_a_row_that_sums_to_one() {
    let env = new_monty_hall(1, &mut RandomSource::seeded(0));
    let mut rng = RandomSource::seeded(5);
    let mut policy = ProbabilisticPolicy::new_pb_pol(&env);
    assert_eq!(policy.num_states(), 9);
    assert_eq!(policy.num_actions(), 3);
    assert_eq!(policy.get_probability(0, 0), Ok(Fixed { raw: 333_333_334 }));
    assert_eq!(policy.get_probability(0, 1), Ok(Fixed { raw: 333_333_333 }));
    assert_eq!(policy.get_probability(8, 2), Ok(Fixed { raw: 333_333_333 }));
    assert_eq!(policy.get_probability(9, 0), Err(RlError::IndexOutOfRange));
    assert_eq!(policy.get_probability(0, 3), Err(RlError::IndexOutOfRange));
    for s in 0..9 {
        assert!(policy.is_distribution(s));
        let total: i64 = (0..3).map(|a| policy.get_probability(s, a).unwrap().raw).sum();
        assert!((total - 1_000_000_000).abs() <= 1);
    }
    let mut seen = [0usize; 3];
    for _ in 0..3000 {
        seen[policy.sample_action(4, &mut rng).unwrap()] += 1;
    }
    assert!(seen.iter().all(|n| *n > 800));

    assert_eq!(policy.set_probability(1, 0, fx(1.0)), Ok(()));
    assert_eq!(policy.sample_action(1, &mut rng), Err(RlError::InvalidDistribution));
    assert!(!policy.is_distribution(1));
    assert_eq!(policy.set_probability(1, 1, fx(0.0)), Ok(()));
    assert_eq!(policy.set_probability(1, 2, fx(0.0)), Ok(()));
    for _ in 0..50 {
        assert_eq!(policy.sample_action(1, &mut rng), Ok(0));
        assert_eq!(Policy::get_action(&policy, &1, &mut rng), Ok(0));
    }
    assert_eq!(policy.set_probability(1, 2, Fixed { raw: 1 }), Ok(()));
    assert!(policy.is_distribution(1));
    assert_eq!(policy.set_probability(1, 2, Fixed { raw: 2 }), Ok(()));
    assert_eq!(policy.sample_action(1, &mut rng), Err(RlError::InvalidDistribution));
    assert_eq!(policy.sample_action(9, &mut rng), Err(RlError::IndexOutOfRange));
    assert_eq!(policy.set_probability(9, 0, fx(0.5)), Err(RlError::IndexOutOfRange));
    assert_eq!(policy.set_probability(0, 0, fx(1.5)), Err(RlError::InvalidDistribution));
    assert_eq!(policy.set_probability(0, 0, fx(-0.5)), Err(RlError::InvalidDistribution));
    assert_eq!(policy.get_probability(0, 0), Ok(Fixed { raw: 333_333_334 }));

    assert_eq!(policy.set_probability(2, 0, fx(0.2)), Ok(()));
    assert_eq!(policy.set_probability(2, 1, fx(0.3)), Ok(()));
    assert_eq!(policy.set_probability(2, 2, fx(0.5)), Ok(()));
    assert_eq!(policy.pick_action(2, 1), 0);
    assert_eq!(policy.pick_action(2, 200_000_000), 0);
    assert_eq!(policy.pick_action(2, 200_000_001), 1);
    assert_eq!(policy.pick_action(2, 500_000_000), 1);
    assert_eq!(policy.pick_action(2, 500_000_001), 2);
    assert_eq!(policy.pick_action(2, 1_000_000_000), 2);

    let corridor = ProbabilisticPolicy::new_pb_pol(&LineWorld::new());
    assert_eq!(corridor.pick_action(2, 750_000_000), 1);
    assert_eq!(corridor.pick_action(2, 500_000_000), 0);
    assert_eq!(corridor.pick_action(2, 250_000_000), 0);
}

#[test]
fn the_model_rejects_what_does_not_fit() {
    assert_eq!(
        DPEnvironment::new(2, 2, 2, vec![fx(0.0)], vec![]).unwrap_err(),
        RlError::IndexOutOfRange
    );
    assert_eq!(
        DPEnvironment::new(2, 2, 1, vec![fx(0.0)], vec![2]).unwrap_err(),
        RlError::IndexOutOfRange
    );
    assert_eq!(
        DPEnvironment::new(usize::MAX, 2, 1, vec![fx(0.0)], vec![]).unwrap_err(),
        RlError::InvalidParameter
    );
    let mut env = DPEnvironment::new(2, 2, 1, vec![fx(0.5)], vec![1]).unwrap();
    assert_eq!(env.get_transition_prob(1, 1, 1, 0), Ok(fx(0.0)));
    assert_eq!(env.set_transition_prob(1, 1, 1, 0, fx(0.75)), Ok(()));
    assert_eq!(env.get_transition_prob(1, 1, 1, 0), Ok(fx(0.75)));
    assert_eq!(env.get_transition_prob(1, 1, 0, 0), Ok(fx(0.0)));
    assert_eq!(env.get_transition_prob(0, 1, 1, 0), Ok(fx(0.0)));
    assert_eq!(env.set_transition_prob(2, 0, 0, 0, fx(1.0)), Err(RlError::IndexOutOfRange));
    assert_eq!(env.set_transition_prob(0, 2, 0, 0, fx(1.0)), Err(RlError::IndexOutOfRange));
    assert_eq!(env.set_transition_prob(0, 0, 2, 0, fx(1.0)), Err(RlError::IndexOutOfRange));
    assert_eq!(env.set_transition_prob(0, 0, 0, 1, fx(1.0)), Err(RlError::IndexOutOfRange));
    env.put_transition(0, 1, 1, 0, fx(1.0));
    assert_eq!(env.get_transition_prob(0, 1, 1, 0), Ok(fx(1.0)));
    assert_eq!(env.get_reward(0), Ok(fx(0.5)));
    assert_eq!(env.get_terminal_states(), vec![1]);
}

#[test]
fn rock_paper_scissors_plays_two_rounds() {
    let mut rng = RandomSource::seeded(8);
    let mut env = PierreFeuilleCiseaux::new();
    assert_eq!(env.display(), "0");
    assert_eq!(env.state_id(), 0);
    let (state, reward) = env.step(1, &mut rng);
    assert_eq!(state, 1 + env.adv_action);
    let expected = [[0, -1, 1], [1, 0, -1], [-1, 1, 0]][1][env.adv_action];
    assert_eq!(reward, Fixed::from_int(expected));
    assert!(!env.is_game_over());
    let (state, second) = env.step(2, &mut rng);
    assert_eq!(env.adv_action, 1);
    assert_eq!(state, 4 + 2 * 3 + 1);
    assert_eq!(second, fx(1.0));
    assert_eq!(env.score(), reward.sat_add(second));
    assert!(env.is_game_over());
    assert_eq!(env.display(), "2SP");
    assert_eq!(env.action_name(0), "Pierre");
    assert_eq!(env.action_name(2), "Ciseaux");
    for _ in 0..100 {
        env.start_from_random_state(&mut rng);
        assert!(env.state_id() < env.num_states());
        assert!(env.round_number <= 2);
        assert!(env.score.raw.abs() <= env.round_number as i64 * 1_000_000_000);
    }
    let model = pierre_feuille_ciseaux_dp();
    assert_eq!(model.get_transition_prob(0, 2, 3, 0), Ok(Fixed { raw: 333_333_334 }));
    assert_eq!(model.get_transition_prob(0, 2, 3, 2), Ok(Fixed { raw: 333_333_333 }));
    assert_eq!(model.get_transition_prob(1, 1, 4, 2), Ok(fx(1.0)));
    assert_eq!(model.get_transition_prob(1, 2, 4, 0), Ok(fx(1.0)));
    assert_eq!(model.get_transition_prob(3, 2, 4, 1), Ok(fx(1.0)));
    let (policy, values, _, _) = tabular_rl::algorithms::dp::value_iteration::value_iteration(
        &model,
        fx(1e-4),
        fx(0.99),
        100,
    )
    .unwrap();
    assert_eq!(&policy.policy_table()[1..4], &[1, 2, 0]);
    assert_eq!(values[1], fx(1.0));
}

#[test]
fn corridor_helpers_step_and_select() {
    let mut rng = RandomSource::seeded(1);
    let mut env = LineWorld::new();
    assert_eq!(current_state(&env), 2);
    assert_eq!(environment_step(&mut env, 1, &mut rng), (fx(0.0), 3));
    assert_eq!(environment_step(&mut env, 1, &mut rng), (fx(1.0), 4));
    let mut q = QTable::new();
    q.set(2, 1, fx(0.5));
    assert_eq!(choose_action(&q, 2, &vec![0, 1], fx(0.0), &mut rng), 1);
    assert_eq!(choose_action(&q, 3, &vec![0, 1], fx(0.0), &mut rng), 0);
}

#[test]
fn options_are_checked_before_a_run() {
    let mut cfg = Config::default();
    assert_eq!(cfg.alpha, fx(0.1));
    assert_eq!(cfg.epsilon, fx(0.1));
    assert_eq!(cfg.gamma, fx(0.99));
    assert_eq!(cfg.theta, fx(1e-4));
    assert_eq!(cfg.kappa, fx(0.001));
    assert_eq!(cfg.max_iter, 1000);
    assert_eq!(cfg.planning_steps, 10);
    assert_eq!(cfg.output_dir, "output/default");
    assert_eq!(cfg.validate(), Err(RlError::InvalidParameter));
    cfg.env_name = "grid_world".to_string();
    cfg.algorithm = "dyna_q_plus".to_string();
    assert_eq!(cfg.validate(), Ok((EnvironmentKind::GridWorld, Algorithm::DynaQPlus)));
    cfg.gamma = fx(1.01);
    assert_eq!(cfg.validate(), Err(RlError::InvalidParameter));
    cfg.gamma = fx(1.0);
    cfg.epsilon = fx(-0.01);
    assert_eq!(cfg.validate(), Err(RlError::InvalidParameter));
    cfg.epsilon = fx(0.0);
    cfg.algorithm = "q-learning".to_string();
    assert_eq!(cfg.validate(), Err(RlError::InvalidParameter));
    let names = [
        "policy_iteration",
        "value_iteration",
        "mc_es",
        "on_policy_mc",
        "off_policy_mc",
        "sarsa",
        "expected_sarsa",
        "q_learning",
        "dyna_q",
        "dyna_q_plus",
    ];
    let kinds: Vec<Algorithm> =
        names.iter().map(|n| algorithm_kind(&n.to_string()).unwrap()).collect();
    assert_eq!(kinds[0], Algorithm::PolicyIteration);
    assert_eq!(kinds[4], Algorithm::OffPolicyMc);
    assert_eq!(kinds[8], Algorithm::DynaQ);
    for i in 0..10 {
        for j in 0..i {
            assert_ne!(kinds[i], kinds[j]);
        }
    }
    assert_eq!(environment_kind(&"line_world".to_string()), Some(EnvironmentKind::LineWorld));
    assert_eq!(environment_kind(&"pfs".to_string()), Some(EnvironmentKind::PierreFeuilleCiseaux));
    assert_eq!(environment_kind(&"secret_0".to_string()), Some(EnvironmentKind::Secret0));
    assert_eq!(environment_kind(&"secret_1".to_string()), None);
}

#[test]
fn a_policy_is_played_and_scored() {
    let mut rng = RandomSource::seeded(6);
    let mut env = LineWorld::new();
    let right = DeterministicPolicy::filled(5, 2, 1);
    let steps = run_policy(&mut env, &right, 100, &mut rng).unwrap();
    let seen: Vec<(usize, usize, Fixed)> =
        steps.iter().map(|v| (v.state, v.action, v.reward)).collect();
    assert_eq!(seen, vec![(2, 1, fx(0.0)), (3, 1, fx(1.0))]);
    assert!(env.is_game_over());
    let steps = run_policy(&mut env, &right, 1, &mut rng).unwrap();
    assert_eq!(steps.len(), 1);
    assert_eq!(run_policy(&mut env, &right, 0, &mut rng).unwrap().len(), 0);
    let narrow = DeterministicPolicy::filled(3, 2, 1);
    assert_eq!(run_policy(&mut env, &narrow, 10, &mut rng).unwrap_err(), RlError::IndexOutOfRange);
    assert_eq!(env.agent_pos, 3);
    assert!(!env.is_game_over());
    assert_eq!(evaluate_policy(&mut env, &right, 10, fx(0.5), 100, &mut rng), Ok(fx(0.5)));
    let left = DeterministicPolicy::filled(5, 2, 0);
    assert_eq!(evaluate_policy(&mut env, &left, 4, fx(1.0), 100, &mut rng), Ok(fx(-1.0)));
    assert_eq!(
        evaluate_policy(&mut env, &left, 0, fx(1.0), 100, &mut rng),
        Err(RlError::InvalidParameter)
    );
    assert_eq!(
        evaluate_policy(&mut env, &left, 4, fx(1.5), 100, &mut rng),
        Err(RlError::InvalidParameter)
    );
    let small = DeterministicPolicy::filled(2, 2, 0);
    assert_eq!(
        evaluate_policy(&mut env, &small, 4, fx(1.0), 100, &mut rng),
        Err(RlError::IndexOutOfRange)
    );
    let wide = DeterministicPolicy::filled(5, 4, 3);
    env.reset(&mut rng);
    assert_eq!(policy_step(&mut env, &wide, &mut rng), Err(RlError::IndexOutOfRange));
    assert_eq!(env.agent_pos, 2);
    assert_eq!(policy_step(&mut env, &left, &mut rng), Ok((0, fx(0.0))));
    assert_eq!(discounted_return(&vec![fx(1.0), fx(2.0), fx(4.0)], fx(0.5)), fx(3.0));
    assert_eq!(discounted_return(&vec![], fx(0.5)), fx(0.0));
}

#[test]
fn a_hand_played_step_needs_an_action_on_offer() {
    let mut rng = RandomSource::seeded(6);
    let mut env = new_monty_hall(1, &mut rng);
    assert_eq!(run_manual(&mut env, 3, &mut rng), None);
    assert_eq!(env.nb_porte, 3);
    assert_eq!(run_manual(&mut env, 1, &mut rng).is_some(), true);
    assert_eq!(env.nb_porte, 2);
    assert!(accepts_choice(&vec![4, 2], 2));
    assert!(!accepts_choice(&vec![4, 2], 3));
    assert!(!accepts_choice(&vec![], 0));
}
