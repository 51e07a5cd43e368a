use tabular_rl::algorithms::dp::policy_iteration::policy_evaluation;
use tabular_rl::algorithms::dp::policy_iteration::policy_improvement;
use tabular_rl::algorithms::dp::policy_iteration::policy_iteration;
use tabular_rl::algorithms::dp::policy_iteration::policy_iteration_from;
use tabular_rl::algorithms::dp::value_iteration::value_iteration;
use tabular_rl::environments::line_world::line_world_dp;
use tabular_rl::envs::DPEnvironment;
use tabular_rl::envs::DynamicProgramingEnvironment;
use tabular_rl::envs::Environment;
use tabular_rl::error::RlError;
use tabular_rl::fixed::Fixed;
use tabular_rl::policies::DeterministicPolicy;
use tabular_rl::random::RandomSource;

fn fx(x: f64) -> Fixed {
    Fixed { raw: (x * 1e9).round() as i64 }
}

fn as_float(x: Fixed) -> f64 {
    x.raw as f64 / 1e9
}

#[test]
fn test_policy_evaluation() {
    let env = line_world_dp();
    let mut rng = RandomSource::seeded(0);
    let mut policy: DeterministicPolicy = DeterministicPolicy::new_det_pol(&env, &mut rng);
    for s in 0..env.num_states() {
        policy.set_action(&s, 1).unwrap();
    }

    let (result, _, _) = policy_evaluation(&env, &policy, fx(0.00001), fx(0.9999), 10_000).unwrap();

    let expected = vec![0.0, 1.0, 1.0, 1.0, 0.0];
    let eps = 1e-2;
    for (got, want) in result.iter().zip(&expected) {
        assert!(
            (as_float(*got) - want).abs() < eps,
            "V computed = {:?}, but expected ≃ {:?}",
            got,
            want
        );
    }
}

#[test]
fn test_policy_iteration() {
    let env = line_world_dp();
    let expected = vec![0, 1, 1, 1, 0];
    let mut rng = RandomSource::seeded(0);
    for _ in 0..50 {
        let (policy, _, _, _, _) = policy_iteration(&env, fx(0.0001), fx(0.99), 1000, &mut rng).unwrap();

        for s in 0..3 {
            assert_eq!(
                expected[s],
                policy.get_action(&s).unwrap(),
                "État {} doit aller à droite",
                s
            )
        }
    }
}

#[test]
fn test_value_iteration() {
    let env = line_world_dp();

    let (policy, values, _, _) = value_iteration(&env, fx(0.0001), fx(0.99), 1000).unwrap();
    let expected = vec![0, 1, 1, 1, 0];
    println!("Values : {:?}", values);
    println!("Policy : {:?}", policy);

    for s in 0..3 {
        assert_eq!(
            expected[s],
            policy.get_action(&s).unwrap(),
            "État {} doit aller à droite",
            s
        )
    }
}

#[test]
fn test_line_world_dp_structure_and_transitions() {
    let env = line_world_dp();
    assert_eq!(env.num_states(), 5);
    assert_eq!(env.num_actions(), 2);
    assert_eq!(env.num_rewards(), 3);
    let rewards: Vec<f64> = (0..3).map(|i| as_float(env.get_reward(i).unwrap())).collect();
    assert_eq!(rewards, vec![-1.0, 0.0, 1.0]);

    let terminal_states = env.get_terminal_states();
    println!("{:?}", terminal_states);
    assert!(terminal_states.contains(&0));
    assert!(terminal_states.contains(&4));

    assert_eq!(as_float(env.get_transition_prob(3, 0, 2, 1).unwrap()), 1.0);
    assert_eq!(as_float(env.get_transition_prob(1, 0, 0, 0).unwrap()), 1.0);
    assert_eq!(as_float(env.get_transition_prob(3, 1, 4, 2).unwrap()), 1.0);
}

#[test]
fn evaluation_of_move_right_rounds_to_the_expected_values() {
    let env = line_world_dp();
    let policy = DeterministicPolicy::from_parts(5, 2, vec![1, 1, 1, 1, 1]).unwrap();
    let (values, sweeps, delta) =
        policy_evaluation(&env, &policy, fx(1e-4), fx(0.99), 1000).unwrap();
    let rounded: Vec<f64> = values.iter().map(|v| (as_float(*v) * 100.0).round() / 100.0).collect();
    assert_eq!(rounded, vec![0.0, 0.98, 0.99, 1.0, 0.0]);
    assert_eq!(values[3], Fixed { raw: 1_000_000_000 });
    assert_eq!(values[2], Fixed { raw: 990_000_000 });
    assert_eq!(values[1], Fixed { raw: 980_100_000 });
    assert_eq!(sweeps, 4);
    assert_eq!(delta, Fixed { raw: 0 });
}

#[test]
fn evaluation_stops_at_the_cap_and_reports_it() {
    let env = line_world_dp();
    let policy = DeterministicPolicy::from_parts(5, 2, vec![1, 1, 1, 1, 1]).unwrap();
    let (values, sweeps, delta) = policy_evaluation(&env, &policy, fx(1e-4), fx(0.99), 1).unwrap();
    assert_eq!(sweeps, 1);
    assert_eq!(delta, Fixed { raw: 1_000_000_000 });
    assert_eq!(values[3], Fixed { raw: 1_000_000_000 });
    assert_eq!(values[2], Fixed { raw: 0 });
    let (values, sweeps, delta) = policy_evaluation(&env, &policy, fx(1e-4), fx(0.99), 0).unwrap();
    assert_eq!(sweeps, 0);
    assert_eq!(delta, Fixed { raw: i64::MAX });
    assert!(values.iter().all(|v| v.raw == 0));
}

#[test]
fn solvers_reject_what_they_cannot_solve() {
    let env = line_world_dp();
    let policy = DeterministicPolicy::from_parts(5, 2, vec![1, 1, 1, 1, 1]).unwrap();
    assert_eq!(
        policy_evaluation(&env, &policy, fx(1e-4), fx(1.5), 10).unwrap_err(),
        RlError::InvalidParameter
    );
    assert_eq!(
        value_iteration(&env, fx(1e-4), fx(-0.1), 10).unwrap_err(),
        RlError::InvalidParameter
    );
    let short = DeterministicPolicy::from_parts(4, 2, vec![1, 1, 1, 1]).unwrap();
    assert_eq!(
        policy_evaluation(&env, &short, fx(1e-4), fx(0.9), 10).unwrap_err(),
        RlError::IndexOutOfRange
    );
    assert_eq!(
        policy_improvement(&env, &policy, &vec![Fixed { raw: 0 }; 4], fx(0.9)).unwrap_err(),
        RlError::IndexOutOfRange
    );
    let mut broken = DPEnvironment::new(2, 1, 1, vec![fx(1.0)], vec![1]).unwrap();
    broken.set_transition_prob(0, 0, 1, 0, fx(0.5)).unwrap();
    assert_eq!(
        value_iteration(&broken, fx(1e-4), fx(0.9), 10).unwrap_err(),
        RlError::InvalidDistribution
    );
    let mut rng = RandomSource::seeded(1);
    assert_eq!(
        policy_iteration(&broken, fx(1e-4), fx(0.9), 10, &mut rng).unwrap_err(),
        RlError::InvalidDistribution
    );
}

#[test]
fn value_iteration_and_policy_iteration_agree_on_the_corridor() {
    let env = line_world_dp();
    let (by_values, values, sweeps, delta) =
        value_iteration(&env, fx(1e-4), fx(0.99), 1000).unwrap();
    assert!(sweeps < 1000);
    assert!(delta.raw < fx(1e-4).raw);
    for start in 0..2 {
        let initial = DeterministicPolicy::filled(5, 2, start);
        let (by_policies, _, rounds, stable, change) =
            policy_iteration_from(&env, initial, fx(1e-4), fx(0.99), 100).unwrap();
        assert!(stable);
        assert!(rounds <= 100);
        assert!(change.raw < fx(1e-4).raw);
        assert_eq!(by_policies.policy_table(), by_values.policy_table());
        assert_eq!(by_policies.policy_table(), &vec![0, 1, 1, 1, 0]);
    }
    assert_eq!(values[3], Fixed { raw: 1_000_000_000 });
}

#[test]
fn improvement_breaks_ties_towards_the_first_action() {
    let env = line_world_dp();
    let old = DeterministicPolicy::filled(5, 2, 1);
    let zeros = vec![Fixed { raw: 0 }; 5];
    let (policy, stable) = policy_improvement(&env, &old, &zeros, fx(0.9)).unwrap();
    assert_eq!(policy.policy_table(), &vec![0, 1, 0, 1, 0]);
    assert!(!stable);
}

#[test]
fn the_corridor_is_worth_about_one_on_the_way_to_the_goal() {
    let env = line_world_dp();
    let policy = DeterministicPolicy::filled(5, 2, 1);
    let (values, sweeps, delta) =
        policy_evaluation(&env, &policy, fx(1e-4), fx(0.99), 1000).unwrap();
    assert!(sweeps < 1000 && delta.raw < fx(1e-4).raw);
    for (got, want) in values.iter().zip([0.0, 1.0, 1.0, 1.0, 0.0]) {
        assert!((as_float(*got) - want).abs() <= 0.02);
    }
    let (values, _, _) = policy_evaluation(&env, &policy, fx(0.00001), fx(0.9999), 1000).unwrap();
    let rounded: Vec<f64> =
        values.iter().map(|v| (as_float(*v) * 100.0).round() / 100.0).collect();
    assert_eq!(rounded, vec![0.0, 1.0, 1.0, 1.0, 0.0]);
}

#[test]
fn a_further_sweep_changes_converged_values_by_less_than_theta() {
    let env = tabular_rl::environments::grid_world::grid_world();
    let policy = DeterministicPolicy::filled(25, 4, 3);
    let theta = fx(1e-3);
    let gamma = fx(0.9);
    let mut last = i64::MAX;
    for cap in 1..40 {
        let (values, sweeps, delta) = policy_evaluation(&env, &policy, theta, gamma, cap).unwrap();
        assert!(delta.raw <= last);
        last = delta.raw;
        if delta.raw < theta.raw {
            let (more, _, next) =
                policy_evaluation(&env, &policy, theta, gamma, sweeps + 1).unwrap();
            let (forced, done, _) =
                policy_evaluation(&env, &policy, Fixed { raw: i64::MIN }, gamma, sweeps + 1)
                    .unwrap();
            assert_eq!(done, sweeps + 1);
            assert_eq!(more, values);
            assert_eq!(next, delta);
            let change = forced.iter().zip(&values).map(|(a, b)| (a.raw - b.raw).abs()).max();
            assert!(change.unwrap() < theta.raw);
            return;
        }
    }
    panic!("evaluation did not converge");
}
