use tabular_rl::environments::grid_world::grid_world;
use tabular_rl::environments::grid_world::GridWorld;
use tabular_rl::environments::line_world::LineWorld;
use tabular_rl::environments::monty_hall_lvl1::monty_hall_lvl1_dp;
use tabular_rl::environments::monty_hall_lvl1::new_monty_hall;
use tabular_rl::environments::monty_hall_lvl1::MontyHallEnv;
use tabular_rl::envs::DynamicProgramingEnvironment;
use tabular_rl::envs::Environment;
use tabular_rl::envs::MonteCarloEnvironment;
use tabular_rl::error::RlError;
use tabular_rl::fixed::Fixed;
use tabular_rl::random::RandomSource;

fn as_float(x: Fixed) -> f64 {
    x.raw as f64 / 1e9
}

#[test]
fn test_grid_world_transitions() {
    let env = grid_world();

    assert_eq!(as_float(env.get_transition_prob(0, 3, 1, 1).unwrap()), 1.0);
    assert_eq!(as_float(env.get_transition_prob(0, 2, 0, 1).unwrap()), 1.0);
    assert_eq!(as_float(env.get_transition_prob(19, 1, 24, 2).unwrap()), 1.0);
    assert_eq!(as_float(env.get_transition_prob(3, 3, 4, 0).unwrap()), 1.0);
}

#[test]
fn test_initial_state() {
    let mut rng = RandomSource::seeded(0);
    let mut env = GridWorld { agent_pos: 0 };
    env.reset(&mut rng);
    assert_eq!(env.agent_pos, 0);
}

#[test]
fn test_valid_transition() {
    let mut rng = RandomSource::seeded(0);
    let mut env = GridWorld { agent_pos: 0 };
    env.reset(&mut rng);
    env.step(3, &mut rng);
    assert_eq!(env.agent_pos, 1);
    assert_eq!(as_float(env.score()), 0.0);
    assert_eq!(env.is_game_over(), false);
}

#[test]
fn test_wall_collision() {
    let mut rng = RandomSource::seeded(0);
    let mut env = GridWorld { agent_pos: 0 };
    env.reset(&mut rng);
    env.step(2, &mut rng);
    assert_eq!(env.agent_pos, 0);
    assert_eq!(as_float(env.score()), 0.0);
    assert_eq!(env.is_game_over(), false);
}

#[test]
fn test_terminal_state_negative_reward() {
    let mut rng = RandomSource::seeded(0);
    let mut env = GridWorld { agent_pos: 0 };
    env.reset(&mut rng);
    env.step(3, &mut rng);
    env.step(3, &mut rng);
    env.step(3, &mut rng);
    env.step(3, &mut rng);
    assert_eq!(env.agent_pos, 4);
    assert_eq!(as_float(env.score()), -3.0);
    assert!(env.is_game_over());
}

#[test]
fn test_terminal_state_positive_reward() {
    let mut rng = RandomSource::seeded(0);
    let mut env = GridWorld { agent_pos: 0 };
    env.reset(&mut rng);
    for _ in 0..4 {
        env.step(1, &mut rng);
    }
    env.step(3, &mut rng);
    env.step(3, &mut rng);
    env.step(3, &mut rng);
    env.step(3, &mut rng);
    assert_eq!(env.agent_pos, 24);
    assert_eq!(as_float(env.score()), 1.0);
    assert!(env.is_game_over());
}

#[test]
fn test_display() {
    let mut rng = RandomSource::seeded(0);
    let mut env = GridWorld { agent_pos: 0 };
    env.reset(&mut rng);
    println!("{}", env.display());
}

#[test]
fn test_line_world_monte_carlo_initial_state() {
    let mut rng = RandomSource::seeded(0);
    let mut env = LineWorld { agent_pos: 0 };
    env.reset(&mut rng);
    assert_eq!(env.agent_pos, 2);
    assert_eq!(env.num_states(), 5);
    assert_eq!(env.num_actions(), 2);
    assert!(!env.is_game_over());
    assert_eq!(as_float(env.score()), 0.0);
}

#[test]
fn test_line_world_monte_carlo_step_and_terminal() {
    let mut rng = RandomSource::seeded(0);
    let mut env = LineWorld { agent_pos: 0 };
    env.reset(&mut rng);

    env.step(0, &mut rng);
    assert_eq!(env.agent_pos, 1);
    assert_eq!(as_float(env.score()), 0.0);
    assert!(!env.is_game_over());

    env.step(0, &mut rng);
    assert_eq!(env.agent_pos, 0);
    assert_eq!(as_float(env.score()), -1.0);
    assert!(env.is_game_over());

    env.reset(&mut rng);
    env.step(1, &mut rng);
    assert_eq!(env.agent_pos, 3);
    assert_eq!(as_float(env.score()), 0.0);
    assert!(!env.is_game_over());
    env.step(1, &mut rng);
    assert_eq!(env.agent_pos, 4);
    assert_eq!(as_float(env.score()), 1.0);
    assert!(env.is_game_over());
}

#[test]
fn test_display_line_world() {
    let mut rng = RandomSource::seeded(0);
    let mut env = LineWorld { agent_pos: 0 };
    env.reset(&mut rng);
    println!("{}", env.display());
}

#[test]
fn test_reset_initializes_state_id_and_ports() {
    let mut rng = RandomSource::seeded(0);
    let mut env = new_monty_hall(1, &mut rng);
    env.reset(&mut rng);
    let gid = env.porte_gagnante;
    assert!(gid < 3);
    assert_eq!(env.state_id(), gid);

    assert_eq!(env.available_actions(), vec![0, 1, 2]);
    assert_eq!(env.nb_porte, 3);
    assert_eq!(env.round, 0);
}

#[test]
fn test_step_updates_state_id_correctly() {
    let mut rng = RandomSource::seeded(0);
    let mut env = MontyHallEnv {
        lvl: 1,
        nb_porte: 3,
        porte_gagnante: 2,
        porte_choisie: None,
        round: 0,
        portes_disponibles: vec![0, 1, 2],
        state_id: 2,
        nb_porte_initial: 3,
    };

    env.step(1, &mut rng);
    assert_eq!(env.state_id(), 7);
    assert_eq!(env.nb_porte, 2);
    assert_eq!(env.round, 1);
    assert!(env.is_game_over());
}

#[test]
fn test_state_id_within_bounds() {
    let mut rng = RandomSource::seeded(0);
    for lvl in &[1, 2] {
        let mut env = new_monty_hall(*lvl, &mut rng);
        for _ in 0..500 {
            env.reset(&mut rng);
            assert!(
                env.state_id() < env.num_states(),
                "Après reset, state_id {} doit < num_states {}",
                env.state_id(),
                env.num_states()
            );
            while !env.is_game_over() {
                let actions = env.available_actions();
                let action = actions[0];
                env.step(action, &mut rng);
                assert!(
                    env.state_id() < env.num_states(),
                    "Après step, state_id {} doit < num_states {}",
                    env.state_id(),
                    env.num_states()
                );
            }
        }
    }
}

#[test]
fn pictures_show_where_the_agent_is() {
    let line = LineWorld { agent_pos: 3 };
    assert_eq!(line.display(), "---A-");
    let grid = GridWorld { agent_pos: 7 };
    assert_eq!(grid.display(), ".....\n..A..\n.....\n.....\n.....\n");
    assert_eq!(grid.action_name(0), "Haut");
    assert_eq!(grid.action_name(3), "Droite");
    assert_eq!(line.action_name(1), "");
    let mut rng = RandomSource::seeded(3);
    let mut doors = new_monty_hall(1, &mut rng);
    assert_eq!(doors.display(), "###");
    assert_eq!(doors.action_name(0), "Porte 1");
    assert_eq!(doors.action_name(9), "Porte 10");
    assert_eq!(doors.action_name(1233), "Porte 1234");
    assert_eq!(doors.action_name(usize::MAX), format!("Porte {}", usize::MAX));
    let winner = doors.porte_gagnante;
    doors.step(winner, &mut rng);
    assert_eq!(doors.display().matches('.').count(), 1);
    assert_eq!(doors.display().matches('X').count(), 1);
    assert_eq!(as_float(doors.score()), 1.0);
    assert!(doors.is_forbidden(7));
}

#[test]
fn the_host_never_removes_the_pick_or_the_prize() {
    let mut rng = RandomSource::seeded(11);
    let mut env = new_monty_hall(2, &mut rng);
    for round in 0..200 {
        env.start_from_random_state(&mut rng);
        while !env.is_game_over() {
            let actions = env.available_actions();
            let action = actions[round % actions.len()];
            env.step(action, &mut rng);
            assert!(env.available_actions().contains(&action));
            assert!(env.available_actions().contains(&env.porte_gagnante));
            assert_eq!(env.available_actions().len(), env.nb_porte);
        }
        assert_eq!(env.nb_porte, 2);
        assert_eq!(env.round, 3);
    }
}

#[test]
fn the_door_game_model_is_refused_by_the_solvers() {
    let env = monty_hall_lvl1_dp();
    assert_eq!(env.num_states(), 36);
    assert_eq!(as_float(env.get_transition_prob(0, 2, 3, 0).unwrap()), 1.0);
    assert_eq!(as_float(env.get_transition_prob(2, 1, 11, 1).unwrap()), 0.5);
    assert_eq!(as_float(env.get_transition_prob(2, 2, 11, 1).unwrap()), 0.0);
    assert_eq!(env.get_transition_prob(36, 0, 0, 0).unwrap_err(), RlError::IndexOutOfRange);
    assert_eq!(env.get_reward(2).unwrap_err(), RlError::IndexOutOfRange);
    let solved = tabular_rl::algorithms::dp::value_iteration::value_iteration(
        &env,
        Fixed { raw: 100_000 },
        Fixed { raw: 990_000_000 },
        10,
    );
    assert_eq!(solved.unwrap_err(), RlError::InvalidDistribution);
}

#[test]
fn random_starts_are_never_over_in_the_door_game() {
    let mut rng = RandomSource::seeded(13);
    let mut first = new_monty_hall(1, &mut rng);
    let mut second = new_monty_hall(2, &mut rng);
    let mut rounds = [false; 3];
    for _ in 0..200 {
        first.start_from_random_state(&mut rng);
        assert_eq!(first.round, 0);
        assert_eq!(first.porte_choisie, None);
        assert_eq!(first.state_id, first.porte_gagnante);
        second.start_from_random_state(&mut rng);
        assert!(second.round <= 2);
        assert!(!second.is_game_over());
        assert_eq!(second.porte_choisie.is_some(), second.round > 0);
        rounds[second.round] = true;
    }
    assert!(rounds.iter().all(|r| *r));
}

#[test]
fn random_starts_stay_on_the_board() {
    let mut rng = RandomSource::seeded(5);
    let mut line = LineWorld::new();
    let mut grid = GridWorld::new();
    let mut seen = [false; 5];
    for _ in 0..200 {
        line.start_from_random_state(&mut rng);
        grid.start_from_random_state(&mut rng);
        assert!(line.state_id() < 5);
        assert!(grid.state_id() < 25);
        seen[line.state_id()] = true;
    }
    assert!(seen.iter().all(|s| *s));
}
