pub mod expected_sarsa;
pub mod q_learning;
pub mod sarsa;
