pub mod episode;
pub mod mc_es;
pub mod off_policy;
pub mod on_policy_first_visit;
