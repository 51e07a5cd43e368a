pub mod agreement;
pub mod contraction;
pub mod model;
pub mod policy_iteration;
pub mod value_iteration;
