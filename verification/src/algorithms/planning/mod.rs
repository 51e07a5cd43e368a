pub mod dyna_q;
pub mod dyna_q_plus;
pub mod helpers;
pub mod model;
