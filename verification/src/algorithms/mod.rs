pub mod dp;
pub mod mc;
pub mod planning;
pub mod td;
