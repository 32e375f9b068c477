pub mod base;
pub mod comb;
pub mod lp;
pub mod problem;
pub mod solver;
pub mod testing;
pub mod utils;
