pub mod arith;
pub mod date;
pub mod laws;
pub mod loan;
pub mod model;
pub mod utils;
