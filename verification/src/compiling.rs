pub mod compiler;
pub mod error;
pub mod formula;
pub mod invariants;
pub mod math_file;
pub mod theorem;
pub mod types;
pub mod validity;
pub mod verification;
