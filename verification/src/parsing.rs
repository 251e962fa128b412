pub mod formula;
pub mod read_file;
pub mod types;
