pub mod display;
pub mod event_handling;
pub mod formula;
pub mod graphics;
pub mod parser;
pub mod sections;
pub mod types;
