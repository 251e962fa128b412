pub mod commands;
pub mod compiling;
pub mod editor;
pub mod flags;
pub mod parsing;
pub mod serializing;
pub mod settings;
pub mod text;
