pub mod builtins;
pub mod command;
pub mod executable;
pub mod number;
mod system;
pub mod text;
pub mod tokenize;
