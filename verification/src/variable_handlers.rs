//! Handlers that supply values for the variables of a text.

pub mod compound;
pub mod env;

pub use compound::CompoundHandler;
pub use env::EnvVariableHandler;
