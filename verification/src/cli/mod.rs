//! What the command line makes of its arguments.

pub mod args;
pub mod args_laws;
pub mod io;
