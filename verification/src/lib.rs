//! Code generation for the JSG attribute macros.

pub mod attrs;
pub mod code;
pub mod emitted;
pub mod expand;
pub mod laws;
pub mod names;
pub mod resource;
pub mod run;
pub mod spelling;
pub mod syntax;
pub mod trace;
pub mod traceable;
pub mod visits;
