//! A verified core for a small interactive shell: pipeline validation and
//! splitting, per-stage planning (built-ins, stream wiring), and binary
//! resolution over a search path.
//!
//! The crate holds the decision logic only.  Reading input, touching the
//! filesystem and spawning processes are left to the surrounding program,
//! which feeds this library plain strings and acts on the plans it returns.

pub mod execute;
pub mod parser;
pub mod text;
