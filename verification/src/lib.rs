//! Verified core of a minimal OCI container runtime.
//!
//! The library holds the decision logic of container bring-up: the
//! namespace planner, the mount and pivot choreography expressed as an
//! action plan, the PTY handoff steps, the exec-rendezvous path rules,
//! the PID-file rendering, and the configuration model with its JSON
//! codec.  The surrounding binary performs the system calls that the
//! plans prescribe.

pub mod config;
pub mod emit;
pub mod extract;
pub mod json;
pub mod nsflags;
pub mod paths;
pub mod plan;
pub mod pidfile;
pub mod render;
pub mod text;
