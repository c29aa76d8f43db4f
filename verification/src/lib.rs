//! A per-project build-and-test orchestrator library.
//!
//! The crate models a declarative configuration (which build steps to run,
//! which artifacts to clean up, how to test a program against a directory of
//! input/expected-output cases) and the decision logic of the orchestration:
//! fail-fast builds, deterministic test-case pairing, trim-insensitive output
//! comparison, and scoped cleanup whose teardown result is combined with the
//! guarded action's result.

pub mod cases;
pub mod config;
pub mod doc;
pub mod errors;
pub mod fold;
pub mod program;
pub mod project;
pub mod text;
