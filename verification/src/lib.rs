//! Publication readiness checks for a fleet of Rust crates.
//!
//! The library holds the decisions of the readiness checks: the report model
//! ([`models`]), text tests on source files and tool output ([`text`]), the
//! std path operations it relies on ([`paths`]), the reading of a package
//! manifest ([`manifest`]), the step-by-step check of one crate
//! ([`pipeline`]), the selection of crate manifests in a directory
//! ([`discover`]), and the plan of the printed and JSON summaries
//! ([`summary`]). Everything that touches the file system, the network or a
//! child process is done by the caller, which hands the library plain values.

pub mod models;
pub mod text;
pub mod paths;
pub mod manifest;
pub mod pipeline;
pub mod discover;
pub mod summary;
