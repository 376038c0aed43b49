//! A verified core of a behaviour-driven test runner.
//!
//! Feature scenarios ("cukes") are matched against a registry of step
//! handlers (the glue), executed with lifecycle hooks, and every transition
//! is published as an event.  The scenario runner, step-match resolver,
//! hook pipeline, event bus, built-in listeners and the sequential
//! scheduler live here with their contracts; handler bodies, feature-file
//! parsing and thread fan-out are supplied by the embedding program.

pub mod cuke;
pub mod engine;
pub mod event;
pub mod glue;
pub mod laws;
pub mod listener;
pub mod location;
pub mod resolver;
pub mod result;
pub mod runner;
pub mod scenario;
pub mod step_expression;
pub mod tag;
