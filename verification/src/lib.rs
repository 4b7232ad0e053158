//! Workflow execution core: a JSON-shaped template engine with path-addressed
//! variable lookups, a context bundler, an in-memory flow-session cache, a
//! graph walker that picks the next action of a run, and the admission and
//! lifecycle rules of the processor that drives each flow session.

pub mod action;
pub mod bundler;
pub mod cache;
pub mod json;
pub mod processor;
pub mod templater;
pub mod text;
pub mod walker;
