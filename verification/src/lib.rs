//! Backend bootstrap for a local desktop application: a forward-only schema
//! migration engine, a sidecar process supervisor, and the startup
//! orchestrator that ties them together.
//!
//! The engine and the supervisor are written as decision logic over plain
//! values: the surrounding runtime executes statements against the store and
//! performs the actual process spawning, and hands the observed outcomes back
//! to these types.

pub mod commands;
pub mod migration;
pub mod orchestrator;
pub mod store;
pub mod supervisor;
