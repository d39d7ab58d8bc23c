//! A verified core for a local encrypted credential store, together with
//! the other small verified libraries of this workspace: a configuration
//! parser, an HTTP request parser and router, a plugin registry, an
//! expiring cache, task lists and a log analyzer.
//!
//! The credential store derives one symmetric key per session from a master
//! password and a per-store salt, seals the whole collection as a single
//! authenticated blob, and fails closed on any tampering.  Its byte layout,
//! its canonical text form and the round trip through both are specified
//! and proved in `crypto`, `codec` and `storage`.

pub mod cache;
pub mod codec;
pub mod config;
pub mod convert;
pub mod crypto;
pub mod filemgr;
pub mod get_even_numbers;
pub mod http;
pub mod log_analyzer;
pub mod models;
pub mod plugin;
pub mod projgen;
pub mod rpn;
pub mod search;
pub mod storage;
pub mod strutil;
pub mod sysmon;
pub mod task_store;
pub mod tasks;
