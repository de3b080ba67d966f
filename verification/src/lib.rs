//! An on-demand module loader for an embedded script runtime.
//!
//! Given an entry-point path, the library resolves import specifiers,
//! plans and completes fetches from `file`, `http(s)` and `data` origins,
//! lowers statically-typed source to the runtime's native language, and
//! drives a run through loading, evaluation and event-loop draining.

pub mod driver;
pub mod errors;
pub mod fetch;
pub mod loader;
pub mod resolve;
pub mod specifier;
pub mod transpile;
