//! Export-driven dead-code elimination for a module tree.
//!
//! Given a module (an ordered list of top-level items whose bindings carry
//! resolver-assigned symbol identities) and a set of export names to retain,
//! the engine deletes every declaration, import specifier and statement that
//! is not needed to produce the retained exports, by repeated
//! analyze-then-sweep passes until a fixed point is reached.
//!
//! - `ast` holds the module tree and its ghost model;
//! - `liveness` the shared state of the two passes;
//! - `analysis` the reference analyzer;
//! - `sweep` the pruner;
//! - `engine` the fixed-point driver and the entry point `eliminate`;
//! - `config` the JSON retain-set configuration;
//! - `laws` and `stability` the proved laws: retention and deletion
//!   soundness, minimality pressure, termination bound, idempotence.
#![verifier::loop_isolation(false)]

pub mod analysis;
pub mod ast;
pub mod config;
pub mod engine;
pub mod laws;
pub mod liveness;
pub mod stability;
pub mod sweep;

pub use ast::Module;
pub use config::eliminate_configured;
pub use config::retain_names_from_json;
pub use engine::eliminate;
