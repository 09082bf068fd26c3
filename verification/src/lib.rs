//! Verified core of a bounded tool runtime: budgets, blob storage, execution
//! registries, desktop and browser input policies, and text-edit planning.

mod error;
pub mod text;
pub mod utf8;

pub use error::{RuntimeError, RuntimeResult};
pub mod budget;
pub mod context;
pub mod blob;
pub mod digest;
pub mod command;
pub mod artifact_quota;
pub mod computer;
pub mod desktop;
pub mod version;
pub mod edits;
pub mod workspace;
