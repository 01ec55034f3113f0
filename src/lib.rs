//! A cross-build orchestrator: dependency walking, recipe finalization,
//! gated build stages and sysroot synchronization.

pub mod config;
pub mod env;
pub mod finalize;
pub mod recipe;
pub mod source;
pub mod stages;
pub mod substitute;
pub mod sync;
pub mod template;
pub mod text;
pub mod walk;

pub use template::{Template, Templates};
