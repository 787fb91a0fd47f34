//! Build-orchestration core of a C/C++ project manager.
//!
//! The crate models the project manifest, the dependency lock file, toolchain
//! resolution, compiler-dialect translation, dependency fetch planning and the
//! two-phase test runner, and proves the properties these components promise.

pub mod config;
pub mod deps;
pub mod dialect;
pub mod lock;
pub mod pipeline;
pub mod strutil;
pub mod testrun;
pub mod toolchain;
