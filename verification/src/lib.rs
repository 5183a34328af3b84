//! The host of a build tool: what it decides, apart from the world it acts on.
//!
//! A build runs on a demand graph of files, packages, targets and actions. The host composes that
//! graph's engine, finds the workspace and the compiler, reads the module file, runs actions in
//! local processes, and writes what was built to disk. Each of these alternates questions to the
//! outside with decisions about the answers. This crate holds the decisions.
//!
//! A decision that spans several questions is a state machine. [`request`] says what to ask next,
//! [`resume`] takes the answer, and [`outcome`] gives the result once nothing is left to ask. What
//! holds of a machine however it is answered is stated over [`protocol`], and proved.
//!
//! Everything here is fail-closed: what is missing is an error that says so, never a default.
//!
//! - [`assembly`] and [`session`]: what an engine and a build session are made of.
//! - [`target`]: labels and target patterns.
//! - [`build_run`], with [`build_laws`]: building a target and writing its outputs.
//! - [`local_exec`], with [`spawn_laws`]: running an action in a local process.
//! - [`workspace`]: finding the workspace root.
//! - [`module_config`] and [`module_toolchains`]: the module file, and what follows from it.
//! - [`rust_toolchain`]: finding the rust compiler.
//! - [`error`], [`path`], [`text`], [`order`]: what the others share.
//!
//! [`request`]: build_run::BuildRun::request
//! [`resume`]: build_run::BuildRun::resume
//! [`outcome`]: build_run::BuildRun::outcome

pub mod assembly;
pub mod build_laws;
pub mod build_run;
pub mod error;
pub mod local_exec;
pub mod module_config;
pub mod module_toolchains;
pub mod order;
pub mod path;
pub mod protocol;
pub mod rust_toolchain;
pub mod session;
pub mod spawn_laws;
pub mod target;
pub mod text;
pub mod workspace;

pub use assembly::{
    build_analysis_engine, build_analysis_engine_with_toolchains, build_execution_engine,
    build_execution_engine_with, build_execution_engine_with_toolchains, build_loading_engine,
    build_source_engine,
};
pub use build_run::{run_build, run_build_configured, BuiltOutput};
pub use local_exec::{DispatchStrategy, ExecRootPolicy, LocalSpawnStrategy};
pub use module_config::{module_external_repos, ExternalRepo};
pub use rust_toolchain::{discover_rustc, rust_toolchain, HOST_CONFIG, RUST_TOOLCHAIN_TYPE};
pub use session::BuildSession;
pub use target::parse_target_pattern;
