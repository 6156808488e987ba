//! Per-directory secrets: an encrypted store of named values, the resolution of
//! the project that a directory belongs to, and the shell statements that load
//! a project's variables.

pub mod check;
pub mod cipher;
pub mod config;
pub mod keys;
pub mod path;
pub mod project;
pub mod shell;
pub mod store;
pub mod table;
pub mod text;

pub use crate::config::Config;
pub use crate::config::ProjectConfig;
pub use crate::config::ProjectValue;
pub use crate::project::Project;
pub use crate::shell::Shell;
pub use crate::store::Store;
