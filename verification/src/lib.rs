//! Resolution of the path entries of a configuration file.
//!
//! A raw entry may hold `$NAME`, `{workspaceFolder}`, `{env:NAME}`, a leading
//! `~` or a leading `./`. It is expanded, anchored to the home directory or
//! to the workspace root, and brought into lexical normal form, without a
//! look at the file system. Lists of entries keep the first of equal results.

use vstd::prelude::*;

pub mod anchor;
pub mod config;
pub mod dedup;
pub mod env;
pub mod normal_form;
pub mod normalize;
pub mod placeholder;
pub mod resolve;
pub mod text;

pub use anchor::anchor_path;
pub use config::Emmyrc;
pub use config::EmmyrcResource;
pub use config::EmmyrcWorkspace;
pub use env::Environment;
pub use normalize::components;
pub use normalize::normalize_components;
pub use normalize::normalize_path;
pub use normalize::Component;
pub use placeholder::replace_env_var;
pub use placeholder::replace_placeholders;
pub use placeholder::strip_dollars;
pub use resolve::pre_process_path;
pub use resolve::process_and_dedup;
