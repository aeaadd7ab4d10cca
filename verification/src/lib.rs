//! Host-side plugin orchestration: identity resolution, allow-list path
//! expansion, the permission manifest, the command bridge policy and the
//! registry of live plugin instances with their item caches.
//!
//! The library decides and its caller acts. Nothing here touches the
//! sandbox, the file system, the environment or a process: the caller
//! hands in what it read and reports what happened, and every function says
//! in its contract what it makes of that.

pub mod bridge;
pub mod expand;
pub mod identity;
pub mod items;
pub mod json;
pub mod manifest;
pub mod registry;
pub mod text;

pub use crate::bridge::{BridgeError, CliConfig, CliStep, ProcessOutcome};
pub use crate::identity::PluginIdentifier;
pub use crate::items::PluginItem;
pub use crate::manifest::{PermissionManifest, PluginConfig};
pub use crate::registry::{
    InitError, InitStep, LaunchOutcome, PluginManager, QueryError, SelectionError,
};
