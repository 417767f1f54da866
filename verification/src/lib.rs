//! Guest OS builder and management for PlazaVM guests.
//!
//! - `builder`: rootfs construction with package, user and service configuration
//! - `config`: OS-level settings (DNS, sysctl, console, kernel command line)
//! - `snapshot`: a snapshot store with parent links and lineage
//! - `secure_boot`: boot chain verification over component hashes
//! - `updater`: the over-the-air update lifecycle
//! - `string_map`: a string-keyed map with a listing in order of key
//! - `text`: joining lines and lexicographic order, shared by the others
//! - `error`: the error type of the library

pub mod builder;
pub mod config;
pub mod error;
pub mod secure_boot;
pub mod snapshot;
pub mod string_map;
pub mod text;
pub mod updater;

pub use builder::{OsBuilder, OsVariant, RootfsBuildConfig, RootfsPackage, UserConfig};
pub use config::{ConsoleConfig, OsConfig};
pub use error::{PlazaError, PlazaResult};
pub use secure_boot::{SecureBootChain, SecureBootResult};
pub use snapshot::{Snapshot, SnapshotManager};
pub use string_map::StringMap;
pub use updater::{OsUpdate, OsUpdater, UpdateState};
