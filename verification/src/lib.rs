//! Capability-based access-control validator for sandboxed skills.
//!
//! A skill carries a declarative manifest naming the filesystem path
//! prefixes it may read, write, or delete, and four boolean hardware
//! capability flags. This crate holds the verified core: cross-platform
//! path normalization, the prefix-based authorization check, the manifest
//! data model with its JSON codec, and the flag-update logic.

pub mod access;
pub mod capability;
pub mod chars;
pub mod gpu;
pub mod hardware;
pub mod json;
pub mod normalize;
pub mod normalize_laws;
pub mod update;

pub use capability::CapabilityManifest;
pub use capability::FSAccess;
pub use normalize::normalize_seq;
