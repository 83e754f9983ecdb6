//! A session-scoped resource cache for an interactive editor.
//!
//! The centerpiece is [`cache::ResourceCache`]: a lazily populated store of
//! decoded project data (map documents, raw asset bytes) keyed by logical
//! identity.  Panels of a frame-driven UI request resources synchronously;
//! reads against a slow backend are bridged through a cooperative task
//! registry ([`loader::Loader`]) that is drained once per render frame.
//! Live playback handles are managed per audio category by [`audio::Audio`],
//! which never leaks an occupant when a slot is reassigned.

pub mod audio;
pub mod cache;
pub mod errors;
pub mod keys;
pub mod loader;
pub mod picker;
pub mod resource;
pub mod storage;
pub mod tabs;
