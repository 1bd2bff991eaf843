//! In-memory, content-addressed object store for version-control objects
//! (files, symlinks, trees, commits), the service surface that exposes it,
//! and the mount lifecycle of per-workspace virtual filesystem servers.
//!
//! Identifiers are 256-bit content hashes: equal content always yields the
//! same `Id`, and the canonical encoding fed to the hash is injective, so
//! distinct objects never share a hash input.

pub mod codec;
pub mod hash;
pub mod ids;
pub mod objects;
pub mod service;
pub mod store;
pub mod vfs;
pub mod vfs_mgr;
