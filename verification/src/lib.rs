//! Verified protocol-translation core of a WebDAV gateway over a flat
//! object store.
//!
//! The library holds everything the gateway decides or computes: the closed
//! set of WebDAV verbs and their dispatch, the heuristic that tells folders
//! from files in a flat key space, the normalization of backend results into
//! protocol-neutral metadata, the multistatus XML renderer, and the
//! credential-scoped backend-handle resolution. Network I/O, the HTTP server
//! and the real object-store client live outside, in the application crate,
//! which hands this library plain values and takes plain values back.

pub mod dispatch;
pub mod error;
pub mod model;
pub mod paths;
pub mod provider;
pub mod render;
pub mod store;
pub mod text;
