//! A minimal per-identity encrypted-note store.
//!
//! Each authenticated caller (a cryptographic principal) owns a private
//! collection of opaque encrypted text blobs and a set of named device
//! public keys. The service never sees plaintext; this crate is the
//! in-memory multi-tenant data store together with its access-control
//! rules: ownership isolation, identifier uniqueness, idempotent
//! mutation. The RPC binding and the host's identity mechanism live
//! outside of it and hand it an already-verified principal.

pub mod auth;
pub mod devices;
pub mod laws;
pub mod notes;
pub mod principal;
pub mod service;
