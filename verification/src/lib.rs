//! Verified core of a configuration-key management tool for a remote
//! key-value configuration service with secret-vault indirections.
//!
//! The library models the remote store and the secret vault as explicit
//! values, resolves the active scope from persisted context state, maps
//! application-relative keys to namespaced keys, encodes and decodes
//! secret references, serializes entry maps in several formats, and
//! orchestrates bulk imports with per-entry failure isolation.

pub mod cache;
pub mod commands;
pub mod ctxstore;
pub mod json;
pub mod keys;
pub mod orchestrate;
pub mod resolver;
pub mod secretref;
pub mod serialize;
pub mod store;
pub mod text;
