//! The operations the tool offers, grouped as the command line groups
//! them: configuration scopes, applications, and key/value entries.
//! Every operation works on explicit state values; reading them from
//! disk or the network, and writing them back, wraps these calls from
//! outside.

pub mod app;
pub mod cfg;
pub mod kv;
