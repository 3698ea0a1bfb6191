//! Leases of vault tokens and secrets, and the secret path expressions
//! `backend:arg1,arg2,key=value:path#anchor` that say where a secret lives.
//!
//! Two parsers read secret paths: `parser` composes small grammar rules,
//! `parser_simple` scans the text once, splitting it at its first two ':'.
//! `path_laws` proves that they agree and that a parsed path writes back as
//! the text it came from.

pub mod auth;
pub mod cache;
pub mod error;
pub mod lease;
pub mod mounts;
pub mod parser;
pub mod parser_simple;
pub mod path;
pub mod path_laws;
pub mod secret;
