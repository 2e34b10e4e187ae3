//! Verified core of a vault librarian: the rules that decide which notes are
//! mirrored, where agent proposals may be read and written, and how the
//! agent is invoked and its answer recorded.

pub mod text;
pub mod paths;
pub mod mirror;
pub mod proposals;
pub mod sessions;
pub mod vault;
pub mod mcp;
pub mod agent;
pub mod auth;
