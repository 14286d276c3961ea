//! Directory-scoped shell aliases: decides, from a per-session cache and a
//! local alias file, whether to install aliases, remove them, or do nothing,
//! and renders that decision as shell text.

pub mod config;
pub mod error;
pub mod text;
pub mod cache;
pub mod session;
pub mod subtree;
pub mod resolver;
