//! DNS-resolution fallback for constrained environments.
//!
//! In environments such as Android/Termux the usual system resolver
//! configuration is absent or unreadable.  This library detects such an
//! environment, parses `nameserver` lines out of an alternate `resolv.conf`
//! file, and builds a resolver configuration from them, falling back to a
//! well-known public resolver when nothing usable is found.

pub mod config;
pub mod detect;
pub mod ip;
pub mod resolver;
pub mod text;
