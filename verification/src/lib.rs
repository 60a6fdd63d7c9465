//! Directory listing engine behind a file manager's storage backends.
//!
//! A request names a base path and an optional key. The navigator turns the
//! pair into a canonical path, the normalizer turns backend records into
//! listing entries, and the listing service assembles the response. Every
//! function here computes on plain values: reading disks, sessions and
//! sockets is left to the caller.

pub mod attributes;
pub mod auth;
pub mod escape;
pub mod invariants;
pub mod laws;
pub mod lifecycle;
pub mod listing;
pub mod model;
pub mod navigator;
pub mod normalizer;
pub mod service;
pub mod text;
pub mod update;
