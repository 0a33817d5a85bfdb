//! Web-facing logic of a network video recorder: request routing, the
//! recording-selection query language, assembly planning for on-demand
//! fMP4 video, and cookie-session authentication.
//!
//! Requests themselves (HTTP transport, the recording database, the fMP4
//! file builder) live outside this crate; the decisions they depend on are
//! implemented and specified here on plain values.

#![allow(unused_imports)]

pub mod assembly;
pub mod bytes;
pub mod hex;
pub mod nums;
pub mod outside;
pub mod path;
pub mod query;
pub mod segments;
pub mod service;
pub mod session;
pub mod types;
