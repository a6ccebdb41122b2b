//! Keeps a WireGuard tunnel configuration's routable-address set in
//! sync with a remote authoritative list. The configuration's
//! section-based text format, the endpoint-to-manifest-URL
//! derivation, the manifest extraction and the orchestration of one
//! synchronization attempt are verified here; file, network and
//! process plumbing stay outside and drive the state machine in
//! `sync` through plain actions and events.

pub mod config;
pub mod endpoint;
pub mod manifest;
pub mod paths;
pub mod roundtrip;
pub mod strutil;
pub mod sync;
