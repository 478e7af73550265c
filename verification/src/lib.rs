//! A rate-limit-respecting egress proxy library.
//!
//! Upstream publishers place serialized request envelopes on a message bus;
//! the proxy claims a permit from a per-route bucket, performs the HTTP call,
//! releases the permit with whatever rate-limit information the response
//! carried, and replies with a serialized outcome envelope.
//!
//! This crate holds the verified logic: the route templater, the envelope
//! wire codec, the rate limiters (process-local and shared-store models),
//! the request executor's decision machine, and the configuration records.
//! All I/O (bus, HTTP, store round-trips, timers) is driven by an unverified
//! runtime that feeds plain values into these functions.

pub mod broker;
pub mod client;
pub mod codec;
pub mod config;
pub mod models;
pub mod ratelimiter;
pub mod route;
pub mod runtime;
pub mod util;
