//! Configuration for the redis-bus deployment.

pub mod config;
