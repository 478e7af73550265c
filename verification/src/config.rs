//! Configuration for the AMQP-bus deployment: where the shared store and
//! the message broker live, and the server-wide request ceiling.
//!
//! The file and environment are read by the runtime; it hands the values in
//! here as plain strings and numbers. Every default is pinned by contract.

use vstd::prelude::*;

verus! {

pub struct RedisConfig {
    /// Connection string of the shared store.
    pub url: String,
}

impl RedisConfig {
    pub fn default_url() -> (r: String)
        ensures
            r@ == "redis://localhost:6379"@,
    {
        "redis://localhost:6379".to_owned()
    }
}

impl Default for RedisConfig {
    fn default() -> (r: Self)
        ensures
            r.url@ == "redis://localhost:6379"@,
    {
        RedisConfig { url: RedisConfig::default_url() }
    }
}

pub struct AmqpConfig {
    /// Connection string of the message broker.
    pub url: String,
    /// Consumer group.
    pub group: String,
    /// Optional consumer subgroup.
    pub subgroup: Option<String>,
    /// Subject carrying request envelopes.
    pub event: String,
    /// Subject carrying cancellation messages.
    pub cancellation_event: String,
}

impl AmqpConfig {
    pub fn default_url() -> (r: String)
        ensures
            r@ == "amqp://localhost:5672/%2f"@,
    {
        "amqp://localhost:5672/%2f".to_owned()
    }

    pub fn default_group() -> (r: String)
        ensures
            r@ == "rest"@,
    {
        "rest".to_owned()
    }

    pub fn default_event() -> (r: String)
        ensures
            r@ == "REQUEST"@,
    {
        "REQUEST".to_owned()
    }

    pub fn default_cancellation_event() -> (r: String)
        ensures
            r@ == "CANCEL"@,
    {
        "CANCEL".to_owned()
    }
}

impl Default for AmqpConfig {
    fn default() -> (r: Self)
        ensures
            r.url@ == "amqp://localhost:5672/%2f"@,
            r.group@ == "rest"@,
            r.subgroup is None,
            r.event@ == "REQUEST"@,
            r.cancellation_event@ == "CANCEL"@,
    {
        AmqpConfig {
            url: AmqpConfig::default_url(),
            group: AmqpConfig::default_group(),
            subgroup: None,
            event: AmqpConfig::default_event(),
            cancellation_event: AmqpConfig::default_cancellation_event(),
        }
    }
}

pub struct Config {
    pub redis: RedisConfig,
    pub amqp: AmqpConfig,
    /// Server-wide ceiling on one request, in milliseconds.
    pub timeout: Option<u64>,
}

impl Default for Config {
    fn default() -> (r: Self)
        ensures
            r.redis.url@ == "redis://localhost:6379"@,
            r.amqp.url@ == "amqp://localhost:5672/%2f"@,
            r.amqp.group@ == "rest"@,
            r.amqp.subgroup is None,
            r.amqp.event@ == "REQUEST"@,
            r.amqp.cancellation_event@ == "CANCEL"@,
            r.timeout is None,
    {
        Config { redis: RedisConfig::default(), amqp: AmqpConfig::default(), timeout: None }
    }
}

} // verus!
