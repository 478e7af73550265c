//! Configuration for the deployment whose bus rides on the shared store:
//! store connection and pool size, remote API version, consumer group and
//! subject, and the server-wide request ceiling.
//!
//! The file and environment are read by the runtime; it hands values in here
//! as plain strings and numbers. The numeric environment values are parsed
//! by the functions at the end of this module; every default is pinned by
//! contract.

use vstd::prelude::*;
use crate::ratelimiter::{spec_parse_usize, parse_limit};

verus! {

pub struct RedisConfig {
    /// Address of the shared store.
    pub url: String,
    /// Size of the store connection pool.
    pub pool_size: usize,
}

impl RedisConfig {
    pub fn default_url() -> (r: String)
        ensures
            r@ == "localhost:6379"@,
    {
        "localhost:6379".to_owned()
    }

    pub fn default_pool_size() -> (r: usize)
        ensures
            r == 32,
    {
        32
    }
}

impl Default for RedisConfig {
    fn default() -> (r: Self)
        ensures
            r.url@ == "localhost:6379"@,
            r.pool_size == 32,
    {
        RedisConfig { url: RedisConfig::default_url(), pool_size: RedisConfig::default_pool_size() }
    }
}

pub struct DiscordConfig {
    /// Remote API version; requests go to `/api/v<version>/...`.
    pub api_version: u8,
}

impl DiscordConfig {
    pub fn default_api_version() -> (r: u8)
        ensures
            r == 10,
    {
        10
    }
}

impl Default for DiscordConfig {
    fn default() -> (r: Self)
        ensures
            r.api_version == 10,
    {
        DiscordConfig { api_version: DiscordConfig::default_api_version() }
    }
}

pub struct BrokerConfig {
    /// Consumer group.
    pub group: String,
    /// Subject carrying request envelopes.
    pub event: String,
}

impl BrokerConfig {
    pub fn default_group() -> (r: String)
        ensures
            r@ == "proxy"@,
    {
        "proxy".to_owned()
    }

    pub fn default_event() -> (r: String)
        ensures
            r@ == "REQUEST"@,
    {
        "REQUEST".to_owned()
    }
}

impl Default for BrokerConfig {
    fn default() -> (r: Self)
        ensures
            r.group@ == "proxy"@,
            r.event@ == "REQUEST"@,
    {
        BrokerConfig { group: BrokerConfig::default_group(), event: BrokerConfig::default_event() }
    }
}

pub struct Config {
    pub redis: RedisConfig,
    pub discord: DiscordConfig,
    /// Server-wide ceiling on one request, in milliseconds.
    pub timeout: Option<u64>,
    pub broker: BrokerConfig,
}

impl Default for Config {
    fn default() -> (r: Self)
        ensures
            r.redis.url@ == "localhost:6379"@,
            r.redis.pool_size == 32,
            r.discord.api_version == 10,
            r.timeout is None,
            r.broker.group@ == "proxy"@,
            r.broker.event@ == "REQUEST"@,
    {
        Config {
            redis: RedisConfig::default(),
            discord: DiscordConfig::default(),
            timeout: None,
            broker: BrokerConfig::default(),
        }
    }
}

/// Parse the pool-size environment value: a decimal integer.
pub fn parse_pool_size(s: &[u8]) -> (r: Option<usize>)
    ensures
        r == spec_parse_usize(s@),
{
    parse_limit(s)
}

/// Parse the API-version environment value: a decimal integer that fits a
/// byte.
pub fn parse_api_version(s: &[u8]) -> (r: Option<u8>)
    ensures
        match spec_parse_usize(s@) {
            Some(v) => if v <= 255 {
                r == Some(v as u8)
            } else {
                r is None
            },
            None => r is None,
        },
{
    match parse_limit(s) {
        Some(v) => if v <= 255 {
            Some(v as u8)
        } else {
            None
        },
        None => None,
    }
}

} // verus!
