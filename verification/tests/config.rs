use spectacles_proxy::config as amqp_config;
use spectacles_proxy::runtime::config as broker_config;

#[test]
fn amqp_family_defaults() {
    let c = amqp_config::Config::default();
    assert_eq!(c.redis.url, "redis://localhost:6379");
    assert_eq!(c.amqp.url, "amqp://localhost:5672/%2f");
    assert_eq!(c.amqp.group, "rest");
    assert_eq!(c.amqp.subgroup, None);
    assert_eq!(c.amqp.event, "REQUEST");
    assert_eq!(c.amqp.cancellation_event, "CANCEL");
    assert_eq!(c.timeout, None);
}

#[test]
fn broker_family_defaults() {
    let c = broker_config::Config::default();
    assert_eq!(c.redis.url, "localhost:6379");
    assert_eq!(c.redis.pool_size, 32);
    assert_eq!(c.discord.api_version, 10);
    assert_eq!(c.timeout, None);
    assert_eq!(c.broker.group, "proxy");
    assert_eq!(c.broker.event, "REQUEST");
}

#[test]
fn environment_numbers_parse_or_refuse() {
    assert_eq!(broker_config::parse_pool_size(b"64"), Some(64));
    assert_eq!(broker_config::parse_pool_size(b"64x"), None);
    assert_eq!(broker_config::parse_api_version(b"9"), Some(9));
    assert_eq!(broker_config::parse_api_version(b"255"), Some(255));
    assert_eq!(broker_config::parse_api_version(b"256"), None);
    assert_eq!(broker_config::parse_api_version(b""), None);
}
