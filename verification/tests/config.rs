use std::time::Duration;

use medius::config::{ConnectOptions, DEFAULT_KEEPALIVE_CADENCE_MS, DEFAULT_QUERY_TIMEOUT_MS};

#[test]
fn defaults_are_the_documented_constants() {
    let o = ConnectOptions::default();
    assert_eq!(o.query_timeout, Duration::from_millis(DEFAULT_QUERY_TIMEOUT_MS));
    assert_eq!(o.keepalive_cadence, Duration::from_millis(DEFAULT_KEEPALIVE_CADENCE_MS));
}

#[test]
fn fields_set_directly() {
    let o = ConnectOptions {
        query_timeout: Duration::from_millis(250),
        keepalive_cadence: Duration::from_millis(300),
    };
    assert_eq!(o.query_timeout, Duration::from_millis(250));
    assert_eq!(o.keepalive_cadence, Duration::from_millis(300));
}

#[test]
fn struct_update_keeps_defaults() {
    let o = ConnectOptions {
        keepalive_cadence: Duration::from_millis(250),
        ..Default::default()
    };
    assert_eq!(o.keepalive_cadence, Duration::from_millis(250));
    assert_eq!(o.query_timeout, Duration::from_millis(DEFAULT_QUERY_TIMEOUT_MS));
}

#[test]
fn documented_defaults_are_one_second_and_half_a_second() {
    let o = ConnectOptions::new();
    assert_eq!(o.query_timeout, Duration::from_secs(1));
    assert_eq!(o.keepalive_cadence, Duration::from_millis(500));
}
