use batch_resolve::{Config, ConfigError, RawConfig, ServerAddr};

fn raw(dns: Option<&[&str]>, retry: Option<u32>, qps: Option<u32>) -> RawConfig {
    RawConfig { dns: dns.map(|l| l.iter().map(|s| s.to_string()).collect()), retry, queries_per_second: qps }
}

#[test]
fn defaults() {
    let c = Config::new();
    assert_eq!(
        c.dns_list(),
        &vec![ServerAddr::V4 { a: 8, b: 8, c: 8, d: 8, port: 53 }, ServerAddr::V4 { a: 8, b: 8, c: 4, d: 4, port: 53 }]
    );
    assert_eq!(c.qps(), 5000);
    assert_eq!(c.timeout_retries(), 10);
    assert!(c.is_valid());
    assert_eq!(Config::default(), c);
}

#[test]
fn port_default() {
    let mut c = Config::new();
    assert_eq!(c.parse(&raw(Some(&["9.9.9.9"]), None, None)), Ok(()));
    assert_eq!(c.dns_list(), &vec![ServerAddr::V4 { a: 9, b: 9, c: 9, d: 9, port: 53 }]);
    assert_eq!(c.qps(), 5000);
    assert_eq!(c.timeout_retries(), 10);
}

#[test]
fn all_keys_are_taken_over() {
    let mut c = Config::new();
    assert_eq!(c.parse(&raw(Some(&["1.2.3.4", "1.2.3.4:5353"]), Some(3), Some(100))), Ok(()));
    assert_eq!(
        c.dns_list(),
        &vec![ServerAddr::V4 { a: 1, b: 2, c: 3, d: 4, port: 53 }, ServerAddr::V4 { a: 1, b: 2, c: 3, d: 4, port: 5353 }]
    );
    assert_eq!(c.timeout_retries(), 3);
    assert_eq!(c.qps(), 100);
}

#[test]
fn absent_keys_change_nothing() {
    let mut c = Config::new();
    assert_eq!(c.parse(&raw(None, None, None)), Ok(()));
    assert_eq!(c, Config::new());
    assert_eq!(c.parse(&raw(None, Some(2), None)), Ok(()));
    assert_eq!(c.timeout_retries(), 2);
    assert_eq!(c.qps(), 5000);
}

#[test]
fn bad_server_refuses_the_whole_configuration() {
    let mut c = Config::new();
    let r = c.parse(&raw(Some(&["1.1.1.1", "nonsense", "also bad"]), Some(1), Some(1)));
    assert_eq!(r, Err(ConfigError::AddrParseError("nonsense".to_string())));
    assert_eq!(c, Config::new());
    assert_eq!(r.unwrap_err().description(), "invalid socket address syntax");
    assert_eq!(ConfigError::TomlParseError("expected a value".to_string()).to_string(), "expected a value");
}

#[test]
fn unusable_settings_are_told_apart() {
    let mut c = Config::new();
    assert_eq!(c.parse(&raw(Some(&[]), None, None)), Ok(()));
    assert!(!c.is_valid());
    let mut c = Config::new();
    assert_eq!(c.parse(&raw(None, Some(0), None)), Ok(()));
    assert!(!c.is_valid());
    let mut c = Config::new();
    assert_eq!(c.parse(&raw(None, None, Some(0))), Ok(()));
    assert!(!c.is_valid());
}

#[test]
fn ipv6_server_is_taken_over() {
    let mut c = Config::new();
    assert_eq!(c.parse(&raw(Some(&["[2001:4860:4860::8888]:53", "9.9.9.9"]), None, None)), Ok(()));
    assert_eq!(
        c.dns_list(),
        &vec![
            ServerAddr::V6 { g0: 0x2001, g1: 0x4860, g2: 0x4860, g3: 0, g4: 0, g5: 0, g6: 0, g7: 0x8888, port: 53 },
            ServerAddr::V4 { a: 9, b: 9, c: 9, d: 9, port: 53 },
        ]
    );
    let mut c = Config::new();
    assert_eq!(
        c.parse(&raw(Some(&["2001:4860:4860::8888"]), None, None)),
        Err(ConfigError::AddrParseError("2001:4860:4860::8888".to_string()))
    );
}
