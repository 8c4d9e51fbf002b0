use proxy_finder::config::{
    effective_cores, ConfigError, RunConfig, DEFAULT_CONNECTIONS_PER_SECOND, DEFAULT_TIMEOUT_SECS,
};

#[test]
fn default_rate_gives_33ms_delay() {
    let cfg = RunConfig::new(
        String::from("https://ifconfig.me"),
        DEFAULT_CONNECTIONS_PER_SECOND,
        4,
        DEFAULT_TIMEOUT_SECS,
    )
    .unwrap();
    assert_eq!(cfg.delay_ms, 33);
    assert_eq!(cfg.timeout_secs, 5);
    assert_eq!(cfg.cores, 4);
    assert_eq!(cfg.target, "https://ifconfig.me");
}

#[test]
fn zero_rate_is_rejected() {
    let r = RunConfig::new(String::from("t"), 0, 4, 5);
    assert!(matches!(r, Err(ConfigError::ZeroRate)));
}

#[test]
fn zero_cores_is_rejected() {
    let r = RunConfig::new(String::from("t"), 30, 0, 5);
    assert!(matches!(r, Err(ConfigError::ZeroCores)));
}

#[test]
fn very_high_rate_gives_zero_delay() {
    let cfg = RunConfig::new(String::from("t"), 2000, 1, 5).unwrap();
    assert_eq!(cfg.delay_ms, 0);
}

#[test]
fn one_connection_per_second_gives_full_second() {
    let cfg = RunConfig::new(String::from("t"), 1, 1, 5).unwrap();
    assert_eq!(cfg.delay_ms, 1000);
}

#[test]
fn requested_cores_are_taken_as_given() {
    assert_eq!(effective_cores(Some(8)), 8);
}

#[test]
fn detected_cores_are_at_least_one() {
    assert!(effective_cores(None) >= 1);
}
