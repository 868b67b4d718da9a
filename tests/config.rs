use retreive::config::{parse_port, Config, DEFAULT_PORT};

#[test]
fn ports_parse_like_u16() {
    assert_eq!(parse_port("8080"), Some(8080));
    assert_eq!(parse_port("+443"), Some(443));
    assert_eq!(parse_port("0"), Some(0));
    assert_eq!(parse_port("65535"), Some(65535));
    assert_eq!(parse_port("65536"), None);
    assert_eq!(parse_port("999999999999"), None);
    assert_eq!(parse_port(""), None);
    assert_eq!(parse_port("+"), None);
    assert_eq!(parse_port("-1"), None);
    assert_eq!(parse_port("80a"), None);
    assert_eq!(parse_port(" 80"), None);
}

#[test]
fn config_needs_a_database_url() {
    let e = match Config::from_values(None, Some("9000".to_string()), 4) {
        Err(e) => e,
        Ok(_) => panic!("expected an error"),
    };
    assert_eq!(e.message(), "Config error: environment variable not found");
}

#[test]
fn config_port_falls_back_to_default() {
    let c = Config::from_values(Some("postgres://x".to_string()), Some("abc".to_string()), 4)
        .ok()
        .expect("config");
    assert_eq!(c.server_port, DEFAULT_PORT);
    assert_eq!(c.workers, 4);
    assert_eq!(c.database_url, "postgres://x");
    let c = Config::from_values(Some("u".to_string()), Some("9000".to_string()), 1).ok().expect("config");
    assert_eq!(c.server_port, 9000);
    let c = Config::from_values(Some("u".to_string()), None, 1).ok().expect("config");
    assert_eq!(c.server_port, 8080);
}
