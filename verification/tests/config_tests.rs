use domain_egress::config::{check_save, normalize_loaded, normalize_rules, validate, Config};

#[test]
fn config_validation() {
    let mut config = Config::default();
    assert!(validate(&config).is_ok());
    assert!(!config.auto_start);
    assert_eq!(config.port_refresh_interval_seconds, 30);
    config.port_refresh_interval_seconds = 0;
    assert!(validate(&config).is_err());
    config.port_refresh_interval_seconds = 30;
    config.whitelist.push("https://example.com/path".into());
    assert!(validate(&config).is_err());
    config.whitelist = vec!["*.example.com".into(), "::1".into()];
    assert!(validate(&config).is_ok());
    config.font_scale = 105;
    assert!(validate(&config).is_err());
    config.font_scale = 110;
    assert!(validate(&config).is_ok());
    config.socks_port = config.http_port;
    assert!(validate(&config).is_err());
}

#[test]
fn validation_messages() {
    let mut c = Config::default();
    c.access_mode = "greylist".into();
    assert_eq!(validate(&c).unwrap_err(), "访问模式无效");
    let mut c = Config::default();
    c.log_level = "trace".into();
    assert_eq!(validate(&c).unwrap_err(), "日志级别无效");
    let mut c = Config::default();
    c.log_retention_days = 0;
    assert_eq!(validate(&c).unwrap_err(), "日志保留天数应为 1–3650");
    let mut c = Config::default();
    c.trend_retention_days = 22;
    assert_eq!(validate(&c).unwrap_err(), "趋势历史保留天数应为 1–21");
    let mut c = Config::default();
    c.http_host = "localhost".into();
    assert_eq!(validate(&c).unwrap_err(), "监听地址必须为 IP，端口应为 1–65535");
    let mut c = Config::default();
    c.blacklist = vec!["bad_rule!".into()];
    assert_eq!(validate(&c).unwrap_err(), "无效规则：bad_rule!。请输入域名、IP 或 *.example.com");
}

#[test]
fn rules_are_normalized_once_each() {
    let mut rules = vec![" Example.COM. ".to_string(), "example.com".to_string(), "".to_string(), "b.org".to_string()];
    let mut added = vec![("example.com".to_string(), 1u64), ("gone.net".to_string(), 2u64)];
    normalize_rules(&mut rules, &mut added);
    assert_eq!(rules, vec!["example.com", "b.org"]);
    assert_eq!(added, vec![("example.com".to_string(), 1u64)]);
}

#[test]
fn old_configurations_start_automatically() {
    let mut c = Config::default();
    c.version = 1;
    c.whitelist = vec!["A.com".into(), "a.com".into()];
    let n = normalize_loaded(c);
    assert_eq!(n.version, 2);
    assert!(n.auto_start);
    assert_eq!(n.whitelist, vec!["a.com"]);
}

#[test]
fn listen_address_changes_need_a_stopped_proxy() {
    let prev = Config::default();
    let mut next = Config::default();
    next.http_port = 19999;
    assert_eq!(check_save(&prev, &next, true).unwrap_err(), "请先停止代理，再修改监听地址或端口");
    assert!(check_save(&prev, &next, false).is_ok());
    assert!(check_save(&prev, &Config::default(), true).is_ok());
}
