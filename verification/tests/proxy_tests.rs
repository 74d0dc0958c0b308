use domain_egress::config::Config;
use domain_egress::proxy::{
    check_upstream_greeting, check_upstream_reply, decision_entry, http_connected_reply,
    http_plan, http_request_from_text, level_allowed, parse_http_request, record,
    request_allowed, socks_address_form, socks_connected_reply, socks_host, socks_plan,
    socks_port, status_label, target_address, upstream_greeting, upstream_request, upstream_tail_len,
    LogEntry, SocksAddress, LOG_CAPACITY,
};

#[test]
fn destination_defaults_and_ipv6() {
    assert_eq!(target_address("example.com", 80).unwrap(), ("example.com".to_string(), 80));
    assert_eq!(target_address("example.com:443", 80).unwrap(), ("example.com".to_string(), 443));
    assert_eq!(target_address("[::1]:8080", 80).unwrap(), ("::1".to_string(), 8080));
    assert!(target_address("host:0", 80).is_err());
}

#[test]
fn target_address_errors_name_the_fault() {
    assert_eq!(target_address("[::1", 80).unwrap_err(), "无效 IPv6 地址");
    assert_eq!(target_address("[zz]:80", 80).unwrap_err(), "invalid IPv6 address syntax");
    assert_eq!(target_address("[::1]x", 80).unwrap_err(), "无效端口");
    assert_eq!(target_address("[::1]:0", 80).unwrap_err(), "无效端口");
    assert_eq!(target_address("[::1]", 0).unwrap_err(), "无效端口");
    assert_eq!(target_address("[::1]", 443).unwrap(), ("::1".to_string(), 443));
    assert_eq!(target_address("host:", 80).unwrap_err(), "cannot parse integer from empty string");
    assert_eq!(target_address("host:8x", 80).unwrap_err(), "invalid digit found in string");
    assert_eq!(target_address("host:70000", 80).unwrap_err(), "number too large to fit in target type");
    assert_eq!(target_address("host:+", 80).unwrap_err(), "invalid digit found in string");
    assert_eq!(target_address("host:+81", 80).unwrap(), ("host".to_string(), 81));
    assert_eq!(target_address(":80", 80).unwrap_err(), "无效目标地址");
    assert_eq!(target_address("a:b:80", 80).unwrap_err(), "无效目标地址");
    assert_eq!(target_address("", 80).unwrap_err(), "无效目标地址");
}

#[test]
fn reads_connect_and_plain_requests() {
    let r = http_request_from_text("CONNECT example.com:443 HTTP/1.1\r\nHost: example.com:443\r\n\r\n").unwrap();
    assert!(r.connect);
    assert_eq!(r.host, "example.com");
    assert_eq!(r.port, 443);
    assert_eq!(r.method, "CONNECT");
    assert_eq!(r.params, "");
    let r = http_request_from_text("GET http://example.com/a?x=1&y=2 HTTP/1.1\r\nUser-Agent: t\r\nhOsT:  example.com  \r\n\r\n").unwrap();
    assert!(!r.connect);
    assert_eq!(r.host, "example.com");
    assert_eq!(r.port, 80);
    assert_eq!(r.method, "GET");
    assert_eq!(r.params, "x=1&y=2");
    let r = http_request_from_text("CONNECT secure.example HTTP/1.1\r\n\r\n").unwrap();
    assert_eq!((r.host.as_str(), r.port), ("secure.example", 443));
    assert!(http_request_from_text("GET / HTTP/1.1\r\n\r\n").is_err());
    assert!(http_request_from_text("").is_err());
}

#[test]
fn request_bytes_are_decoded_leniently() {
    let mut data = b"GET / HTTP/1.1\r\nHost: ex".to_vec();
    data.push(0xff);
    data.extend_from_slice(b"ample.com\r\n\r\n");
    let r = parse_http_request(&data).unwrap();
    assert_eq!(r.host, "ex\u{FFFD}ample.com");
}

#[test]
fn log_levels_are_ordered() {
    assert!(level_allowed("info", "warn"));
    assert!(level_allowed("info", "info"));
    assert!(!level_allowed("info", "debug"));
    assert!(!level_allowed("error", "warn"));
    assert!(level_allowed("debug", "debug"));
    assert!(level_allowed("bogus", "info"));
    assert!(!level_allowed("warn", "bogus"));
}

fn config_with(rules: &[&str]) -> Config {
    let mut c = Config::default();
    c.whitelist = rules.iter().map(|r| r.to_string()).collect();
    c
}

#[test]
fn refused_requests_get_a_success_reply_and_no_upstream() {
    let cfg = config_with(&["example.com"]);
    let req = http_request_from_text("CONNECT forbidden.invalid:443 HTTP/1.1\r\n\r\n").unwrap();
    let plan = http_plan(&cfg, &req, "127.0.0.1:5000".into(), 42);
    assert!(!plan.forward);
    assert_eq!(plan.reply.unwrap(), "HTTP/1.1 200 Connection Established\r\nConnection: close\r\n\r\n");
    assert_eq!(plan.entry.level, "warn");
    assert_eq!(plan.entry.outcome, "拦截");
    assert_eq!(plan.entry.target, "forbidden.invalid");
    let req = http_request_from_text("GET /x HTTP/1.1\r\nHost: forbidden.invalid\r\n\r\n").unwrap();
    let plan = http_plan(&cfg, &req, "s".into(), 1);
    assert_eq!(plan.reply.unwrap(), "HTTP/1.1 200 OK\r\nContent-Length: 0\r\nConnection: close\r\n\r\n");
    let req = http_request_from_text("GET /?q=1 HTTP/1.1\r\nHost: api.example.com\r\n\r\n").unwrap();
    let plan = http_plan(&cfg, &req, "s".into(), 1);
    assert!(plan.forward);
    assert!(plan.reply.is_none());
    assert_eq!(plan.entry.level, "info");
    assert_eq!(plan.entry.outcome, "放行");
    assert_eq!(plan.entry.params, "q=1");
}

#[test]
fn replies_after_connecting_upstream() {
    assert_eq!(http_connected_reply(true, false).unwrap(), "HTTP/1.1 502 Bad Gateway\r\nConnection: close\r\n\r\n");
    assert_eq!(http_connected_reply(true, true).unwrap(), "HTTP/1.1 200 Connection Established\r\n\r\n");
    assert!(http_connected_reply(false, true).is_none());
    assert_eq!(socks_connected_reply(true), vec![5, 0, 0, 1, 0, 0, 0, 0, 0, 0]);
    assert_eq!(socks_connected_reply(false), vec![5, 5, 0, 1, 0, 0, 0, 0, 0, 0]);
}

#[test]
fn blacklist_mode_uses_the_blacklist() {
    let mut cfg = Config::default();
    cfg.access_mode = "blacklist".into();
    cfg.blacklist = vec!["bad.example".into()];
    assert!(!request_allowed(&cfg, "x.bad.example"));
    assert!(request_allowed(&cfg, "github.com.evil"));
}

#[test]
fn socks_requests_are_read() {
    assert!(matches!(socks_address_form(&[5, 1, 0, 1]), SocksAddress::Fixed(4)));
    assert!(matches!(socks_address_form(&[5, 1, 0, 4]), SocksAddress::Fixed(16)));
    assert!(matches!(socks_address_form(&[5, 1, 0, 3]), SocksAddress::Counted));
    assert!(matches!(socks_address_form(&[5, 2, 0, 1]), SocksAddress::Unsupported));
    assert!(matches!(socks_address_form(&[5, 1, 0, 9]), SocksAddress::Unsupported));
    assert_eq!(socks_host(1, &[127, 0, 0, 1]).unwrap(), "127.0.0.1");
    let mut v6 = [0u8; 16];
    v6[15] = 1;
    assert_eq!(socks_host(4, &v6).unwrap(), "::1");
    let mapped = [0, 0, 0, 0, 0, 0, 0, 0, 0, 0, 0xff, 0xff, 192, 0, 2, 1];
    assert_eq!(socks_host(4, &mapped).unwrap(), "::ffff:192.0.2.1");
    assert_eq!(socks_host(3, b"example.com").unwrap(), "example.com");
    assert!(socks_host(2, &[]).is_none());
    assert_eq!(socks_port(&[0x01, 0xbb]), 443);
}

#[test]
fn socks_plan_logs_the_port() {
    let cfg = config_with(&["127.0.0.1"]);
    let plan = socks_plan(&cfg, "127.0.0.1", 8080, "src".into(), 9);
    assert!(plan.forward);
    assert_eq!(plan.entry.method, "CONNECT");
    assert_eq!(plan.entry.params, "port=8080");
    let plan = socks_plan(&cfg, "10.0.0.1", 22, "src".into(), 9);
    assert!(!plan.forward);
    assert_eq!(plan.reply.unwrap(), vec![5, 0, 0, 1, 0, 0, 0, 0, 0, 0]);
}

#[test]
fn talks_to_the_ssh_socks_exit() {
    assert_eq!(upstream_greeting(), vec![5, 1, 0]);
    assert!(check_upstream_greeting(&[5, 0]).is_ok());
    assert_eq!(check_upstream_greeting(&[5, 2]).unwrap_err(), "SSH SOCKS 出口认证失败");
    let req = upstream_request("ab.c", 443).unwrap();
    assert_eq!(req, vec![5, 1, 0, 3, 4, b'a', b'b', b'.', b'c', 1, 187]);
    let long = "a".repeat(256);
    assert_eq!(upstream_request(&long, 80).unwrap_err(), "目标域名过长");
    assert_eq!(upstream_request("é", 1).unwrap(), vec![5, 1, 0, 3, 2, 0xc3, 0xa9, 0, 1]);
    assert!(check_upstream_reply(&[5, 0, 0, 1]).is_ok());
    assert_eq!(check_upstream_reply(&[5, 5, 0, 1]).unwrap_err(), "SSH 出口连接目标失败，错误码 5");
    assert_eq!(upstream_tail_len(1, 0), 6);
    assert_eq!(upstream_tail_len(3, 10), 12);
    assert_eq!(upstream_tail_len(4, 0), 18);
    assert_eq!(upstream_tail_len(7, 0), 2);
}

fn entry(timestamp: u64, allowed: bool) -> LogEntry {
    decision_entry(timestamp, allowed, "s".into(), "GET".into(), "t".into(), "".into())
}

#[test]
fn record_keeps_the_log_bounded_and_recent() {
    let cfg = Config::default();
    let now = 100 * 86_400;
    let mut logs = Vec::new();
    let mut traffic = Vec::new();
    for i in 0..(LOG_CAPACITY as u64 + 5) {
        record(&mut logs, &mut traffic, &cfg, now, entry(now - 10 + (i % 3), true));
    }
    assert_eq!(logs.len(), LOG_CAPACITY);
    assert_eq!(traffic.len(), LOG_CAPACITY + 5);
    record(&mut logs, &mut traffic, &cfg, now, entry(now - 31 * 86_400, true));
    assert_eq!(logs.len(), LOG_CAPACITY);
    assert!(logs.iter().all(|e| e.timestamp >= now - 30 * 86_400));
    assert_eq!(traffic.len(), LOG_CAPACITY + 5);
}

#[test]
fn refusals_do_not_count_as_traffic() {
    let cfg = Config::default();
    let mut logs = Vec::new();
    let mut traffic = Vec::new();
    record(&mut logs, &mut traffic, &cfg, 1_000_000, entry(999_999, false));
    assert_eq!(logs.len(), 1);
    assert!(traffic.is_empty());
    record(&mut logs, &mut traffic, &cfg, 1_000_000, entry(999_999, true));
    assert_eq!(traffic, vec![999_999]);
}

#[test]
fn entries_above_the_level_are_not_logged() {
    let mut cfg = Config::default();
    cfg.log_level = "warn".into();
    let mut logs = Vec::new();
    let mut traffic = Vec::new();
    record(&mut logs, &mut traffic, &cfg, 50, entry(50, true));
    assert!(logs.is_empty());
    assert_eq!(traffic, vec![50]);
    record(&mut logs, &mut traffic, &cfg, 50, entry(50, false));
    assert_eq!(logs.len(), 1);
}

#[test]
fn traffic_window_is_clamped_to_three_weeks() {
    let mut cfg = Config::default();
    cfg.trend_retention_days = 90;
    let now = 200 * 86_400;
    let mut logs = Vec::new();
    let mut traffic = vec![now - 22 * 86_400, now - 20 * 86_400];
    record(&mut logs, &mut traffic, &cfg, now, entry(now, true));
    assert_eq!(traffic, vec![now - 20 * 86_400, now]);
}

#[test]
fn a_recorded_entry_is_the_newest_log_entry() {
    let cfg = Config::default();
    let now = 100 * 86_400;
    let mut logs = Vec::new();
    let mut traffic = Vec::new();
    for i in 0..(LOG_CAPACITY as u64 + 3) {
        record(&mut logs, &mut traffic, &cfg, now, entry(now - 100 + (i % 7), true));
    }
    let newest = entry(now - 1, false);
    record(&mut logs, &mut traffic, &cfg, now, newest.clone());
    assert_eq!(logs.len(), LOG_CAPACITY);
    let last = logs.last().unwrap();
    assert_eq!(last.timestamp, now - 1);
    assert_eq!(last.outcome, newest.outcome);
    assert_eq!(last.target, newest.target);
}

#[test]
fn status_label_follows_the_proxy() {
    assert_eq!(status_label(true), "🟢 代理运行中");
    assert_eq!(status_label(false), "⚪ 代理已停止");
}
