use domain_egress::egress::{source_attempt, source_reply};
use domain_egress::egress::{
    combine_online_locations, dns_answer, http_sources_error, online_location,
    parse_ip2region_location, public_ip_family, route_outcome, select_trusted_public_ipv4,
    validate_public_ip, LocationFields, OnlineGeoLocation,
};

#[test]
fn parses_ip2region_location_and_discards_reserved_records() {
    let location = parse_ip2region_location("中国|广东省|深圳市|电信|CN").unwrap();
    assert_eq!(location.country, "中国");
    assert_eq!(location.city, "深圳市");
    assert_eq!(location.country_code, "CN");
    assert_eq!(location.confidence, "离线兜底");
    assert!(parse_ip2region_location("0|0|Reserved|Reserved|Reserved").is_none());
}

#[test]
fn public_ip_family_rejects_wrong_address_family() {
    assert!(public_ip_family("8.8.8.8", "IPv4").is_ok());
    assert!(public_ip_family("2001:4860:4860::8888", "IPv6").is_ok());
    assert!(public_ip_family("8.8.8.8", "IPv6").is_err());
    assert!(public_ip_family("2001:4860:4860::8888", "IPv4").is_err());
}

#[test]
fn trusted_public_ipv4_accepts_any_available_source() {
    assert_eq!(select_trusted_public_ipv4(Ok("8.8.8.8".into()), Err("dns failed".into())).unwrap(), "8.8.8.8/32");
    assert_eq!(select_trusted_public_ipv4(Err("http failed".into()), Ok("1.1.1.1".into())).unwrap(), "1.1.1.1/32");
}

#[test]
fn trusted_public_ipv4_rejects_conflicting_or_missing_sources() {
    assert!(select_trusted_public_ipv4(Ok("8.8.8.8".into()), Ok("1.1.1.1".into())).is_err());
    assert!(select_trusted_public_ipv4(Err("http failed".into()), Err("dns failed".into())).is_err());
}

#[test]
fn trusted_public_ipv4_messages() {
    assert_eq!(select_trusted_public_ipv4(Ok("8.8.8.8".into()), Ok("8.8.8.8".into())).unwrap(), "8.8.8.8/32");
    assert_eq!(
        select_trusted_public_ipv4(Ok("8.8.8.8".into()), Ok("1.1.1.1".into())).unwrap_err(),
        "公网 IPv4 多源探测结果不一致，已停止写入阿里云安全组：HTTP=8.8.8.8，DNS=1.1.1.1"
    );
    assert_eq!(
        select_trusted_public_ipv4(Err("h".into()), Err("d".into())).unwrap_err(),
        "所有公网 IPv4 探测源均失败，已停止写入阿里云安全组：HTTP：h；DNS：d"
    );
}

#[test]
fn only_public_addresses_pass() {
    assert_eq!(validate_public_ip("2001:4860:4860:0:0:0:0:8888").unwrap(), "2001:4860:4860::8888");
    for private in ["10.1.2.3", "172.16.0.1", "172.31.255.255", "192.168.1.1", "127.0.0.1", "169.254.1.1", "0.0.0.0", "224.0.0.1", "::1", "::", "fd00::1", "fe80::1", "ff02::1"] {
        assert_eq!(validate_public_ip(private).unwrap_err(), "来源返回的不是公网 IP 地址", "{private}");
    }
    assert!(validate_public_ip("172.32.0.1").is_ok());
    assert_eq!(validate_public_ip("nope").unwrap_err(), "来源返回的不是有效 IP 地址");
    assert_eq!(public_ip_family("8.8.8.8", "IPv6").unwrap_err(), "来源未返回 IPv6 公网地址");
}

#[test]
fn probe_outputs_are_read() {
    assert_eq!(dns_answer("\n  \n 203.0.113.9 \n1.1.1.1\n").unwrap(), "203.0.113.9");
    assert_eq!(dns_answer(" \n").unwrap_err(), "DNS 未返回 IP 地址");
    assert_eq!(
        http_sources_error(&[("https://a".into(), "x".into()), ("https://b".into(), "y".into())]),
        "所有 HTTP 探测源均失败：https://a：x；https://b：y"
    );
}

fn fields(ip: &str) -> LocationFields {
    LocationFields {
        success: Some(true),
        message: None,
        ip: Some(ip.into()),
        country: Some(" 中国 ".into()),
        country_code: Some("CN".into()),
        region: Some("广东".into()),
        city: None,
        isp: None,
        org: Some("电信".into()),
    }
}

#[test]
fn location_services_are_checked() {
    let l = online_location("ipwho", "ipwho", "1.2.3.4", fields("1.2.3.4")).unwrap();
    assert_eq!(l.country, "中国");
    assert_eq!(l.city, "");
    assert_eq!(l.isp, "电信");
    assert_eq!(online_location("ipwho", "ipwho", "1.2.3.5", fields("1.2.3.4")).unwrap_err(), "ipwho 返回的 IP 不匹配");
    let mut f = fields("1.2.3.4");
    f.success = Some(false);
    assert_eq!(online_location("ipwhois", "ipwhois.app", "1.2.3.4", f).unwrap_err(), "ipwhois 返回失败");
    let mut f = fields("1.2.3.4");
    f.country_code = Some("  ".into());
    assert_eq!(online_location("ipwho", "ipwho", "1.2.3.4", f).unwrap_err(), "ipwho 未返回国家代码");
}

fn online(code: &str, region: &str, city: &str, source: &str) -> OnlineGeoLocation {
    OnlineGeoLocation {
        country: "中国".into(),
        country_code: code.into(),
        region: region.into(),
        city: city.into(),
        isp: "isp".into(),
        source: source.into(),
    }
}

#[test]
fn online_answers_are_combined() {
    let g = combine_online_locations(Ok(online("CN", "GD", "SZ", "a")), Ok(online("cn", "gd", "sz", "b"))).unwrap();
    assert_eq!((g.city.as_str(), g.confidence.as_str(), g.source.as_str()), ("SZ", "在线双源一致", "a、b"));
    let g = combine_online_locations(Ok(online("CN", "GD", "SZ", "a")), Ok(online("CN", "GD", "GZ", "b"))).unwrap();
    assert_eq!((g.city.as_str(), g.confidence.as_str()), ("", "在线国家一致，城市有差异"));
    let g = combine_online_locations(Ok(online("CN", "GD", "SZ", "a")), Ok(online("US", "", "", "b"))).unwrap();
    assert_eq!(g.confidence, "在线来源不一致");
    let g = combine_online_locations(Err("x".into()), Ok(online("US", "CA", "LA", "b"))).unwrap();
    assert_eq!((g.city.as_str(), g.confidence.as_str()), ("LA", "在线单源"));
    assert_eq!(combine_online_locations(Err("x".into()), Err("y".into())).unwrap_err(), "在线归属地查询失败：x；y");
}

#[test]
fn probe_routes_are_combined() {
    let r = route_outcome(Ok(("1.1.1.1".into(), "https://a".into())), Ok("1.1.1.1".into()));
    assert_eq!(r.addresses, vec![("1.1.1.1".to_string(), "HTTP · https://a；DNS/TCP · 208.67.222.222".to_string())]);
    assert_eq!(r.confidence, "HTTP 与 DNS 一致");
    let r = route_outcome(Ok(("1.1.1.1".into(), "https://a".into())), Ok("2.2.2.2".into()));
    assert_eq!(r.addresses.len(), 2);
    let r = route_outcome(Err("h".into()), Err("d".into()));
    assert!(r.addresses.is_empty());
    assert_eq!(r.error.unwrap(), "HTTP：h；DNS/TCP：d");
    let r = route_outcome(Ok(("1.1.1.1".into(), "u".into())), Err("d".into()));
    assert_eq!(r.error.unwrap(), "DNS/TCP 探测失败：d");
}

#[test]
fn http_sources_are_tried_until_one_gives_a_public_address() {
    assert_eq!(source_reply(true, b" 8.8.8.8\n", b""), Ok("8.8.8.8".to_string()));
    assert_eq!(source_reply(false, b"", b" timeout \n"), Err("timeout".to_string()));
    assert!(source_reply(true, b"not an ip", b"").is_err());
    let mut errors: Vec<(String, String)> = Vec::new();
    assert_eq!(source_attempt(&mut errors, "https://a", Err("timeout".into()), "IPv4"), None);
    assert_eq!(errors, vec![("https://a".to_string(), "timeout".to_string())]);
    assert_eq!(source_attempt(&mut errors, "https://b", Ok("2001:4860:4860::8888".into()), "IPv4"), None);
    assert_eq!(errors.len(), 2);
    assert_eq!(errors[1].0, "https://b");
    assert_eq!(source_attempt(&mut errors, "https://c", Ok("8.8.8.8".into()), "IPv4"), Some("8.8.8.8".to_string()));
    assert_eq!(errors.len(), 2);
}
