use domain_egress::network::{probe_step, ProbeStep};
use domain_egress::network::{
    cancelled, certificate_pem, command_deadline_ms, command_outcome, decode_payload, endpoint,
    http_summary, parse_headers, ping_args, probe_port, probe_tool, timeout_ms, traceroute_args,
    NetworkProbeRequest, ProbeTool,
};

fn req(target: &str) -> NetworkProbeRequest {
    NetworkProbeRequest {
        tool: "tcp".into(),
        target: target.into(),
        port: None,
        timeout_ms: 50,
        count: 0,
        method: None,
        headers: None,
        body: None,
        payload: None,
        payload_hex: false,
    }
}

#[test]
fn probe_settings_are_clamped() {
    let mut r = req("example.com");
    assert_eq!(timeout_ms(&r), 100);
    r.timeout_ms = 999_999;
    assert_eq!(timeout_ms(&r), 120_000);
    assert_eq!(probe_port(&r, 80), 80);
    r.port = Some(0);
    assert_eq!(probe_port(&r, 80), 1);
    assert_eq!(command_deadline_ms(&r), 122_000);
    assert!(matches!(probe_tool("telnet"), ProbeTool::Tcp));
    assert!(matches!(probe_tool("gopher"), ProbeTool::Unknown));
    assert_eq!(cancelled(true).unwrap_err(), "探测已取消");
}

#[test]
fn endpoints_are_formed() {
    assert_eq!(endpoint(&req(" [::1] "), 443).unwrap(), "[::1]:443");
    assert_eq!(endpoint(&req("2001:db8:0:0:0:0:0:1"), 80).unwrap(), "[2001:db8::1]:80");
    assert_eq!(endpoint(&req("10.0.0.1"), 53).unwrap(), "10.0.0.1:53");
    assert_eq!(endpoint(&req("example.com"), 80).unwrap(), "example.com:80");
    assert_eq!(endpoint(&req("  "), 80).unwrap_err(), "目标不能为空");
}

#[test]
fn headers_are_read() {
    let h = parse_headers("Accept: */*\n\n X-Id :  7 \r\n").unwrap();
    assert_eq!(h, vec![("Accept".to_string(), "*/*".to_string()), ("X-Id".to_string(), "7".to_string())]);
    assert_eq!(parse_headers("oops").unwrap_err(), "请求头格式无效：oops");
    assert_eq!(parse_headers(" : v").unwrap_err(), "请求头名称不能为空");
}

#[test]
fn payloads_are_decoded() {
    let mut r = req("x");
    r.payload = Some("48:65 6c6C".into());
    r.payload_hex = true;
    assert_eq!(decode_payload(&r).unwrap(), vec![0x48, 0x65, 0x6c, 0x6c]);
    r.payload = Some("4".into());
    assert_eq!(decode_payload(&r).unwrap_err(), "十六进制数据无效：Odd number of digits");
    r.payload = Some("4z 00".into());
    assert_eq!(decode_payload(&r).unwrap_err(), "十六进制数据无效：Invalid character 'z' at position 1");
    r.payload_hex = false;
    r.payload = Some("hé".into());
    assert_eq!(decode_payload(&r).unwrap(), "hé".as_bytes().to_vec());
    r.payload = None;
    assert!(decode_payload(&r).unwrap().is_empty());
}

#[test]
fn commands_are_built() {
    let mut r = req(" host ");
    r.count = 50;
    r.timeout_ms = 2500;
    assert_eq!(ping_args(&r), vec!["-n", "-c", "20", "-W", "2500", "host"]);
    assert_eq!(traceroute_args(&r), vec!["-n", "-m", "30", "-w", "2", "host"]);
    r.timeout_ms = 300;
    assert_eq!(traceroute_args(&r)[4], "1");
    assert_eq!(command_outcome(true, "out", "err"), ("探测完成".to_string(), None));
    assert_eq!(command_outcome(false, "out", "  "), ("探测失败".to_string(), Some("out".to_string())));
    assert_eq!(command_outcome(false, "out", " bad \n"), ("探测失败".to_string(), Some("bad".to_string())));
    assert_eq!(http_summary(404), "HTTP 404");
}

#[test]
fn the_first_certificate_is_extracted() {
    let out = "x\n-----BEGIN CERTIFICATE-----\nMIIB\n-----END CERTIFICATE-----\ny";
    assert_eq!(
        certificate_pem(out).unwrap(),
        "-----BEGIN CERTIFICATE-----\nMIIB\n-----END CERTIFICATE-----\n-----END CERTIFICATE-----\n"
    );
    assert!(certificate_pem("no certificate").is_none());
}

#[test]
fn websocket_and_http_probe_inputs() {
    let mut r = req(" wss://Example.com:443/chat?x=1 ");
    assert_eq!(domain_egress::network::websocket_url(&r).unwrap(), "wss://example.com/chat?x=1");
    r.target = "not a url".into();
    assert_eq!(domain_egress::network::websocket_url(&r).unwrap_err(), "relative URL without a base");
    assert_eq!(domain_egress::network::probe_method(None), "GET");
    assert_eq!(domain_egress::network::probe_method(Some("POST")), "POST");
    assert_eq!(domain_egress::network::probe_method(Some("PROPFIND")), "PROPFIND");
    assert_eq!(domain_egress::network::probe_method(Some("BAD METHOD")), "GET");
    assert_eq!(domain_egress::network::probe_method(Some("")), "GET");
    assert!(domain_egress::network::http_success(200));
    assert!(domain_egress::network::http_success(299));
    assert!(!domain_egress::network::http_success(301));
    assert!(!domain_egress::network::http_success(199));
}

#[test]
fn probe_steps_give_their_summary_and_error() {
    assert_eq!(probe_step(ProbeStep::TcpConnected, "ignored".into()), (true, "TCP 连接成功".to_string(), None));
    assert_eq!(
        probe_step(ProbeStep::UdpNoResponse, "ignored".into()),
        (false, "UDP 已发送但未收到响应".to_string(), Some("no_response".to_string()))
    );
    assert_eq!(
        probe_step(ProbeStep::BadArguments, "端口无效".into()),
        (false, "参数无效".to_string(), Some("端口无效".to_string()))
    );
    assert_eq!(probe_step(ProbeStep::Cancelled, String::new()).2, Some("cancelled".to_string()));
    assert_eq!(probe_step(ProbeStep::UnknownTool, String::new()).1, "未知探测工具");
    assert_eq!(probe_step(ProbeStep::ScanFailed, "openssl said no".into()).2, Some("openssl said no".to_string()));
    assert_eq!(domain_egress::network::probe_method(Some("gét")), "GET");
}
