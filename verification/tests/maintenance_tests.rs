use domain_egress::maintenance::{update_failure, update_format_failure, update_request_failure};
use domain_egress::maintenance::{
    check_push_token, check_terminate, check_update_url, gist_api_url, gist_auth_header,
    listening_ports, update_info, version_tuple,
};

#[test]
fn versions_are_read() {
    assert_eq!(version_tuple("v1.2.3"), Some((1, 2, 3)));
    assert_eq!(version_tuple(" 0.4.1-beta.2 "), Some((0, 4, 1)));
    assert_eq!(version_tuple("1.2"), None);
    assert_eq!(version_tuple("1.x.3"), None);
    assert_eq!(version_tuple("vv2.0.0.9"), Some((2, 0, 0)));
}

#[test]
fn updates_are_detected() {
    let u = update_info(Some("v0.5.0".into()), Some("https://github.com/yogkang/DomainEgress/releases/tag/v0.5.0".into()));
    assert!(u.available);
    assert_eq!(u.latest_version.as_deref(), Some("0.5.0"));
    assert_eq!(u.current_version, "0.4.1");
    let u = update_info(Some("0.4.1".into()), None);
    assert!(!u.available);
    let u = update_info(None, None);
    assert!(u.latest_version.is_none());
    assert!(!u.available);
    assert!(check_update_url("https://github.com/yogkang/DomainEgress/releases/tag/v1").is_ok());
    assert_eq!(check_update_url("https://evil.example/").unwrap_err(), "更新地址不受信任");
}

#[test]
fn gist_addresses() {
    assert_eq!(gist_api_url("github", " abc ").unwrap(), "https://api.github.com/gists/abc");
    assert_eq!(gist_api_url("gitee", "abc").unwrap(), "https://gitee.com/api/v5/gists/abc");
    assert_eq!(gist_api_url("gitlab", "abc").unwrap_err(), "不支持的 Gist 服务商");
    assert_eq!(gist_api_url("github", "  ").unwrap_err(), "请填写 Gist ID");
    assert_eq!(gist_auth_header(" t0k ").unwrap(), "Authorization: token t0k");
    assert!(gist_auth_header(" ").is_none());
    assert_eq!(check_push_token("").unwrap_err(), "推送 Gist 需要访问令牌");
}

#[test]
fn lsof_output_is_sorted_and_deduplicated() {
    let out = "p200\ncnginx\nn*:80\nn*:443\nn*:80\np100\ncsshd\nn*:22\nn*:80\npbad\nn*:9999\n";
    let rows = listening_ports(out);
    let got: Vec<(String, u32, String)> = rows.into_iter().map(|r| (r.port, r.pid, r.name)).collect();
    assert_eq!(
        got,
        vec![
            ("*:22".to_string(), 100, "sshd".to_string()),
            ("*:443".to_string(), 200, "nginx".to_string()),
            ("*:80".to_string(), 100, "sshd".to_string()),
            ("*:80".to_string(), 200, "nginx".to_string()),
        ]
    );
}

#[test]
fn only_listed_processes_may_be_ended() {
    let listed = vec![(300u32, "Mon Jan 1".to_string())];
    assert_eq!(check_terminate(1, 50, "x", &listed).unwrap_err(), "不允许终止此进程");
    assert_eq!(check_terminate(50, 50, "x", &listed).unwrap_err(), "不允许终止此进程");
    assert!(check_terminate(300, 50, "Mon Jan 1", &listed).is_ok());
    assert_eq!(check_terminate(300, 50, "Tue", &listed).unwrap_err(), "进程已变化，请刷新列表后重试");
}

#[test]
fn failed_release_checks_report_the_error() {
    let u = update_request_failure(b"  curl: (22) The requested URL returned error: 404\n");
    assert_eq!(u.current_version, "0.4.1");
    assert_eq!(u.latest_version, None);
    assert_eq!(u.release_url, None);
    assert!(!u.available);
    assert_eq!(u.error.as_deref(), Some("curl: (22) The requested URL returned error: 404"));
    let u = update_format_failure("expected value at line 1 column 1");
    assert_eq!(u.error.as_deref(), Some("Release 返回格式无效：expected value at line 1 column 1"));
    let u = update_failure("spawn failed".into());
    assert_eq!(u.error.as_deref(), Some("spawn failed"));
    assert!(!u.available);
}
