use domain_egress::config::{SshForwardRule, SshHop, SshProfile};
use domain_egress::ssh::{
    check_forward, check_keychain_input, find_forward, format_hop, forward_args, forward_port,
    forward_with_options, local_port_for, record_forward_port, ssh_command, validate_profile,
};

fn hop(host: &str, user: &str, auth: &str) -> SshHop {
    SshHop { host: host.into(), port: 22, username: user.into(), auth: auth.into(), keychain_id: Some("key-1".into()) }
}

#[test]
fn chains_are_checked() {
    let p = SshProfile { id: "p".into(), name: " ".into(), hops: vec![hop("h", "u", "agent")], enabled: true };
    assert_eq!(validate_profile(&p).unwrap_err(), "SSH 配置名称和服务器不能为空");
    let p = SshProfile { id: "p".into(), name: "n".into(), hops: vec![hop("h", "u", "agent"), hop("h2", " ", "agent")], enabled: true };
    assert_eq!(validate_profile(&p).unwrap_err(), "SSH 服务器地址、端口和用户名不能为空");
    let p = SshProfile { id: "p".into(), name: "n".into(), hops: vec![hop("h", "u", "totp")], enabled: true };
    assert_eq!(validate_profile(&p).unwrap_err(), "不支持的 SSH 认证方式：totp");
}

#[test]
fn chain_commands_are_built() {
    assert_eq!(local_port_for("ab"), 21000 + (97 + 98) % 1000);
    assert_eq!(format_hop(&hop("h", "u", "agent")), "u@h:22");
    let p = SshProfile { id: "ab".into(), name: "n".into(), hops: vec![hop("jump", "j", "agent"), hop("exit", "e", "keychain")], enabled: true };
    let (port, args) = ssh_command(&p).unwrap();
    assert_eq!(port, 21195);
    assert_eq!(
        args,
        vec!["-N", "-T", "-A", "-D", "127.0.0.1:21195", "-o", "ExitOnForwardFailure=yes", "-o", "ServerAliveInterval=30", "-o", "ServerAliveCountMax=3", "-o", "BatchMode=yes", "-J", "j@jump:22", "-i", "key-1", "e@exit", "-p", "22"]
    );
    let p = SshProfile { id: "ab".into(), name: "n".into(), hops: vec![hop("exit", "e", "password")], enabled: true };
    assert!(ssh_command(&p).unwrap_err().starts_with("密码认证需要桌面密码输入流程"));
}

fn forward() -> SshForwardRule {
    SshForwardRule {
        id: "f".into(),
        name: "db".into(),
        bind_host: "127.0.0.1".into(),
        remote_host: "10.0.0.5".into(),
        remote_port: 5432,
        ssh_host: "bastion".into(),
        ssh_port: 2222,
        ssh_username: "ops".into(),
        ssh_keychain_id: Some(" ".into()),
        local_port: None,
        auto_start: false,
        ssh_options: vec![],
    }
}

#[test]
fn forwards_are_checked_and_built() {
    let f = forward();
    assert!(check_forward(&f).is_ok());
    let mut bad = forward();
    bad.remote_port = 0;
    assert_eq!(check_forward(&bad).unwrap_err(), "SSH 转发配置不完整");
    assert_eq!(forward_port(None, Some(28001)).unwrap(), 28001);
    assert_eq!(forward_port(Some(3000), Some(28001)).unwrap(), 3000);
    assert_eq!(forward_port(None, None).unwrap_err(), "28000–29000 范围内没有可用本地端口");
    assert_eq!(
        forward_args(&f, 28001),
        vec!["-N", "-T", "-C", "-o", "ServerAliveInterval=60", "-o", "ServerAliveCountMax=3", "-o", "ExitOnForwardFailure=yes", "-L", "127.0.0.1:28001:10.0.0.5:5432", "ops@bastion", "-p", "2222"]
    );
    assert_eq!(find_forward(&[forward()], "f").unwrap(), 0);
    assert_eq!(find_forward(&[forward()], "g").unwrap_err(), "SSH 转发配置不存在");
}

#[test]
fn started_forwards_get_options_and_ports() {
    let mut rule = forward();
    rule.ssh_options = vec!["-C".into()];
    let started = forward_with_options(rule, &["-o".to_string(), "ServerAliveInterval=30".to_string()]);
    assert_eq!(started.ssh_options, vec!["-C", "-o", "ServerAliveInterval=30"]);
    assert_eq!(started.id, "f");
    let mut other = forward();
    other.id = "g".into();
    let mut forwards = vec![forward(), other, forward()];
    record_forward_port(&mut forwards, "f", 28001);
    assert_eq!(forwards[0].local_port, Some(28001));
    assert_eq!(forwards[1].local_port, forward().local_port);
    assert_eq!(forwards[2].local_port, forward().local_port);
    record_forward_port(&mut forwards, "missing", 1);
    assert_eq!(forwards[0].local_port, Some(28001));
}

#[test]
fn keychain_entries_need_account_and_secret() {
    assert!(check_keychain_input("ssh-key", "s3cret").is_ok());
    assert_eq!(check_keychain_input("  ", "s3cret").unwrap_err(), "钥匙串账号和凭据不能为空");
    assert_eq!(check_keychain_input("ssh-key", "").unwrap_err(), "钥匙串账号和凭据不能为空");
}
