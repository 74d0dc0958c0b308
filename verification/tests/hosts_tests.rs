use domain_egress::hosts::{add, delete_group, if_empty_then, write_failure, list, list_groups, parse, remove, render, save_group, update};

#[test]
fn preserves_external_lines_and_parses_managed_block() {
    let text = "127.0.0.1 localhost\n\n# BEGIN DOMAIN-EGRESS HOSTS\n::1 one.example two.example\n# END DOMAIN-EGRESS HOSTS\n";
    let (before, mappings) = parse(text).unwrap();
    assert_eq!(before[0], "127.0.0.1 localhost");
    assert_eq!(mappings[0].domains, vec!["one.example", "two.example"]);
    assert_eq!(mappings[0].group, "");
}

#[test]
fn parses_and_renders_custom_groups() {
    let text = "# BEGIN DOMAIN-EGRESS HOSTS\n# DomainEgress Group: development\n127.0.0.1 one.example\n# DomainEgress Group: production\n::1 two.example\n# END DOMAIN-EGRESS HOSTS\n";
    let (_, mappings) = parse(text).unwrap();
    assert_eq!(mappings[0].group, "development");
    assert_eq!(mappings[1].group, "production");
    let rendered = render(&[], &mappings);
    assert!(rendered.contains("# DomainEgress Group: development"));
    assert!(rendered.contains("# DomainEgress Group: production"));
}

#[test]
fn rendering_then_parsing_gives_the_mappings_back() {
    let text = "127.0.0.1 localhost\n# BEGIN DOMAIN-EGRESS HOSTS\n# DomainEgress Group: dev\n10.0.0.1 a.example b.example\n::1 c.example\n# END DOMAIN-EGRESS HOSTS\n";
    let (before, mappings) = parse(text).unwrap();
    let rendered = render(&before, &mappings);
    let (before2, mappings2) = parse(&rendered).unwrap();
    assert_eq!(before2, vec!["127.0.0.1 localhost".to_string(), String::new()]);
    assert_eq!(render(&before2, &mappings2), rendered);
    assert_eq!(mappings2.len(), mappings.len());
    for (a, b) in mappings.iter().zip(mappings2.iter()) {
        assert_eq!(a.ip, b.ip);
        assert_eq!(a.domains, b.domains);
        assert_eq!(a.group, b.group);
    }
}

#[test]
fn block_errors_are_reported() {
    assert!(parse("# BEGIN DOMAIN-EGRESS HOSTS\n1.2.3.4 a.example\n").is_err());
    assert!(parse("# BEGIN DOMAIN-EGRESS HOSTS\nnot-an-ip a.example\n# END DOMAIN-EGRESS HOSTS\n").is_err());
    assert!(parse("# BEGIN DOMAIN-EGRESS HOSTS\n1.2.3.4 -bad-\n# END DOMAIN-EGRESS HOSTS\n").is_err());
    assert!(list("plain hosts\n").unwrap().is_empty());
}

#[test]
fn add_update_remove_mappings() {
    let hosts = "127.0.0.1 localhost\n";
    let (mappings, text) = add(hosts, " 10.0.0.1 ", &["A.Example.".to_string()], "dev").unwrap();
    assert_eq!(mappings.len(), 1);
    assert_eq!(mappings[0].domains, vec!["a.example"]);
    assert!(text.starts_with("127.0.0.1 localhost\n"));
    assert!(text.contains("10.0.0.1 a.example"));
    assert!(add(&text, "10.0.0.2", &["a.example".to_string()], "").is_err());
    assert!(add(&text, "bogus", &["b.example".to_string()], "").is_err());
    let (mappings, text) = update(&text, "10.0.0.1", &["a.example".to_string()], "10.0.0.9", &["a.example".to_string(), "b.example".to_string()], "dev").unwrap();
    assert_eq!(mappings[0].ip, "10.0.0.9");
    assert_eq!(mappings[0].domains.len(), 2);
    let (mappings, text) = remove(&text, "10.0.0.9", &[]).unwrap();
    assert!(mappings.is_empty());
    assert!(remove(&text, "10.0.0.9", &[]).is_err());
}

#[test]
fn save_and_delete_groups() {
    let hosts = "127.0.0.1 localhost\n";
    let (groups, text) = save_group(hosts, "dev", "10.0.0.1 a.example".into(), true).unwrap();
    assert_eq!(groups.len(), 1);
    assert_eq!(groups[0].name, "dev");
    let (groups, text) = save_group(&text, "dev", "10.0.0.2 b.example".into(), false).unwrap();
    assert_eq!(groups.len(), 1);
    assert!(!groups[0].enabled);
    assert_eq!(list_groups(&text).unwrap().len(), 1);
    assert!(save_group(&text, "  ", "x".into(), true).is_err());
    assert!(save_group(&text, "a#b", "x".into(), true).is_err());
    let (groups, _) = delete_group(&text, "dev").unwrap();
    assert!(groups.is_empty());
    assert!(delete_group(&text, "missing").is_err());
}

#[test]
fn refused_write_reports_helper_error_or_cancellation() {
    assert_eq!(write_failure(b"  execution error: denied \n"), "execution error: denied");
    assert_eq!(write_failure(b" \n"), "管理员取消了 /etc/hosts 修改");
    assert_eq!(write_failure(b""), "管理员取消了 /etc/hosts 修改");
    assert_eq!(write_failure(&[0xff, b'x']), "\u{fffd}x");
    assert_eq!(if_empty_then(String::new(), "fallback"), "fallback");
    assert_eq!(if_empty_then("kept".into(), "fallback"), "kept");
}

fn same_mappings(a: &[domain_egress::hosts::HostMapping], b: &[domain_egress::hosts::HostMapping]) {
    assert_eq!(a.len(), b.len());
    for (x, y) in a.iter().zip(b.iter()) {
        assert_eq!(x.ip, y.ip);
        assert_eq!(x.domains, y.domains);
        assert_eq!(x.group, y.group);
    }
}

#[test]
fn listing_after_an_edit_gives_what_the_edit_returned() {
    let hosts = "127.0.0.1 localhost\r\n# BEGIN DOMAIN-EGRESS HOSTS\n# DomainEgress Group: dev\n1.2.3.4 one.example\n# END DOMAIN-EGRESS HOSTS\ntrailing line\r";
    let (added, text) = add(hosts, "0:0:0:0:0:ffff:0102:0304", &["Two.Example".to_string()], " ops ").unwrap();
    assert_eq!(added[1].ip, "::ffff:1.2.3.4");
    same_mappings(&list(&text).unwrap(), &added);
    let (before, _) = parse(&text).unwrap();
    assert_eq!(before, vec!["127.0.0.1 localhost", "trailing line", ""]);
    let (changed, text) = update(&text, "::ffff:1.2.3.4", &["two.example".to_string()], "2001:DB8:0:0:0:0:0:1", &["three.example".to_string()], "").unwrap();
    assert_eq!(changed[1].ip, "2001:db8::1");
    same_mappings(&list(&text).unwrap(), &changed);
    let (left, text) = remove(&text, "1.2.3.4", &["one.example".to_string()]).unwrap();
    assert_eq!(left.len(), 1);
    same_mappings(&list(&text).unwrap(), &left);
}

fn same_groups(a: &[domain_egress::hosts::HostGroup], b: &[domain_egress::hosts::HostGroup]) {
    assert_eq!(a.len(), b.len());
    for (x, y) in a.iter().zip(b.iter()) {
        assert_eq!(x.name, y.name);
        assert_eq!(x.enabled, y.enabled);
        assert_eq!(x.content, y.content);
    }
}

#[test]
fn listing_groups_after_saving_gives_what_saving_returned() {
    let hosts = "127.0.0.1 localhost\n";
    let (groups, text) = save_group(hosts, "dev", "10.0.0.1 a.example\n\n# note\n10.0.0.2 b.example".into(), false).unwrap();
    same_groups(&list_groups(&text).unwrap(), &groups);
    assert!(text.contains("# DomainEgress Group: dev [disabled]\n# 10.0.0.1 a.example\n\n# # note\n"));
    let (groups, text) = save_group(&text, "ops", "::1 c.example".into(), true).unwrap();
    same_groups(&list_groups(&text).unwrap(), &groups);
    let (groups, text) = delete_group(&text, "dev").unwrap();
    same_groups(&list_groups(&text).unwrap(), &groups);
    assert_eq!(groups.len(), 1);
    // A name ending with the disabled mark does not read back as an enabled group.
    let (saved, text) = save_group(hosts, "x[disabled]", "".into(), true).unwrap();
    assert!(saved[0].enabled);
    let listed = list_groups(&text).unwrap();
    assert_eq!(listed[0].name, "x");
    assert!(!listed[0].enabled);
}

#[test]
fn adding_keeps_every_domain_in_one_mapping() {
    let text = "127.0.0.1 localhost\n# BEGIN DOMAIN-EGRESS HOSTS\n10.0.0.1 a.example b.example\n# END DOMAIN-EGRESS HOSTS\n";
    let (mappings, written) = add(text, " 10.0.0.2 ", &["C.example".into(), "d.example".into()], "").unwrap();
    let mut seen: Vec<String> = Vec::new();
    for m in &mappings {
        for d in &m.domains {
            assert!(!seen.contains(d));
            seen.push(d.clone());
        }
    }
    assert_eq!(seen, vec!["a.example", "b.example", "c.example", "d.example"]);
    assert!(add(&written, "10.0.0.3", &["b.example".into()], "").is_err());
}

#[test]
fn plain_groups_read_back_as_written() {
    let (groups, written) = save_group("127.0.0.1 localhost\n", "dev", "10.0.0.1 a.example\n# note".into(), false).unwrap();
    let listed = list_groups(&written).unwrap();
    assert_eq!(listed.len(), groups.len());
    assert_eq!(listed[0].name, "dev");
    assert_eq!(listed[0].content, "10.0.0.1 a.example\n# note");
    assert!(!listed[0].enabled);
}

#[test]
fn hosts_write_command_carries_the_file_in_base64() {
    let command = domain_egress::hosts::hosts_write_command("127.0.0.1 localhost\n");
    let script = format!("/usr/bin/printf '%s' '{}' | /usr/bin/base64 --decode > '", "MTI3LjAuMC4xIGxvY2FsaG9zdAo=");
    assert!(command.starts_with(&format!("do shell script \"{}/tmp/domain-egress-hosts-", script)));
    assert!(command.ends_with("/usr/bin/killall -HUP mDNSResponder 2>/dev/null || true\" with administrator privileges"));
    let inner = &command["do shell script ".len()..command.len() - " with administrator privileges".len()];
    let quoted = format!("{:?}", &inner[1..inner.len() - 1]);
    assert_eq!(quoted, inner);
    let id = &command[script.len() + "do shell script \"/tmp/domain-egress-hosts-".len()..][..36];
    assert!(id.chars().all(|c| c == '-' || c.is_ascii_hexdigit()));
    assert!(command.contains(&format!("/bin/mv '/tmp/domain-egress-hosts-{}' /etc/hosts", id)));
}
