use domain_egress::cloud::identity_reply;
use domain_egress::cloud::ecs_reply_check;
use domain_egress::cloud::{check_group_selected, group_page_params, next_page, rule_page_params, rule_queries};
use domain_egress::cloud::{
    check_region_id, check_revoked, delete_account_index, ecs_error_message, enabled_rules,
    finish_sync, fresh_account, fresh_managed_rule, hint, list_accounts, managed_remote, new_account, new_managed_rule,
    percent_encode, priority_value, region_endpoint, region_from_fields, remove_managed_rule,
    revoke_call, revoke_request, rule_from_fields, signed_query, signed_query_with_parts, sort_parameters,
    sync_all_managed_rules, sync_call, sync_managed_rule, sync_request, update_managed_config, validate,
    validate_rule_spec, validate_source_cidr, verify_account, CloudAccountSummary,
    CloudSecurityRule, CreateManagedRuleInput, ManagedRuleConfig, ManagedRuleSyncResult,
    RemoteMatch, RuleFields, SaveCloudAccountInput, StoredCloudAccount, MANAGED_RULE_PREFIX,
};

#[test]
fn validates_aliyun_account_input() {
    let valid = SaveCloudAccountInput {
        display_name: "生产".into(),
        auth_method: "access_key".into(),
        access_key_id: "LTAI12345678".into(),
        access_key_secret: "1234567890123456".into(),
    };
    assert!(validate(&valid).is_ok());
    assert!(validate(&SaveCloudAccountInput { auth_method: "password".into(), ..valid }).is_err());
}

#[test]
fn rejects_non_ascii_access_key_id() {
    let input = SaveCloudAccountInput {
        display_name: "生产".into(),
        auth_method: "access_key".into(),
        access_key_id: "LTAI测试1234".into(),
        access_key_secret: "1234567890123456".into(),
    };
    assert!(validate(&input).is_err());
}

#[test]
fn encodes_aliyun_signature_components_as_rfc3986() {
    assert_eq!(percent_encode("a-_.~ /+"), "a-_.~%20%2F%2B");
}

#[test]
fn creates_stable_aliyun_v1_signature_for_fixed_inputs() {
    let query = signed_query_with_parts(
        "testid",
        "testsecret",
        "GetCallerIdentity",
        "2015-04-01",
        &[],
        "nonce",
        "2026-09-20T00:00:00Z",
    )
    .unwrap();
    assert_eq!(query, "AccessKeyId=testid&Action=GetCallerIdentity&Format=JSON&SignatureMethod=HMAC-SHA1&SignatureNonce=nonce&SignatureVersion=1.0&Timestamp=2026-09-20T00%3A00%3A00Z&Version=2015-04-01&Signature=xY4T4qW85WK4B31WkNaPC6tDuv4%3D");
}

#[test]
fn validates_managed_rule_shape_and_source() {
    assert_eq!(validate_rule_spec("tcp", "22/22", 1).unwrap(), ("TCP".into(), "22/22".into()));
    assert!(validate_rule_spec("TCP", "0/22", 1).is_err());
    assert!(validate_rule_spec("ALL", "22/22", 1).is_err());
    assert!(validate_source_cidr("203.0.113.8/32").is_ok());
    assert!(validate_source_cidr("0.0.0.0/0").is_err());
}

#[test]
fn managed_description_is_unique_and_fixed() {
    let id = uuid::Uuid::new_v4().to_string();
    let description = format!("{MANAGED_RULE_PREFIX}{id}");
    assert!(description.starts_with("DomainEgress:v1:"));
    assert_eq!(description, format!("DomainEgress:v1:{id}"));
    let input = CreateManagedRuleInput {
        account_id: "a".into(),
        region: "cn-hangzhou".into(),
        security_group_id: "sg-1".into(),
        protocol: "tcp".into(),
        port_range: "22/22".into(),
        priority: 1,
    };
    let rule = new_managed_rule(&input, "TCP".into(), "22/22".into(), &id);
    assert_eq!(rule.description, description);
    assert!(rule.enabled);
    assert!(rule.last_error.is_none());
}

#[test]
fn percent_encodes_utf8_bytes_in_upper_case() {
    assert_eq!(percent_encode("中"), "%E4%B8%AD");
    assert_eq!(percent_encode("a=b&c"), "a%3Db%26c");
    assert_eq!(percent_encode(""), "");
}

#[test]
fn parameters_are_sorted_by_name_then_value() {
    let sorted = sort_parameters(vec![
        ("b".into(), "1".into()),
        ("a".into(), "2".into()),
        ("a".into(), "1".into()),
        ("B".into(), "9".into()),
    ]);
    let names: Vec<(String, String)> = sorted;
    assert_eq!(
        names,
        vec![
            ("B".to_string(), "9".to_string()),
            ("a".to_string(), "1".to_string()),
            ("a".to_string(), "2".to_string()),
            ("b".to_string(), "1".to_string()),
        ]
    );
}

#[test]
fn extra_parameters_take_their_place_in_the_signed_query() {
    let q = signed_query_with_parts(
        "id",
        "secret",
        "DescribeRegions",
        "2014-05-26",
        &[("RegionId".into(), "cn-hangzhou".into())],
        "n",
        "t",
    )
    .unwrap();
    assert!(q.starts_with("AccessKeyId=id&Action=DescribeRegions&Format=JSON&RegionId=cn-hangzhou&SignatureMethod=HMAC-SHA1"));
    assert!(q.contains("&Signature="));
    let fresh = signed_query("id", "secret", "GetCallerIdentity", "2015-04-01").unwrap();
    assert!(fresh.contains("SignatureNonce="));
}

#[test]
fn account_input_errors() {
    let base = SaveCloudAccountInput {
        display_name: "生产".into(),
        auth_method: "ram_access_key".into(),
        access_key_id: "  LTAI12345678  ".into(),
        access_key_secret: " 1234567890123456 ".into(),
    };
    assert!(validate(&base).is_ok());
    let e = validate(&SaveCloudAccountInput { display_name: "  ".into(), ..clone_input(&base) }).unwrap_err();
    assert_eq!(e, "请输入云账号备注");
    let e = validate(&SaveCloudAccountInput { auth_method: "sts".into(), ..clone_input(&base) }).unwrap_err();
    assert_eq!(e, "当前仅支持 RAM 子账户凭据或 AccessKey");
    let e = validate(&SaveCloudAccountInput { access_key_id: "LTAI123".into(), ..clone_input(&base) }).unwrap_err();
    assert_eq!(e, "AccessKey ID 或 Secret 格式无效");
    let e = validate(&SaveCloudAccountInput { access_key_secret: "short".into(), ..clone_input(&base) }).unwrap_err();
    assert_eq!(e, "AccessKey ID 或 Secret 格式无效");
    let e = validate(&SaveCloudAccountInput { access_key_id: "LTAI-2345678".into(), ..clone_input(&base) }).unwrap_err();
    assert_eq!(e, "AccessKey ID 或 Secret 格式无效");
}

fn clone_input(i: &SaveCloudAccountInput) -> SaveCloudAccountInput {
    SaveCloudAccountInput {
        display_name: i.display_name.clone(),
        auth_method: i.auth_method.clone(),
        access_key_id: i.access_key_id.clone(),
        access_key_secret: i.access_key_secret.clone(),
    }
}

#[test]
fn access_key_hint_masks_the_middle() {
    assert_eq!(hint(" LTAI12345678 "), "LTAI****5678");
    assert_eq!(hint("é12é"), "é12****12é");
}

#[test]
fn rule_spec_variants() {
    assert_eq!(validate_rule_spec(" udp ", " 1/65535 ", 100).unwrap(), ("UDP".into(), "1/65535".into()));
    assert_eq!(validate_rule_spec("gre", "-1/-1", 50).unwrap(), ("GRE".into(), "-1/-1".into()));
    assert_eq!(validate_rule_spec("icmp", "1/1", 50).unwrap_err(), "ICMP 协议端口范围必须为 -1/-1");
    assert_eq!(validate_rule_spec("tcp", "22/22", 0).unwrap_err(), "优先级必须在 1 到 100 之间");
    assert_eq!(validate_rule_spec("tcp", "22/22", 101).unwrap_err(), "优先级必须在 1 到 100 之间");
    assert_eq!(validate_rule_spec("tcp", "22-23", 1).unwrap_err(), "端口范围格式应为起始/结束，例如 22/22");
    assert_eq!(validate_rule_spec("tcp", "22", 1).unwrap_err(), "端口范围无效");
    assert_eq!(validate_rule_spec("tcp", "30/22", 1).unwrap_err(), "端口范围无效");
    assert_eq!(validate_rule_spec("tcp", "1/2/3", 1).unwrap_err(), "端口范围无效");
    assert_eq!(validate_rule_spec("sctp", "1/2", 1).unwrap_err(), "仅支持 TCP、UDP、ICMP、GRE 或 ALL");
}

#[test]
fn source_cidr_errors() {
    assert_eq!(validate_source_cidr("203.0.113.8").unwrap_err(), "受管授权对象必须是单个 IPv4 的 /32 CIDR");
    assert_eq!(validate_source_cidr("2001:db8::1/32").unwrap_err(), "当前出口 IPv4 无效");
    assert_eq!(validate_source_cidr("203.0.113.256/32").unwrap_err(), "当前出口 IPv4 无效");
}

fn summary(id: &str, status: &str) -> CloudAccountSummary {
    CloudAccountSummary {
        id: id.into(),
        provider: "aliyun".into(),
        display_name: "n".into(),
        auth_method: "access_key".into(),
        access_key_hint: "LTAI****5678".into(),
        verified_account_id: None,
        verification_status: status.into(),
        created_at: 1,
        updated_at: 2,
    }
}

fn stored(id: &str, status: &str) -> StoredCloudAccount {
    StoredCloudAccount { summary: summary(id, status), credential_key: format!("cloud-account-{id}") }
}

#[test]
fn account_bookkeeping() {
    let mut accounts = vec![stored("a", "未验证"), stored("b", "已验证")];
    let listed = list_accounts(&accounts);
    assert_eq!(listed.iter().map(|s| s.id.as_str()).collect::<Vec<_>>(), vec!["a", "b"]);
    assert_eq!(domain_egress::cloud::credential_key(&accounts, "b").unwrap(), "cloud-account-b");
    assert_eq!(domain_egress::cloud::credential_key(&accounts, "z").unwrap_err(), "云账号不存在");
    assert_eq!(domain_egress::cloud::verified_credential_key(&accounts, "a").unwrap_err(), "请先验证阿里云账号");
    let s = verify_account(&mut accounts, "a", "1234".into(), 99).unwrap();
    assert_eq!(s.verification_status, "已验证");
    assert_eq!(s.verified_account_id.as_deref(), Some("1234"));
    assert_eq!(s.updated_at, 99);
    assert_eq!(s.created_at, 1);
    assert_eq!(accounts[0].summary.updated_at, 99);
    assert_eq!(accounts[0].credential_key, "cloud-account-a");
    assert_eq!(verify_account(&mut accounts, "gone", "1".into(), 5).unwrap_err(), "云账号在验证期间已被删除");
    let input = SaveCloudAccountInput {
        display_name: " 生产 ".into(),
        auth_method: "access_key".into(),
        access_key_id: "LTAI12345678".into(),
        access_key_secret: "1234567890123456".into(),
    };
    let created = new_account(&input, "u-1", "acct".into(), 7);
    assert_eq!(created.summary.id, "aliyun-u-1");
    assert_eq!(created.credential_key, "cloud-account-aliyun-u-1");
    assert_eq!(created.summary.display_name, "生产");
    assert_eq!(created.summary.access_key_hint, "LTAI****5678");
}

fn rule_config(id: &str, account: &str, enabled: bool) -> ManagedRuleConfig {
    ManagedRuleConfig {
        id: id.into(),
        account_id: account.into(),
        region: "cn-hangzhou".into(),
        security_group_id: "sg-1".into(),
        protocol: "TCP".into(),
        port_range: "22/22".into(),
        priority: 1,
        description: format!("DomainEgress:v1:{id}"),
        enabled,
        last_source_cidr: None,
        last_synced_at: None,
        last_error: None,
    }
}

#[test]
fn deleting_an_account_with_rules_is_refused() {
    let accounts = vec![stored("a", "已验证"), stored("b", "已验证")];
    let rules = vec![rule_config("r1", "a", true)];
    assert_eq!(delete_account_index(&rules, &accounts, "a").unwrap_err(), "该账号仍有关联的受管安全组规则，请先在安全组页面删除受管规则");
    assert_eq!(delete_account_index(&rules, &accounts, "b").unwrap(), 1);
    assert_eq!(delete_account_index(&rules, &accounts, "c").unwrap_err(), "云账号不存在");
}

fn sync_result(config: ManagedRuleConfig) -> ManagedRuleSyncResult {
    ManagedRuleSyncResult { config, action: "created".into(), rule_id: "sgr-1".into() }
}

#[test]
fn managed_rule_store_updates() {
    let mut configs = vec![rule_config("r1", "a", true), rule_config("r2", "a", false)];
    let mut changed = rule_config("r2", "a", true);
    changed.priority = 5;
    assert!(update_managed_config(&mut configs, changed).is_ok());
    assert_eq!(configs[1].priority, 5);
    assert_eq!(update_managed_config(&mut configs, rule_config("r9", "a", true)).unwrap_err(), "受管规则配置不存在");
    let config = rule_config("r1", "a", true);
    let mut synced = rule_config("r1", "a", true);
    synced.last_source_cidr = Some("1.2.3.4/32".into());
    let r = sync_managed_rule(&mut configs, &config, Ok(sync_result(synced))).unwrap();
    assert_eq!(r.rule_id, "sgr-1");
    assert_eq!(configs[0].last_source_cidr.as_deref(), Some("1.2.3.4/32"));
    let e = sync_managed_rule(&mut configs, &config, Err("boom".into())).unwrap_err();
    assert_eq!(e, "boom");
    assert_eq!(configs[0].last_error.as_deref(), Some("boom"));
    let gone = rule_config("r7", "a", true);
    assert_eq!(sync_managed_rule(&mut configs, &gone, Err("x".into())).unwrap_err(), "受管规则配置不存在");
    assert_eq!(enabled_rules(&configs).len(), 2);
    remove_managed_rule(&mut configs, "r1");
    assert_eq!(configs.len(), 1);
    assert_eq!(configs[0].id, "r2");
}

#[test]
fn sync_all_lists_every_failure() {
    let ok = sync_managed_rule_result("r1");
    let all = sync_all_managed_rules(vec![
        ("DomainEgress:v1:r1".into(), Ok(ok)),
        ("DomainEgress:v1:r2".into(), Err("e2".into())),
        ("DomainEgress:v1:r3".into(), Err("e3".into())),
    ]);
    assert_eq!(all.unwrap_err(), "部分受管规则更新失败：DomainEgress:v1:r2: e2；DomainEgress:v1:r3: e3");
    let all = sync_all_managed_rules(vec![("d".into(), Ok(sync_managed_rule_result("r1")))]).unwrap();
    assert_eq!(all.len(), 1);
    assert!(sync_all_managed_rules(vec![]).unwrap().is_empty());
}

fn sync_managed_rule_result(id: &str) -> ManagedRuleSyncResult {
    sync_result(rule_config(id, "a", true))
}

fn remote(id: &str, direction: &str, description: &str, source: &str) -> CloudSecurityRule {
    CloudSecurityRule {
        id: id.into(),
        direction: direction.into(),
        protocol: "TCP".into(),
        port_range: "22/22".into(),
        priority: 1,
        action: "accept".into(),
        source_cidr: source.into(),
        description: description.into(),
        managed: true,
    }
}

#[test]
fn finds_the_remote_managed_rule() {
    let d = "DomainEgress:v1:r1";
    assert!(matches!(managed_remote(&[remote("x", "egress", d, "")], d), RemoteMatch::Absent));
    assert!(matches!(managed_remote(&[remote("x", "egress", d, ""), remote("y", "ingress", d, "")], d), RemoteMatch::One(1)));
    assert!(matches!(managed_remote(&[remote("x", "ingress", d, ""), remote("y", "ingress", d, "")], d), RemoteMatch::Several));
}

#[test]
fn sync_requests_and_readback() {
    let config = rule_config("r1", "a", true);
    let (action, ps) = sync_request(&config, "TCP", "22/22", "1.2.3.4/32", Some("sgr-9"), "vpc-1", "tok");
    assert_eq!(action, "ModifySecurityGroupRule");
    assert_eq!(ps[2], ("SecurityGroupRuleId".to_string(), "sgr-9".to_string()));
    assert_eq!(ps[8], ("ClientToken".to_string(), "de-tok".to_string()));
    let (action, ps) = sync_request(&config, "TCP", "22/22", "1.2.3.4/32", None, "", "tok");
    assert_eq!(action, "AuthorizeSecurityGroup");
    assert_eq!(ps[7], ("Description".to_string(), "DomainEgress:v1:r1".to_string()));
    assert_eq!(ps[8], ("NicType".to_string(), "internet".to_string()));
    let readback = vec![
        remote("old", "ingress", "DomainEgress:v1:r1", "9.9.9.9/32"),
        remote("new", "ingress", "DomainEgress:v1:r1", "1.2.3.4/32"),
    ];
    let done = finish_sync(&config, "1.2.3.4/32", None, &readback, 77).unwrap();
    assert_eq!(done.action, "created");
    assert_eq!(done.rule_id, "new");
    assert_eq!(done.config.last_synced_at, Some(77));
    let done = finish_sync(&config, "1.2.3.4/32", Some("sgr-9"), &readback, 77).unwrap();
    assert_eq!((done.action.as_str(), done.rule_id.as_str()), ("updated", "sgr-9"));
    let done = finish_sync(&config, "1.2.3.4/32", Some(""), &readback, 77).unwrap();
    assert_eq!(done.rule_id, "new");
    assert_eq!(finish_sync(&config, "5.5.5.5/32", None, &readback, 1).unwrap_err(), "阿里云已接受请求，但回读未找到期望的受管规则");
    let revoke = revoke_request(&config, "sgr-9", "t");
    assert_eq!(revoke[2], ("SecurityGroupRuleId.1".to_string(), "sgr-9".to_string()));
    assert!(check_revoked(&readback, "DomainEgress:v1:r2").is_ok());
    assert_eq!(check_revoked(&readback, "DomainEgress:v1:r1").unwrap_err(), "阿里云已接受删除请求，但回读仍发现受管规则");
}

#[test]
fn response_fields_become_regions_and_rules() {
    let r = region_from_fields("cn-hangzhou".into(), "".into(), "ecs.cn-hangzhou.aliyuncs.com".into()).unwrap();
    assert_eq!(r.name, "cn-hangzhou");
    assert!(region_from_fields("".into(), "x".into(), "".into()).is_none());
    let rule = rule_from_fields(
        "ingress",
        RuleFields {
            rule_id: "sgr".into(),
            direction: "".into(),
            ip_protocol: "tcp".into(),
            port_range: "22/22".into(),
            priority: 1,
            policy: "accept".into(),
            source_cidr_ip: "".into(),
            ipv6_source_cidr_ip: "::/0".into(),
            dest_cidr_ip: "1.1.1.1/32".into(),
            ipv6_dest_cidr_ip: "".into(),
            description: "DomainEgress:v1:x".into(),
        },
    );
    assert_eq!(rule.direction, "ingress");
    assert_eq!(rule.protocol, "TCP");
    assert_eq!(rule.source_cidr, "::/0");
    assert!(rule.managed);
    assert_eq!(priority_value(Some(7), Some("9")), 7);
    assert_eq!(priority_value(None, Some("-3")), -3);
    assert_eq!(priority_value(None, Some("x")), 0);
    assert_eq!(priority_value(None, Some("4294967297")), 1);
    assert_eq!(priority_value(None, None), 0);
}

#[test]
fn endpoints_and_errors() {
    assert_eq!(region_endpoint("cn-hangzhou", "").unwrap(), "ecs.cn-hangzhou.aliyuncs.com");
    assert_eq!(region_endpoint("x", "evil.example.com").unwrap_err(), "阿里云返回的地域 Endpoint 无效");
    assert_eq!(region_endpoint("x", "a/b.aliyuncs.com").unwrap_err(), "阿里云返回的地域 Endpoint 无效");
    assert!(check_region_id("cn-hangzhou").is_ok());
    assert_eq!(check_region_id("cn_hangzhou").unwrap_err(), "地域标识无效");
    assert_eq!(check_region_id("").unwrap_err(), "地域标识无效");
    assert_eq!(
        ecs_error_message("DescribeRegions", "403 Forbidden", "", "denied", ""),
        "阿里云 ECS DescribeRegions 失败（HTTP 403 Forbidden，Code=Unknown，Message=denied，RequestId=未返回）"
    );
}

#[test]
fn fresh_identifiers_and_tokens_are_random() {
    let input = SaveCloudAccountInput {
        display_name: "prod".into(),
        auth_method: "access_key".into(),
        access_key_id: "LTAI12345678".into(),
        access_key_secret: "1234567890123456".into(),
    };
    let a = fresh_account(&input, "acct".into(), 3);
    let b = fresh_account(&input, "acct".into(), 3);
    assert!(a.summary.id.starts_with("aliyun-"));
    assert!(a.summary.id.len() > "aliyun-".len());
    assert_ne!(a.summary.id, b.summary.id);
    assert_eq!(a.credential_key, format!("cloud-account-{}", a.summary.id));
    assert_eq!(a.summary.verified_account_id.as_deref(), Some("acct"));
    let rule_input = CreateManagedRuleInput {
        account_id: "a".into(),
        region: "cn-hangzhou".into(),
        security_group_id: "sg-1".into(),
        protocol: "tcp".into(),
        port_range: "22/22".into(),
        priority: 1,
    };
    let rule = fresh_managed_rule(&rule_input, "TCP".into(), "22/22".into());
    assert!(!rule.id.is_empty());
    assert_eq!(rule.description, format!("DomainEgress:v1:{}", rule.id));
    assert_eq!(rule.protocol, "TCP");
    let config = rule_config("r1", "a", true);
    let (action, ps) = sync_call(&config, "TCP", "22/22", "1.2.3.4/32", None, "vpc-1");
    assert_eq!(action, "AuthorizeSecurityGroup");
    assert_eq!(ps[8], ("NicType".to_string(), "intranet".to_string()));
    assert!(ps[9].1.starts_with("de-") && ps[9].1.len() > 3);
    let (_, again) = sync_call(&config, "TCP", "22/22", "1.2.3.4/32", None, "vpc-1");
    assert_ne!(ps[9].1, again[9].1);
    let revoke = revoke_call(&config, "sgr-9");
    assert_eq!(revoke[0], ("RegionId".to_string(), "cn-hangzhou".to_string()));
    assert!(revoke[3].1.starts_with("de-") && revoke[3].1.len() > 3);
}

#[test]
fn rule_listing_pages() {
    assert_eq!(check_group_selected("  ").unwrap_err(), "请选择安全组");
    assert!(check_group_selected("sg-1").is_ok());
    assert_eq!(rule_queries("").len(), 4);
    let q = rule_queries("vpc-1");
    assert_eq!(q, vec![("ingress".to_string(), Some("intranet".to_string())), ("egress".to_string(), None)]);
    let p = rule_page_params("cn-hangzhou", "sg-1", "egress", None, "");
    assert_eq!(p.len(), 4);
    assert_eq!(p[3], ("MaxResults".to_string(), "100".to_string()));
    let p = rule_page_params("cn-hangzhou", "sg-1", "ingress", Some("intranet"), "t1");
    assert_eq!(p[4], ("NicType".to_string(), "intranet".to_string()));
    assert_eq!(p[5], ("NextToken".to_string(), "t1".to_string()));
    assert_eq!(group_page_params("r", "").len(), 2);
    assert_eq!(group_page_params("r", "t")[2].1, "t");
    let mut seen = Vec::new();
    assert_eq!(next_page(&mut seen, "a".into(), true).unwrap(), Some("a".to_string()));
    assert_eq!(next_page(&mut seen, "".into(), true).unwrap(), None);
    assert_eq!(next_page(&mut seen, "a".into(), true).unwrap_err(), "阿里云安全组规则分页返回了重复 NextToken，已停止读取");
    assert_eq!(next_page(&mut seen, "a".into(), false).unwrap_err(), "阿里云安全组分页返回了重复 NextToken，已停止读取");
}

fn decode_percent(s: &str) -> Vec<u8> {
    let b = s.as_bytes();
    let mut out = Vec::new();
    let mut i = 0;
    while i < b.len() {
        if b[i] == b'%' {
            out.push(u8::from_str_radix(&s[i + 1..i + 3], 16).unwrap());
            i += 3;
        } else {
            out.push(b[i]);
            i += 1;
        }
    }
    out
}

#[test]
fn percent_encoding_decodes_back_to_the_bytes() {
    for s in ["中 a", "a-_.~ /+", "x=y&z", "ünï", "plain-Text_1.~"] {
        let e = percent_encode(s);
        assert_eq!(decode_percent(&e), s.as_bytes());
        assert!(e.chars().all(|c| c.is_ascii_alphanumeric() || "-_.~%ABCDEF".contains(c)));
    }
    assert_eq!(percent_encode("plain-Text_1.~"), "plain-Text_1.~");
}

#[test]
fn reordered_extra_parameters_give_the_same_query() {
    let a: Vec<(String, String)> = vec![
        ("RegionId".into(), "cn-hangzhou".into()),
        ("PageSize".into(), "50".into()),
        ("PageNumber".into(), "1".into()),
    ];
    let mut b = a.clone();
    b.reverse();
    let qa = signed_query_with_parts("id", "secret", "DescribeRegions", "2014-05-26", &a, "n", "t").unwrap();
    let qb = signed_query_with_parts("id", "secret", "DescribeRegions", "2014-05-26", &b, "n", "t").unwrap();
    assert_eq!(qa, qb);
}

#[test]
fn ecs_replies_are_judged_by_status_json_and_code() {
    assert_eq!(ecs_reply_check("DescribeRegions", 200, "200 OK", true, None, "", ""), Ok(()));
    assert_eq!(
        ecs_reply_check("DescribeRegions", 502, "502 Bad Gateway", false, None, "", ""),
        Err("阿里云 ECS DescribeRegions 失败（HTTP 502 Bad Gateway，响应不是有效 JSON）".to_string())
    );
    assert_eq!(
        ecs_reply_check("DescribeRegions", 200, "200 OK", false, None, "", ""),
        Err("阿里云 ECS DescribeRegions 返回无效，请稍后重试。".to_string())
    );
    assert_eq!(
        ecs_reply_check("X", 200, "200 OK", true, Some("Forbidden"), "denied", "r-1"),
        Err("阿里云 ECS X 失败（HTTP 200 OK，Code=Forbidden，Message=denied，RequestId=r-1）".to_string())
    );
    assert_eq!(
        ecs_reply_check("X", 403, "403 Forbidden", true, None, "", ""),
        Err("阿里云 ECS X 失败（HTTP 403 Forbidden，Code=Unknown，Message=未返回，RequestId=未返回）".to_string())
    );
}

#[test]
fn identity_replies_give_the_account() {
    assert_eq!(identity_reply(200, Some(("123".into(), "acs:ram::123:root".into()))), Ok("123".to_string()));
    assert_eq!(
        identity_reply(403, Some(("123".into(), "arn".into()))),
        Err("阿里云身份校验失败，请检查 RAM AccessKey、网络及 STS 权限。".to_string())
    );
    assert_eq!(identity_reply(200, None), Err("阿里云身份校验返回无效，请检查账号与网络。".to_string()));
    assert_eq!(identity_reply(200, Some(("".into(), "arn".into()))), Err("阿里云身份校验未返回完整账号信息。".to_string()));
}

fn is_uuid_text(s: &str) -> bool {
    s.len() == 36
        && s.chars().enumerate().all(|(i, c)| {
            if [8, 13, 18, 23].contains(&i) {
                c == '-'
            } else {
                c.is_ascii_digit() || ('a'..='f').contains(&c)
            }
        })
}

#[test]
fn fresh_identifiers_are_uuid_texts() {
    let input = SaveCloudAccountInput {
        display_name: "prod".into(),
        auth_method: "access_key".into(),
        access_key_id: "LTAI12345678".into(),
        access_key_secret: "1234567890123456".into(),
    };
    let a = fresh_account(&input, "acct".into(), 3);
    assert!(is_uuid_text(&a.summary.id["aliyun-".len()..]));
    let rule_input = CreateManagedRuleInput {
        account_id: "a".into(),
        region: "cn-hangzhou".into(),
        security_group_id: "sg-1".into(),
        protocol: "tcp".into(),
        port_range: "22/22".into(),
        priority: 1,
    };
    let rule = fresh_managed_rule(&rule_input, "TCP".into(), "22/22".into());
    assert!(is_uuid_text(&rule.id));
    let q = signed_query("id", "secret", "GetCallerIdentity", "2015-04-01").unwrap();
    let nonce = q.split('&').find_map(|p| p.strip_prefix("SignatureNonce=")).unwrap();
    assert!(is_uuid_text(nonce));
    let ts = q.split('&').find_map(|p| p.strip_prefix("Timestamp=")).unwrap().replace("%3A", ":");
    let b = ts.as_bytes();
    assert_eq!(b.len(), 20);
    assert!(b[4] == b'-' && b[7] == b'-' && b[10] == b'T' && b[13] == b':' && b[16] == b':' && b[19] == b'Z');
}
