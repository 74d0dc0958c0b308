use domain_egress::policy::allowed;

#[test]
fn modes() {
    assert!(allowed("whitelist", &["example.com".into()], "a.example.com"));
    assert!(allowed("whitelist", &["example.com".into()], "a.b.example.com"));
    assert!(allowed("whitelist", &[".example.com".into()], "a.b.example.com"));
    assert!(allowed("whitelist", &["*.example.com".into()], "a.example.com"));
    assert!(!allowed("whitelist", &["*.example.com".into()], "a.b.example.com"));
    assert!(!allowed("whitelist", &["*.example.com".into()], "example.com"));
    assert!(!allowed("whitelist", &["example.com".into()], "badexample.com"));
    assert!(!allowed("blacklist", &["example.com".into()], "a.example.com"));
    assert!(!allowed("blacklist", &["example.com".into()], "example.com"));
    assert!(!allowed("blacklist", &["example.com".into()], "a.b.example.com"));
    assert!(allowed("blacklist", &["*.example.com".into()], "a.b.example.com"));
    assert!(allowed("blacklist", &[], "anything.com"));
}

#[test]
fn rules_and_targets_are_compared_in_lower_case() {
    assert!(allowed("whitelist", &["EXAMPLE.com".into()], "a.Example.COM."));
    assert!(!allowed("blacklist", &[" Example.com. ".into()], "WWW.EXAMPLE.COM"));
}

#[test]
fn ip_targets_match_rules_as_written() {
    assert!(allowed("whitelist", &["127.0.0.1".into()], "127.0.0.1"));
    assert!(!allowed("whitelist", &["127.0.0.1".into()], "127.0.0.2"));
    assert!(allowed("whitelist", &["::1".into()], "::1"));
}

#[test]
fn whitelist_and_blacklist_are_complements() {
    let rules: Vec<String> = vec!["example.com".into(), "*.test.org".into()];
    for target in ["example.com", "a.example.com", "x.test.org", "test.org", "other.net"] {
        assert_ne!(allowed("whitelist", &rules, target), allowed("blacklist", &rules, target));
    }
}

#[test]
fn case_and_final_dot_do_not_change_the_answer() {
    let rules: Vec<String> = vec!["*.example.com".into(), "api.test.org".into()];
    for target in ["a.example.com", "example.com", "x.api.test.org", "other.net"] {
        let shouted = format!("{}.", target.to_ascii_uppercase());
        for mode in ["whitelist", "blacklist", "other"] {
            assert_eq!(allowed(mode, &rules, target), allowed(mode, &rules, &shouted));
        }
        assert_eq!(allowed("blacklist", &rules, target), !allowed("whitelist", &rules, target));
    }
}
