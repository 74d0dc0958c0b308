//! The client's settings: their defaults, the rule lists' normal form, and the checks a
//! configuration must pass before it is saved or the proxy starts.
use crate::hosts::{labels_ok, push_string, valid_label};
use crate::calls::{to_lowercase, unicode_lowercase};
use crate::ip::{ip_parse, parse_ip_chars};
use crate::text::{
    chars_of, owned, slice_of, split_char, starts_with, starts_with_chars, string_of, strs, trim,
    trim_end_char, trim_end_char_chars, trim_str,
};
use vstd::prelude::*;

verus! {

/// One server of an SSH chain.
#[derive(Clone, Debug)]
pub struct SshHop {
    pub host: String,
    pub port: u16,
    pub username: String,
    pub auth: String,
    pub keychain_id: Option<String>,
}

/// A named SSH chain whose last server is the egress.
#[derive(Clone, Debug)]
pub struct SshProfile {
    pub id: String,
    pub name: String,
    pub hops: Vec<SshHop>,
    pub enabled: bool,
}

/// A local port forwarded through an SSH server to a remote host.
#[derive(Clone, Debug)]
pub struct SshForwardRule {
    pub id: String,
    pub name: String,
    pub bind_host: String,
    pub remote_host: String,
    pub remote_port: u16,
    pub ssh_host: String,
    pub ssh_port: u16,
    pub ssh_username: String,
    pub ssh_keychain_id: Option<String>,
    pub local_port: Option<u16>,
    pub auto_start: bool,
    pub ssh_options: Vec<String>,
}

/// The client's settings.
#[derive(Clone, Debug)]
pub struct Config {
    pub version: u32,
    pub access_mode: String,
    pub whitelist: Vec<String>,
    pub blacklist: Vec<String>,
    pub http_host: String,
    pub http_port: u16,
    pub socks_host: String,
    pub socks_port: u16,
    pub auto_start: bool,
    pub log_level: String,
    pub log_retention_days: u32,
    pub trend_retention_days: u32,
    /// When each whitelist rule was added: at most one time per rule.
    pub whitelist_added_at: Vec<(String, u64)>,
    /// When each blacklist rule was added: at most one time per rule.
    pub blacklist_added_at: Vec<(String, u64)>,
    pub ssh_profiles: Vec<SshProfile>,
    pub active_ssh_profile: Option<String>,
    pub icloud_sync_enabled: bool,
    /// The local SOCKS port of a running SSH egress; never saved.
    pub ssh_proxy_port: Option<u16>,
    pub port_refresh_interval_seconds: u32,
    pub font_scale: u32,
    pub ssh_forwards: Vec<SshForwardRule>,
    pub ssh_forward_options: Vec<String>,
}

// ---------------------------------------------------------------------------
// Defaults
// ---------------------------------------------------------------------------

/// The whitelist a new configuration starts with.
pub open spec fn default_whitelist() -> Seq<Seq<char>> {
    default_whitelist_1() + default_whitelist_2() + default_whitelist_3() + default_whitelist_4() + default_whitelist_5() + default_whitelist_6() + default_whitelist_7() + default_whitelist_8() + default_whitelist_9() + default_whitelist_10()
}

/// Part 1 of the default whitelist.
pub open spec fn default_whitelist_1() -> Seq<Seq<char>> {
    seq!["agentclientprotocol.com"@, "alicdn.com"@, "aliyun.com"@, "aliyuncs.com"@, "apache.org"@, "apipost.net"@, "bcebos.com"@, "bdstatic.com"@]
}

/// Part 2 of the default whitelist.
pub open spec fn default_whitelist_2() -> Seq<Seq<char>> {
    seq!["brucege.com"@, "byteacctimg.com"@, "cloudfront.net"@, "codebuddy.cn"@, "corretto.aws"@, "ctobsnssdk.com"@, "getcomposer.org"@, "gitee.com"@]
}

/// Part 3 of the default whitelist.
pub open spec fn default_whitelist_3() -> Seq<Seq<char>> {
    seq!["github.com"@, "github.io"@, "githubcopilot.com"@, "githubusercontent.com"@, "golang.org"@, "google.cn"@, "google.com"@, "googleapis.com"@]
}

/// Part 4 of the default whitelist.
pub open spec fn default_whitelist_4() -> Seq<Seq<char>> {
    seq!["googletagmanager.co"@, "goproxy.cn"@, "gradle.org"@, "ibb.co"@, "jboss.org"@, "laravel-idea.com"@, "lierda.com"@, "marscode.cn"@]
}

/// Part 5 of the default whitelist.
pub open spec fn default_whitelist_5() -> Seq<Seq<char>> {
    seq!["marscode.com"@, "maven.org"@, "mixpanel.com"@, "mvnrepository.com"@, "myqcloud.com"@, "pypi.org"@, "python.org"@, "qcloudimg.com"@]
}

/// Part 6 of the default whitelist.
pub open spec fn default_whitelist_6() -> Seq<Seq<char>> {
    seq!["qoder.com"@, "qoder.com.cn"@, "qodo.ai"@, "rumt-zh.com"@, "schemastore.org"@, "senthink.com"@, "sinfere.com"@, "spring.io"@]
}

/// Part 7 of the default whitelist.
pub open spec fn default_whitelist_7() -> Seq<Seq<char>> {
    seq!["tencent-cloud.com"@, "tencent.com"@, "trae.com.cn"@, "zijieapi.com"@, "api.app.prod.grazie.aws.intellij.net"@, "api.jetbrains.ai"@, "cache-redirector.jetbrains.com"@, "cloudconfig.jetbrains.com"@]
}

/// Part 8 of the default whitelist.
pub open spec fn default_whitelist_8() -> Seq<Seq<char>> {
    seq!["code-with-me.jetbrains.com"@, "code-with-me.jetbrains.com.cn"@, "download-alibaba.jetbrains.com.cn"@, "download-cdn.clf.jetbrains.com.cn"@, "download-cdn.jetbrains.com"@, "download-cdn.jetbrains.com.cn"@, "download.clf.jetbrains.com.cn"@, "download.jetbrains.com"@]
}

/// Part 9 of the default whitelist.
pub open spec fn default_whitelist_9() -> Seq<Seq<char>> {
    seq!["downloads.marketplace.jetbrains.com"@, "eks.jetbrains.com.cn"@, "frameworks.jetbrains.com"@, "marketplace.jetbrains.com"@, "marketplace.jetbrains.com.cn"@, "oauth.account.jetbrains.com"@, "plugins.jetbrains.com"@, "redirector.jetbrains.com.cn"@]
}

/// Part 10 of the default whitelist.
pub open spec fn default_whitelist_10() -> Seq<Seq<char>> {
    seq!["resources.jetbrains.com"@, "resources.jetbrains.com.cn"@, "vulnerability-search.jetbrains.com"@, "www.jetbrains.com"@]
}

/// The log level used when a saved configuration names none.
pub fn default_log_level() -> (res: String)
    ensures
        res@ == "info"@,
{
    owned("info")
}

/// The log retention used when a saved configuration names none.
pub fn default_log_retention_days() -> (res: u32)
    ensures
        res == 30,
{
    30
}

/// The trend retention used when a saved configuration names none.
pub fn default_trend_retention_days() -> (res: u32)
    ensures
        res == 21,
{
    21
}

/// The authentication of an SSH server when a saved configuration names none.
pub fn default_ssh_auth() -> (res: String)
    ensures
        res@ == "agent"@,
{
    owned("agent")
}

/// Appends part 1 of the default whitelist.
fn push_default_whitelist_1(v: &mut Vec<String>)
    ensures
        strs(final(v)@) == strs(old(v)@) + default_whitelist_1(),
{
    let ghost start = strs(v@);
    push_string(v, owned("agentclientprotocol.com"));
    push_string(v, owned("alicdn.com"));
    push_string(v, owned("aliyun.com"));
    push_string(v, owned("aliyuncs.com"));
    push_string(v, owned("apache.org"));
    push_string(v, owned("apipost.net"));
    push_string(v, owned("bcebos.com"));
    push_string(v, owned("bdstatic.com"));
    assert(strs(v@) =~= start + default_whitelist_1());
}

/// Appends part 2 of the default whitelist.
fn push_default_whitelist_2(v: &mut Vec<String>)
    ensures
        strs(final(v)@) == strs(old(v)@) + default_whitelist_2(),
{
    let ghost start = strs(v@);
    push_string(v, owned("brucege.com"));
    push_string(v, owned("byteacctimg.com"));
    push_string(v, owned("cloudfront.net"));
    push_string(v, owned("codebuddy.cn"));
    push_string(v, owned("corretto.aws"));
    push_string(v, owned("ctobsnssdk.com"));
    push_string(v, owned("getcomposer.org"));
    push_string(v, owned("gitee.com"));
    assert(strs(v@) =~= start + default_whitelist_2());
}

/// Appends part 3 of the default whitelist.
fn push_default_whitelist_3(v: &mut Vec<String>)
    ensures
        strs(final(v)@) == strs(old(v)@) + default_whitelist_3(),
{
    let ghost start = strs(v@);
    push_string(v, owned("github.com"));
    push_string(v, owned("github.io"));
    push_string(v, owned("githubcopilot.com"));
    push_string(v, owned("githubusercontent.com"));
    push_string(v, owned("golang.org"));
    push_string(v, owned("google.cn"));
    push_string(v, owned("google.com"));
    push_string(v, owned("googleapis.com"));
    assert(strs(v@) =~= start + default_whitelist_3());
}

/// Appends part 4 of the default whitelist.
fn push_default_whitelist_4(v: &mut Vec<String>)
    ensures
        strs(final(v)@) == strs(old(v)@) + default_whitelist_4(),
{
    let ghost start = strs(v@);
    push_string(v, owned("googletagmanager.co"));
    push_string(v, owned("goproxy.cn"));
    push_string(v, owned("gradle.org"));
    push_string(v, owned("ibb.co"));
    push_string(v, owned("jboss.org"));
    push_string(v, owned("laravel-idea.com"));
    push_string(v, owned("lierda.com"));
    push_string(v, owned("marscode.cn"));
    assert(strs(v@) =~= start + default_whitelist_4());
}

/// Appends part 5 of the default whitelist.
fn push_default_whitelist_5(v: &mut Vec<String>)
    ensures
        strs(final(v)@) == strs(old(v)@) + default_whitelist_5(),
{
    let ghost start = strs(v@);
    push_string(v, owned("marscode.com"));
    push_string(v, owned("maven.org"));
    push_string(v, owned("mixpanel.com"));
    push_string(v, owned("mvnrepository.com"));
    push_string(v, owned("myqcloud.com"));
    push_string(v, owned("pypi.org"));
    push_string(v, owned("python.org"));
    push_string(v, owned("qcloudimg.com"));
    assert(strs(v@) =~= start + default_whitelist_5());
}

/// Appends part 6 of the default whitelist.
fn push_default_whitelist_6(v: &mut Vec<String>)
    ensures
        strs(final(v)@) == strs(old(v)@) + default_whitelist_6(),
{
    let ghost start = strs(v@);
    push_string(v, owned("qoder.com"));
    push_string(v, owned("qoder.com.cn"));
    push_string(v, owned("qodo.ai"));
    push_string(v, owned("rumt-zh.com"));
    push_string(v, owned("schemastore.org"));
    push_string(v, owned("senthink.com"));
    push_string(v, owned("sinfere.com"));
    push_string(v, owned("spring.io"));
    assert(strs(v@) =~= start + default_whitelist_6());
}

/// Appends part 7 of the default whitelist.
fn push_default_whitelist_7(v: &mut Vec<String>)
    ensures
        strs(final(v)@) == strs(old(v)@) + default_whitelist_7(),
{
    let ghost start = strs(v@);
    push_string(v, owned("tencent-cloud.com"));
    push_string(v, owned("tencent.com"));
    push_string(v, owned("trae.com.cn"));
    push_string(v, owned("zijieapi.com"));
    push_string(v, owned("api.app.prod.grazie.aws.intellij.net"));
    push_string(v, owned("api.jetbrains.ai"));
    push_string(v, owned("cache-redirector.jetbrains.com"));
    push_string(v, owned("cloudconfig.jetbrains.com"));
    assert(strs(v@) =~= start + default_whitelist_7());
}

/// Appends part 8 of the default whitelist.
fn push_default_whitelist_8(v: &mut Vec<String>)
    ensures
        strs(final(v)@) == strs(old(v)@) + default_whitelist_8(),
{
    let ghost start = strs(v@);
    push_string(v, owned("code-with-me.jetbrains.com"));
    push_string(v, owned("code-with-me.jetbrains.com.cn"));
    push_string(v, owned("download-alibaba.jetbrains.com.cn"));
    push_string(v, owned("download-cdn.clf.jetbrains.com.cn"));
    push_string(v, owned("download-cdn.jetbrains.com"));
    push_string(v, owned("download-cdn.jetbrains.com.cn"));
    push_string(v, owned("download.clf.jetbrains.com.cn"));
    push_string(v, owned("download.jetbrains.com"));
    assert(strs(v@) =~= start + default_whitelist_8());
}

/// Appends part 9 of the default whitelist.
fn push_default_whitelist_9(v: &mut Vec<String>)
    ensures
        strs(final(v)@) == strs(old(v)@) + default_whitelist_9(),
{
    let ghost start = strs(v@);
    push_string(v, owned("downloads.marketplace.jetbrains.com"));
    push_string(v, owned("eks.jetbrains.com.cn"));
    push_string(v, owned("frameworks.jetbrains.com"));
    push_string(v, owned("marketplace.jetbrains.com"));
    push_string(v, owned("marketplace.jetbrains.com.cn"));
    push_string(v, owned("oauth.account.jetbrains.com"));
    push_string(v, owned("plugins.jetbrains.com"));
    push_string(v, owned("redirector.jetbrains.com.cn"));
    assert(strs(v@) =~= start + default_whitelist_9());
}

/// Appends part 10 of the default whitelist.
fn push_default_whitelist_10(v: &mut Vec<String>)
    ensures
        strs(final(v)@) == strs(old(v)@) + default_whitelist_10(),
{
    let ghost start = strs(v@);
    push_string(v, owned("resources.jetbrains.com"));
    push_string(v, owned("resources.jetbrains.com.cn"));
    push_string(v, owned("vulnerability-search.jetbrains.com"));
    push_string(v, owned("www.jetbrains.com"));
    assert(strs(v@) =~= start + default_whitelist_10());
}

/// The default whitelist.
pub fn default_whitelist_strings() -> (res: Vec<String>)
    ensures
        strs(res@) == default_whitelist(),
{
    let mut v: Vec<String> = Vec::new();
    assert(strs(v@) =~= Seq::<Seq<char>>::empty());
    push_default_whitelist_1(&mut v);
    push_default_whitelist_2(&mut v);
    push_default_whitelist_3(&mut v);
    push_default_whitelist_4(&mut v);
    push_default_whitelist_5(&mut v);
    push_default_whitelist_6(&mut v);
    push_default_whitelist_7(&mut v);
    push_default_whitelist_8(&mut v);
    push_default_whitelist_9(&mut v);
    push_default_whitelist_10(&mut v);
    v
}

impl Config {
    /// The settings of a new installation.
    pub open spec fn is_default(&self) -> bool {
        &&& self.version == 2
        &&& self.access_mode@ == "whitelist"@
        &&& strs(self.whitelist@) == default_whitelist()
        &&& self.blacklist@.len() == 0
        &&& self.http_host@ == "127.0.0.1"@
        &&& self.http_port == 19876
        &&& self.socks_host@ == "127.0.0.1"@
        &&& self.socks_port == 16789
        &&& !self.auto_start
        &&& self.log_level@ == "info"@
        &&& self.log_retention_days == 30
        &&& self.trend_retention_days == 21
        &&& self.whitelist_added_at@.len() == 0
        &&& self.blacklist_added_at@.len() == 0
        &&& self.ssh_profiles@.len() == 0
        &&& self.active_ssh_profile is None
        &&& !self.icloud_sync_enabled
        &&& self.ssh_proxy_port is None
        &&& self.port_refresh_interval_seconds == 30
        &&& self.font_scale == 100
        &&& self.ssh_forwards@.len() == 0
        &&& self.ssh_forward_options@.len() == 0
    }
}

impl Default for Config {
    fn default() -> (res: Self)
        ensures
            res.is_default(),
    {
        Config {
            version: 2,
            access_mode: owned("whitelist"),
            whitelist: default_whitelist_strings(),
            blacklist: Vec::new(),
            http_host: owned("127.0.0.1"),
            http_port: 19876,
            socks_host: owned("127.0.0.1"),
            socks_port: 16789,
            auto_start: false,
            log_level: owned("info"),
            log_retention_days: 30,
            trend_retention_days: 21,
            whitelist_added_at: Vec::new(),
            blacklist_added_at: Vec::new(),
            ssh_profiles: Vec::new(),
            active_ssh_profile: None,
            icloud_sync_enabled: false,
            ssh_proxy_port: None,
            port_refresh_interval_seconds: 30,
            font_scale: 100,
            ssh_forwards: Vec::new(),
            ssh_forward_options: Vec::new(),
        }
    }
}


// ---------------------------------------------------------------------------
// Normal form of the rule lists
// ---------------------------------------------------------------------------

/// A rule as stored: trimmed, trailing dots removed, lower-cased.
pub open spec fn rule_key(rule: Seq<char>) -> Seq<char> {
    unicode_lowercase(trim_end_char(trim(rule), '.'))
}

/// The rule list in normal form: each rule's key, in order, without empty keys and
/// without a key that came earlier.
pub open spec fn normalized_rules(rules: Seq<Seq<char>>) -> Seq<Seq<char>>
    decreases rules.len(),
{
    if rules.len() == 0 {
        seq![]
    } else {
        let prev = normalized_rules(rules.drop_last());
        let k = rule_key(rules.last());
        if k.len() > 0 && !prev.contains(k) {
            prev.push(k)
        } else {
            prev
        }
    }
}

/// The plain values of rule timestamps.
pub open spec fn time_views(v: Seq<(String, u64)>) -> Seq<(Seq<char>, u64)> {
    v.map_values(|t: (String, u64)| (t.0@, t.1))
}

/// The timestamp belongs to one of the rules.
pub open spec fn time_of_rule(rules: Seq<Seq<char>>) -> spec_fn((Seq<char>, u64)) -> bool {
    |t: (Seq<char>, u64)| rules.contains(t.0)
}

/// The rule key of a string.
pub fn rule_key_string(rule: &str) -> (res: String)
    ensures
        res@ == rule_key(rule@),
{
    let a = trim_str(rule);
    let b = trim_end_char_chars(a.as_slice(), '.');
    let s = string_of(b.as_slice());
    to_lowercase(s.as_str())
}

/// Whether the list holds the string.
pub fn contains_string(v: &[String], x: &str) -> (res: bool)
    ensures
        res == strs(v@).contains(x@),
{
    let mut i: usize = 0;
    while i < v.len()
        invariant
            i <= v.len(),
            forall|j: int| 0 <= j < i ==> strs(v@)[j] != x@,
        decreases v.len() - i,
    {
        if crate::text::str_eq(v[i].as_str(), x) {
            assert(strs(v@)[i as int] == x@);
            return true;
        }
        i += 1;
    }
    false
}

/// Each rule has at most one timestamp: the timestamps map rules to times.
pub open spec fn one_time_per_rule(v: Seq<(Seq<char>, u64)>) -> bool {
    forall|i: int, j: int| 0 <= i < j < v.len() ==> (#[trigger] v[i]).0 != (#[trigger] v[j]).0
}

/// Dropping timestamps keeps at most one per rule, and keeps only timestamps that were there.
pub proof fn lemma_filter_times(v: Seq<(Seq<char>, u64)>, keep: spec_fn((Seq<char>, u64)) -> bool)
    ensures
        forall|k: int| 0 <= k < v.filter(keep).len() ==> v.contains(#[trigger] v.filter(keep)[k]),
        one_time_per_rule(v) ==> one_time_per_rule(v.filter(keep)),
    decreases v.len(),
{
    reveal(Seq::filter);
    if v.len() > 0 {
        let init = v.drop_last();
        lemma_filter_times(init, keep);
        let r = init.filter(keep);
        let f = v.filter(keep);
        assert forall|k: int| 0 <= k < r.len() implies v.contains(#[trigger] r[k]) by {
            assert(init.contains(r[k]));
            let m = choose|m: int| 0 <= m < init.len() && init[m] == r[k];
            assert(v[m] == init[m]);
        }
        if keep(v.last()) {
            assert(f == r.push(v.last()));
            assert forall|k: int| 0 <= k < f.len() implies v.contains(#[trigger] f[k]) by {
                if k < r.len() {
                    assert(f[k] == r[k]);
                } else {
                    assert(v[v.len() - 1] == f[k]);
                }
            }
            if one_time_per_rule(v) {
                assert forall|i: int| 0 <= i < init.len() implies (#[trigger] init[i]).0 != v.last().0 by {
                    assert(init[i] == v[i]);
                }
                assert forall|i: int, j: int| 0 <= i < j < init.len() implies (#[trigger] init[i]).0
                    != (#[trigger] init[j]).0 by {
                    assert(init[i] == v[i]);
                    assert(init[j] == v[j]);
                }
                assert forall|i: int, j: int| 0 <= i < j < f.len() implies (#[trigger] f[i]).0 != (
                #[trigger] f[j]).0 by {
                    assert(f[i] == r[i]);
                    if j < r.len() {
                        assert(f[j] == r[j]);
                    } else {
                        assert(init.contains(r[i]));
                    }
                }
            }
        } else {
            assert(f == r);
            if one_time_per_rule(v) {
                assert forall|i: int, j: int| 0 <= i < j < init.len() implies (#[trigger] init[i]).0
                    != (#[trigger] init[j]).0 by {
                    assert(init[i] == v[i]);
                    assert(init[j] == v[j]);
                }
            }
        }
    }
}

/// Brings a rule list into normal form and drops the timestamps of rules no longer listed.
pub fn normalize_rules(rules: &mut Vec<String>, added_at: &mut Vec<(String, u64)>)
    ensures
        strs(final(rules)@) == normalized_rules(strs(old(rules)@)),
        time_views(final(added_at)@) == time_views(old(added_at)@).filter(
            time_of_rule(normalized_rules(strs(old(rules)@))),
        ),
        one_time_per_rule(time_views(old(added_at)@)) ==> one_time_per_rule(
            time_views(final(added_at)@),
        ),
{
    proof {
        lemma_filter_times(
            time_views(added_at@),
            time_of_rule(normalized_rules(strs(rules@))),
        );
    }
    let ghost orig = strs(rules@);
    let mut out: Vec<String> = Vec::new();
    let mut i: usize = 0;
    assert(orig.take(0) == Seq::<Seq<char>>::empty());
    assert(strs(out@) == Seq::<Seq<char>>::empty());
    while i < rules.len()
        invariant
            i <= rules.len(),
            orig == strs(rules@),
            strs(out@) == normalized_rules(orig.take(i as int)),
        decreases rules.len() - i,
    {
        let k = rule_key_string(rules[i].as_str());
        assert(orig.take(i + 1).drop_last() == orig.take(i as int));
        assert(orig.take(i + 1).last() == rules@[i as int]@);
        if !k.as_str().is_empty() && !contains_string(out.as_slice(), k.as_str()) {
            push_string(&mut out, k);
        }
        i += 1;
    }
    assert(orig.take(rules.len() as int) == orig);
    *rules = out;
    let ghost nr = strs(rules@);
    let ghost tv = time_views(added_at@);
    let ghost keep = time_of_rule(nr);
    let count = added_at.len();
    let mut kept: Vec<(String, u64)> = Vec::new();
    let mut j: usize = 0;
    assert(tv.take(0).filter(keep) == Seq::<(Seq<char>, u64)>::empty()) by {
        reveal(Seq::filter);
    }
    assert(time_views(kept@) == Seq::<(Seq<char>, u64)>::empty());
    while added_at.len() > 0
        invariant
            j + added_at@.len() == count == tv.len(),
            time_views(added_at@) == tv.skip(j as int),
            time_views(kept@) == tv.take(j as int).filter(keep),
            nr == strs(rules@),
            keep == time_of_rule(nr),
        decreases added_at.len(),
    {
        let ghost old_view = time_views(added_at@);
        assert(old_view[0] == (added_at@[0].0@, added_at@[0].1));
        let t = added_at.remove(0);
        assert((t.0@, t.1) == tv[j as int]);
        assert(time_views(added_at@) =~= old_view.skip(1));
        assert(tv.skip(j as int).skip(1) =~= tv.skip(j + 1));
        let listed = contains_string(rules.as_slice(), t.0.as_str());
        assert(tv.take(j + 1).drop_last() == tv.take(j as int));
        assert(tv.take(j + 1).last() == (t.0@, t.1));
        proof {
            reveal(Seq::filter);
        }
        if listed {
            let ghost tt = (t.0@, t.1);
            let ghost prev = time_views(kept@);
            kept.push(t);
            assert(time_views(kept@) =~= prev.push(tt));
        }
        j += 1;
    }
    assert(tv.take(j as int) == tv);
    *added_at = kept;
}

/// A normalized rule list has no empty rule and no rule twice.
pub proof fn law_normalized_rules_distinct(rules: Seq<Seq<char>>)
    ensures
        forall|i: int| 0 <= i < normalized_rules(rules).len() ==> #[trigger] normalized_rules(rules)[i].len() > 0,
        forall|i: int, j: int|
            0 <= i < j < normalized_rules(rules).len() ==> normalized_rules(rules)[i] != normalized_rules(rules)[j],
    decreases rules.len(),
{
    if rules.len() > 0 {
        law_normalized_rules_distinct(rules.drop_last());
        let prev = normalized_rules(rules.drop_last());
        let k = rule_key(rules.last());
        if k.len() > 0 && !prev.contains(k) {
            assert forall|i: int, j: int|
                0 <= i < j < normalized_rules(rules).len() implies normalized_rules(rules)[i] != normalized_rules(rules)[j] by {
                if j == prev.len() {
                    assert(prev[i] == normalized_rules(rules)[i]);
                }
            }
        }
    }
}

/// A normalized rule list holds exactly the nonempty keys of the given rules.
pub proof fn law_normalized_rules_cover(rules: Seq<Seq<char>>, x: Seq<char>)
    ensures
        normalized_rules(rules).contains(x) <==> (x.len() > 0 && exists|i: int|
            0 <= i < rules.len() && rule_key(#[trigger] rules[i]) == x),
    decreases rules.len(),
{
    if rules.len() > 0 {
        let init = rules.drop_last();
        law_normalized_rules_cover(init, x);
        let prev = normalized_rules(init);
        let k = rule_key(rules.last());
        if normalized_rules(rules).contains(x) {
            if prev.contains(x) {
                let i = choose|i: int| 0 <= i < init.len() && rule_key(#[trigger] init[i]) == x;
                assert(rules[i] == init[i]);
            } else {
                let n = normalized_rules(rules);
                let p = choose|p: int| 0 <= p < n.len() && n[p] == x;
                assert(rules[rules.len() - 1] == rules.last());
            }
        }
        if x.len() > 0 && exists|i: int| 0 <= i < rules.len() && rule_key(#[trigger] rules[i]) == x {
            let i = choose|i: int| 0 <= i < rules.len() && rule_key(#[trigger] rules[i]) == x;
            if i < rules.len() - 1 {
                assert(init[i] == rules[i]);
                assert(prev.contains(x));
                if normalized_rules(rules) != prev {
                    assert(normalized_rules(rules) == prev.push(k));
                    let p = choose|p: int| 0 <= p < prev.len() && prev[p] == x;
                    assert(prev.push(k)[p] == x);
                }
            } else {
                if !prev.contains(x) {
                    assert(normalized_rules(rules) == prev.push(k));
                    assert(prev.push(k)[prev.len() as int] == x);
                } else {
                    let p = choose|p: int| 0 <= p < prev.len() && prev[p] == x;
                    if normalized_rules(rules) != prev {
                        assert(prev.push(k)[p] == x);
                    }
                }
            }
        }
    }
}

// ---------------------------------------------------------------------------
// Checks
// ---------------------------------------------------------------------------

/// The host part of a rule: without a leading `"*."`, else without a leading `'.'`.
pub open spec fn rule_host(rule: Seq<char>) -> Seq<char> {
    if starts_with(rule, seq!['*', '.']) {
        rule.skip(2)
    } else if starts_with(rule, seq!['.']) {
        rule.skip(1)
    } else {
        rule
    }
}

/// A domain name by shape: at most 253 characters, every dot-separated label valid.
pub open spec fn domain_shape(h: Seq<char>) -> bool {
    h.len() <= 253 && forall|i: int|
        0 <= i < split_char(h, '.').len() ==> valid_label(#[trigger] split_char(h, '.')[i])
}

/// A rule is an IP address, a domain, or a domain behind `"*."` or `'.'`.
pub open spec fn rule_valid(rule: Seq<char>) -> bool {
    ip_parse(rule_host(rule)) is Some || domain_shape(rule_host(rule))
}

/// The rule is invalid.
pub open spec fn rule_invalid() -> spec_fn(Seq<char>) -> bool {
    |r: Seq<char>| !rule_valid(r)
}

/// A listen address: an IP address and a nonzero port.
pub open spec fn listen_ok(host: Seq<char>, port: u16) -> bool {
    ip_parse(host) is Some && port != 0
}

/// `validate`: the first check a configuration fails, in the order the settings screen
/// lists them, or `Ok`.
pub open spec fn validate_spec(c: &Config) -> Result<(), Seq<char>> {
    let rules = strs(c.whitelist@) + strs(c.blacklist@);
    let bad = crate::text::first_where(rules, rule_invalid());
    if !(c.access_mode@ == "whitelist"@ || c.access_mode@ == "blacklist"@) {
        Err("访问模式无效"@)
    } else if !(c.log_level@ == "error"@ || c.log_level@ == "warn"@ || c.log_level@ == "info"@
        || c.log_level@ == "debug"@) {
        Err("日志级别无效"@)
    } else if !(1 <= c.log_retention_days <= 3650) {
        Err("日志保留天数应为 1–3650"@)
    } else if !(1 <= c.trend_retention_days <= 21) {
        Err("趋势历史保留天数应为 1–21"@)
    } else if !(1 <= c.port_refresh_interval_seconds <= 86400) {
        Err("监听端口刷新间隔应为 1–86400 秒"@)
    } else if !(c.font_scale == 90 || c.font_scale == 100 || c.font_scale == 110 || c.font_scale
        == 125) {
        Err("文字大小仅支持 90%、100%、110% 或 125%"@)
    } else if !listen_ok(c.http_host@, c.http_port) || !listen_ok(c.socks_host@, c.socks_port) {
        Err("监听地址必须为 IP，端口应为 1–65535"@)
    } else if c.http_host@ == c.socks_host@ && c.http_port == c.socks_port {
        Err("HTTP 与 SOCKS5 不能使用相同监听地址和端口"@)
    } else if bad >= 0 {
        Err("无效规则："@ + rules[bad] + "。请输入域名、IP 或 *.example.com"@)
    } else {
        Ok(())
    }
}

/// Whether the string is one of the given literals' texts.
fn str_is(s: &str, lit: &str) -> (res: bool)
    ensures
        res == (s@ == lit@),
{
    crate::text::str_eq(s, lit)
}

/// Whether a rule is valid.
pub fn rule_valid_exec(rule: &str) -> (res: bool)
    ensures
        res == rule_valid(rule@),
{
    let r = chars_of(rule);
    let star: Vec<char> = vec!['*', '.'];
    let dot: Vec<char> = vec!['.'];
    assert(star@ == seq!['*', '.']);
    assert(dot@ == seq!['.']);
    let h = if starts_with_chars(r.as_slice(), star.as_slice()) {
        slice_of(r.as_slice(), 2, r.len())
    } else if starts_with_chars(r.as_slice(), dot.as_slice()) {
        slice_of(r.as_slice(), 1, r.len())
    } else {
        slice_of(r.as_slice(), 0, r.len())
    };
    assert(h@ == rule_host(rule@));
    if parse_ip_chars(h.as_slice()).is_some() {
        return true;
    }
    h.len() <= 253 && labels_ok(h.as_slice())
}

/// Index of the first invalid rule of the whitelist followed by the blacklist.
fn first_invalid_rule(c: &Config) -> (res: Option<(usize, bool)>)
    ensures
        match res {
            Some((i, black)) => {
                let rules = strs(c.whitelist@) + strs(c.blacklist@);
                &&& crate::text::first_where(rules, rule_invalid()) == (if black {
                    c.whitelist@.len() + i
                } else {
                    i as int
                })
                &&& (black ==> i < c.blacklist@.len())
                &&& (!black ==> i < c.whitelist@.len())
            },
            None => crate::text::first_where(strs(c.whitelist@) + strs(c.blacklist@), rule_invalid()) == -1,
        },
{
    let ghost rules = strs(c.whitelist@) + strs(c.blacklist@);
    let ghost w = c.whitelist@.len();
    let mut i: usize = 0;
    while i < c.whitelist.len()
        invariant
            i <= c.whitelist.len(),
            rules == strs(c.whitelist@) + strs(c.blacklist@),
            forall|j: int| 0 <= j < i ==> !(rule_invalid())(#[trigger] rules[j]),
        decreases c.whitelist.len() - i,
    {
        assert(rules[i as int] == c.whitelist@[i as int]@);
        if !rule_valid_exec(c.whitelist[i].as_str()) {
            proof {
                crate::text::lemma_first_where_at(rules, rule_invalid(), i as int);
            }
            return Some((i, false));
        }
        i += 1;
    }
    let mut k: usize = 0;
    while k < c.blacklist.len()
        invariant
            k <= c.blacklist.len(),
            rules == strs(c.whitelist@) + strs(c.blacklist@),
            forall|j: int| 0 <= j < c.whitelist@.len() + k ==> !(rule_invalid())(#[trigger] rules[j]),
        decreases c.blacklist.len() - k,
    {
        assert(rules[c.whitelist@.len() + k] == c.blacklist@[k as int]@);
        if !rule_valid_exec(c.blacklist[k].as_str()) {
            proof {
                crate::text::lemma_first_where_at(rules, rule_invalid(), c.whitelist@.len() + k);
            }
            return Some((k, true));
        }
        k += 1;
    }
    proof {
        crate::text::lemma_first_where_at(rules, rule_invalid(), rules.len() as int);
    }
    None
}

/// Whether a listen address is an IP address with a nonzero port.
fn listen_ok_exec(host: &str, port: u16) -> (res: bool)
    ensures
        res == listen_ok(host@, port),
{
    let h = chars_of(host);
    parse_ip_chars(h.as_slice()).is_some() && port != 0
}

/// Checks a configuration before it is saved or the proxy starts.
pub fn validate(config: &Config) -> (res: Result<(), String>)
    ensures
        match res {
            Ok(()) => validate_spec(config) is Ok,
            Err(e) => validate_spec(config) == Err::<(), Seq<char>>(e@),
        },
{
    let m = config.access_mode.as_str();
    if !(str_is(m, "whitelist") || str_is(m, "blacklist")) {
        return Err(owned("访问模式无效"));
    }
    let l = config.log_level.as_str();
    if !(str_is(l, "error") || str_is(l, "warn") || str_is(l, "info") || str_is(l, "debug")) {
        return Err(owned("日志级别无效"));
    }
    if !(1 <= config.log_retention_days && config.log_retention_days <= 3650) {
        return Err(owned("日志保留天数应为 1–3650"));
    }
    if !(1 <= config.trend_retention_days && config.trend_retention_days <= 21) {
        return Err(owned("趋势历史保留天数应为 1–21"));
    }
    if !(1 <= config.port_refresh_interval_seconds && config.port_refresh_interval_seconds
        <= 86400) {
        return Err(owned("监听端口刷新间隔应为 1–86400 秒"));
    }
    let f = config.font_scale;
    if !(f == 90 || f == 100 || f == 110 || f == 125) {
        return Err(owned("文字大小仅支持 90%、100%、110% 或 125%"));
    }
    if !listen_ok_exec(config.http_host.as_str(), config.http_port) || !listen_ok_exec(
        config.socks_host.as_str(),
        config.socks_port,
    ) {
        return Err(owned("监听地址必须为 IP，端口应为 1–65535"));
    }
    if crate::text::str_eq(config.http_host.as_str(), config.socks_host.as_str())
        && config.http_port == config.socks_port {
        return Err(owned("HTTP 与 SOCKS5 不能使用相同监听地址和端口"));
    }
    match first_invalid_rule(config) {
        Some((i, black)) => {
            let rule = if black {
                &config.blacklist[i]
            } else {
                &config.whitelist[i]
            };
            let ghost rules = strs(config.whitelist@) + strs(config.blacklist@);
            assert(black ==> rules[config.whitelist@.len() + i] == rule@);
            assert(!black ==> rules[i as int] == rule@);
            let mut e = chars_of("无效规则：");
            crate::text::push_str(&mut e, rule.as_str());
            crate::text::push_str(&mut e, "。请输入域名、IP 或 *.example.com");
            Err(string_of(e.as_slice()))
        },
        None => Ok(()),
    }
}

/// A configuration as read from disk: both rule lists in normal form, and a configuration
/// from before version 2 moved to version 2 with automatic start switched on.
pub fn normalize_loaded(config: Config) -> (res: Config)
    ensures
        strs(res.whitelist@) == normalized_rules(strs(config.whitelist@)),
        strs(res.blacklist@) == normalized_rules(strs(config.blacklist@)),
        time_views(res.whitelist_added_at@) == time_views(config.whitelist_added_at@).filter(
            time_of_rule(normalized_rules(strs(config.whitelist@))),
        ),
        time_views(res.blacklist_added_at@) == time_views(config.blacklist_added_at@).filter(
            time_of_rule(normalized_rules(strs(config.blacklist@))),
        ),
        res.version == (if config.version < 2 {
            2
        } else {
            config.version
        }),
        res.auto_start == (config.auto_start || config.version < 2),
        res.access_mode == config.access_mode,
        res.http_host == config.http_host,
        res.http_port == config.http_port,
        res.socks_host == config.socks_host,
        res.socks_port == config.socks_port,
        res.log_level == config.log_level,
        res.log_retention_days == config.log_retention_days,
        res.trend_retention_days == config.trend_retention_days,
        res.ssh_profiles == config.ssh_profiles,
        res.active_ssh_profile == config.active_ssh_profile,
        res.icloud_sync_enabled == config.icloud_sync_enabled,
        res.ssh_proxy_port == config.ssh_proxy_port,
        res.port_refresh_interval_seconds == config.port_refresh_interval_seconds,
        res.font_scale == config.font_scale,
        res.ssh_forwards == config.ssh_forwards,
        res.ssh_forward_options == config.ssh_forward_options,
        one_time_per_rule(time_views(config.whitelist_added_at@)) ==> one_time_per_rule(
            time_views(res.whitelist_added_at@),
        ),
        one_time_per_rule(time_views(config.blacklist_added_at@)) ==> one_time_per_rule(
            time_views(res.blacklist_added_at@),
        ),
{
    let mut c = config;
    normalize_rules(&mut c.whitelist, &mut c.whitelist_added_at);
    normalize_rules(&mut c.blacklist, &mut c.blacklist_added_at);
    if c.version < 2 {
        c.version = 2;
        c.auto_start = true;
    }
    c
}

/// The listen addresses differ between two configurations.
pub open spec fn listen_changed(prev: &Config, next: &Config) -> bool {
    prev.http_host@ != next.http_host@ || prev.http_port != next.http_port || prev.socks_host@
        != next.socks_host@ || prev.socks_port != next.socks_port
}

/// Whether a configuration may replace the current one: it must pass `validate`, and the
/// listen addresses may change only while the proxy is stopped.
pub fn check_save(prev: &Config, next: &Config, running: bool) -> (res: Result<(), String>)
    ensures
        match res {
            Ok(()) => validate_spec(next) is Ok && !(running && listen_changed(prev, next)),
            Err(e) => match validate_spec(next) {
                Err(v) => e@ == v,
                Ok(()) => running && listen_changed(prev, next) && e@ == "请先停止代理，再修改监听地址或端口"@,
            },
        },
{
    match validate(next) {
        Err(e) => return Err(e),
        Ok(()) => {},
    }
    let changed = !crate::text::str_eq(prev.http_host.as_str(), next.http_host.as_str())
        || prev.http_port != next.http_port || !crate::text::str_eq(
        prev.socks_host.as_str(),
        next.socks_host.as_str(),
    ) || prev.socks_port != next.socks_port;
    if running && changed {
        return Err(owned("请先停止代理，再修改监听地址或端口"));
    }
    Ok(())
}

/// A host a rule may name: an IP address, or a domain whose every dot-separated label is
/// valid, 253 characters at most.
pub open spec fn host_ok(h: Seq<char>) -> bool {
    ip_parse(h) is Some || (h.len() <= 253 && forall|i: int|
        0 <= i < split_char(h, '.').len() ==> valid_label(#[trigger] split_char(h, '.')[i]))
}

/// A rule is valid exactly when the host it names is: a rule written with a leading dot or
/// with `*.` is valid exactly when the rest is a valid host, and any other rule exactly
/// when it is one itself.
pub proof fn law_rule_forms(h: Seq<char>)
    ensures
        rule_valid(seq!['.'] + h) == host_ok(h),
        rule_valid(seq!['*', '.'] + h) == host_ok(h),
        !starts_with(h, seq!['.']) && !starts_with(h, seq!['*', '.']) ==> rule_valid(h) == host_ok(h),
{
    let a = seq!['.'] + h;
    let b = seq!['*', '.'] + h;
    assert(a.take(1) == seq!['.']);
    assert(a.skip(1) == h);
    assert(b.take(2) == seq!['*', '.']);
    assert(b.skip(2) == h);
    assert(!starts_with(a, seq!['*', '.'])) by {
        if starts_with(a, seq!['*', '.']) {
            assert(a.take(2)[0] == '*');
        }
    }
}

} // verus!
