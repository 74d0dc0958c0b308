//! SSH egress chains and SSH port forwards: checking their settings and building the
//! arguments of the `ssh` command that runs them.
//!
//! Starting and stopping the `ssh` processes happens outside the library.
use crate::config::{SshForwardRule, SshHop, SshProfile};
use crate::text::{
    chars_of, decimal, decimal_chars, join, join_chars, owned, push_all, push_str, push_view,
    str_eq, string_of, strs, trim, trim_str, views,
};
use vstd::prelude::*;
use vstd::utf8::encode_utf8;

verus! {

/// An SSH server as plain values.
pub struct HopView {
    pub host: Seq<char>,
    pub port: u16,
    pub username: Seq<char>,
    pub auth: Seq<char>,
    pub keychain_id: Option<Seq<char>>,
}

impl View for SshHop {
    type V = HopView;

    open spec fn view(&self) -> HopView {
        HopView {
            host: self.host@,
            port: self.port,
            username: self.username@,
            auth: self.auth@,
            keychain_id: match self.keychain_id {
                Some(k) => Some(k@),
                None => None,
            },
        }
    }
}

/// The plain values of a chain's servers.
pub open spec fn hop_views(v: Seq<SshHop>) -> Seq<HopView> {
    v.map_values(|h: SshHop| h@)
}

/// `user@host:port`, as `ssh -J` takes a jump server.
pub open spec fn hop_text(h: HopView) -> Seq<char> {
    h.username + "@"@ + h.host + ":"@ + decimal(h.port as nat)
}

/// A server as `ssh -J` takes it.
pub fn format_hop(hop: &SshHop) -> (res: String)
    ensures
        res@ == hop_text(hop@),
{
    let mut t = chars_of(hop.username.as_str());
    push_str(&mut t, "@");
    push_str(&mut t, hop.host.as_str());
    push_str(&mut t, ":");
    let d = decimal_chars(hop.port as u64);
    push_all(&mut t, d.as_slice());
    string_of(t.as_slice())
}

/// What is wrong with a server: an empty host or user name (once trimmed), port 0, or an
/// authentication other than `agent`, `keychain` and `password`.
pub open spec fn hop_error(h: HopView) -> Option<Seq<char>> {
    if trim(h.host).len() == 0 || trim(h.username).len() == 0 || h.port == 0 {
        Some("SSH 服务器地址、端口和用户名不能为空"@)
    } else if !(h.auth == "agent"@ || h.auth == "keychain"@ || h.auth == "password"@) {
        Some("不支持的 SSH 认证方式："@ + h.auth)
    } else {
        None
    }
}

/// A server with something wrong.
pub open spec fn bad_hop() -> spec_fn(HopView) -> bool {
    |h: HopView| hop_error(h) is Some
}

/// `validate_profile`: a named chain of at least one server, each without error; else the
/// error of the first faulty server.
pub open spec fn profile_check(name: Seq<char>, hops: Seq<HopView>) -> Result<(), Seq<char>> {
    if trim(name).len() == 0 || hops.len() == 0 {
        Err("SSH 配置名称和服务器不能为空"@)
    } else {
        let i = crate::text::first_where(hops, bad_hop());
        if i < 0 {
            Ok(())
        } else {
            Err(hop_error(hops[i])->Some_0)
        }
    }
}

fn hop_error_exec(hop: &SshHop) -> (res: Option<String>)
    ensures
        match res {
            Some(e) => hop_error(hop@) == Some(e@),
            None => hop_error(hop@) is None,
        },
{
    if trim_str(hop.host.as_str()).len() == 0 || trim_str(hop.username.as_str()).len() == 0
        || hop.port == 0 {
        return Some(owned("SSH 服务器地址、端口和用户名不能为空"));
    }
    let a = hop.auth.as_str();
    if !(str_eq(a, "agent") || str_eq(a, "keychain") || str_eq(a, "password")) {
        let mut e = chars_of("不支持的 SSH 认证方式：");
        push_str(&mut e, a);
        return Some(string_of(e.as_slice()));
    }
    None
}

/// Checks an SSH chain.
pub fn validate_profile(profile: &SshProfile) -> (res: Result<(), String>)
    ensures
        match res {
            Ok(()) => profile_check(profile.name@, hop_views(profile.hops@)) is Ok,
            Err(e) => profile_check(profile.name@, hop_views(profile.hops@)) == Err::<
                (),
                Seq<char>,
            >(e@),
        },
{
    if trim_str(profile.name.as_str()).len() == 0 || profile.hops.len() == 0 {
        return Err(owned("SSH 配置名称和服务器不能为空"));
    }
    let ghost hv = hop_views(profile.hops@);
    let mut i: usize = 0;
    while i < profile.hops.len()
        invariant
            i <= profile.hops.len(),
            hv == hop_views(profile.hops@),
            trim(profile.name@).len() > 0,
            profile.hops@.len() > 0,
            forall|j: int| 0 <= j < i ==> !(bad_hop())(#[trigger] hv[j]),
        decreases profile.hops.len() - i,
    {
        assert(hv[i as int] == profile.hops@[i as int]@);
        match hop_error_exec(&profile.hops[i]) {
            Some(e) => {
                proof {
                    crate::text::lemma_first_where_at(hv, bad_hop(), i as int);
                }
                return Err(e);
            },
            None => {},
        }
        i += 1;
    }
    proof {
        crate::text::lemma_first_where_at(hv, bad_hop(), hv.len() as int);
    }
    Ok(())
}

/// The sum of the bytes of a text's UTF-8 form.
pub open spec fn byte_sum(b: Seq<u8>) -> nat
    decreases b.len(),
{
    if b.len() == 0 {
        0
    } else {
        byte_sum(b.drop_last()) + b.last() as nat
    }
}

/// The local SOCKS port of a chain: 21000 plus the byte sum of its identifier modulo 1000.
pub open spec fn local_port_spec(id: Seq<char>) -> u16 {
    (21000 + byte_sum(encode_utf8(id)) % 1000) as u16
}

/// The local SOCKS port of a chain. The byte sum must fit in a `u16`, as the sum is taken
/// in that type.
pub fn local_port_for(id: &str) -> (res: u16)
    requires
        byte_sum(encode_utf8(id@)) <= 0xffff,
    ensures
        res == local_port_spec(id@),
        21000 <= res < 22000,
{
    let b = id.as_bytes();
    assert(b@ == encode_utf8(id@));
    let mut sum: u16 = 0;
    let mut i: usize = 0;
    while i < b.len()
        invariant
            i <= b.len(),
            b@ == encode_utf8(id@),
            byte_sum(b@) <= 0xffff,
            sum == byte_sum(b@.take(i as int)),
        decreases b.len() - i,
    {
        assert(b@.take(i + 1).drop_last() == b@.take(i as int));
        proof {
            lemma_byte_sum_prefix(b@, i + 1);
        }
        sum = sum + b[i] as u16;
        i += 1;
    }
    assert(b@.take(b.len() as int) == b@);
    21000 + sum % 1000
}

/// A prefix's byte sum is at most the whole one.
pub proof fn lemma_byte_sum_prefix(b: Seq<u8>, k: int)
    requires
        0 <= k <= b.len(),
    ensures
        byte_sum(b.take(k)) <= byte_sum(b),
    decreases b.len() - k,
{
    if k < b.len() {
        lemma_byte_sum_prefix(b, k + 1);
        assert(b.take(k + 1).drop_last() == b.take(k));
    } else {
        assert(b.take(k) == b);
    }
}

/// The arguments of the `ssh` command of a chain: a SOCKS proxy on `127.0.0.1:port`, the
/// servers before the last as jump servers, the keychain key of the last one when it uses
/// one, then the last server and its port.
pub open spec fn ssh_args_spec(hops: Seq<HopView>, port: u16) -> Seq<Seq<char>> {
    let d = hops.last();
    seq![
        "-N"@,
        "-T"@,
        "-A"@,
        "-D"@,
        "127.0.0.1:"@ + decimal(port as nat),
        "-o"@,
        "ExitOnForwardFailure=yes"@,
        "-o"@,
        "ServerAliveInterval=30"@,
        "-o"@,
        "ServerAliveCountMax=3"@,
        "-o"@,
        "BatchMode=yes"@,
    ] + (if hops.len() > 1 {
        seq!["-J"@, join(hops.drop_last().map_values(|h: HopView| hop_text(h)), ","@)]
    } else {
        seq![]
    }) + (if d.auth == "keychain"@ && d.keychain_id is Some {
        seq!["-i"@, d.keychain_id->Some_0]
    } else {
        seq![]
    }) + seq![d.username + "@"@ + d.host, "-p"@, decimal(d.port as nat)]
}

/// What starting a chain amounts to: its local port and `ssh` arguments, or why it cannot
/// start (an invalid chain, or password authentication on the last server, which needs a
/// password prompt).
pub open spec fn ssh_command_spec(p: &SshProfile) -> Result<(u16, Seq<Seq<char>>), Seq<char>> {
    let hops = hop_views(p.hops@);
    match profile_check(p.name@, hops) {
        Err(e) => Err(e),
        Ok(()) => if hops.last().auth == "password"@ {
            Err("密码认证需要桌面密码输入流程，当前版本请使用 ssh-agent 或钥匙串私钥"@)
        } else {
            let port = local_port_spec(p.id@);
            Ok((port, ssh_args_spec(hops, port)))
        },
    }
}

fn push_lit(v: &mut Vec<String>, s: &str)
    ensures
        strs(final(v)@) == strs(old(v)@).push(s@),
{
    let ghost before = strs(v@);
    v.push(owned(s));
    assert(strs(v@) == before.push(s@));
}

fn push_owned(v: &mut Vec<String>, s: String)
    ensures
        strs(final(v)@) == strs(old(v)@).push(s@),
{
    let ghost before = strs(v@);
    let ghost sv = s@;
    v.push(s);
    assert(strs(v@) == before.push(sv));
}

/// The local port and `ssh` arguments of a chain.
pub fn ssh_command(profile: &SshProfile) -> (res: Result<(u16, Vec<String>), String>)
    requires
        byte_sum(encode_utf8(profile.id@)) <= 0xffff,
    ensures
        match res {
            Ok((port, args)) => ssh_command_spec(profile) == Ok::<
                (u16, Seq<Seq<char>>),
                Seq<char>,
            >((port, strs(args@))),
            Err(e) => ssh_command_spec(profile) == Err::<(u16, Seq<Seq<char>>), Seq<char>>(e@),
        },
{
    match validate_profile(profile) {
        Err(e) => {
            return Err(e);
        },
        Ok(()) => {},
    }
    let port = local_port_for(profile.id.as_str());
    let ghost hv = hop_views(profile.hops@);
    let n = profile.hops.len();
    let d = &profile.hops[n - 1];
    assert(hv.last() == d@);
    if str_eq(d.auth.as_str(), "password") {
        return Err(owned("密码认证需要桌面密码输入流程，当前版本请使用 ssh-agent 或钥匙串私钥"));
    }
    let mut args: Vec<String> = Vec::new();
    push_lit(&mut args, "-N");
    push_lit(&mut args, "-T");
    push_lit(&mut args, "-A");
    push_lit(&mut args, "-D");
    let mut local = chars_of("127.0.0.1:");
    push_all(&mut local, decimal_chars(port as u64).as_slice());
    push_owned(&mut args, string_of(local.as_slice()));
    push_lit(&mut args, "-o");
    push_lit(&mut args, "ExitOnForwardFailure=yes");
    push_lit(&mut args, "-o");
    push_lit(&mut args, "ServerAliveInterval=30");
    push_lit(&mut args, "-o");
    push_lit(&mut args, "ServerAliveCountMax=3");
    push_lit(&mut args, "-o");
    push_lit(&mut args, "BatchMode=yes");
    let ghost base = strs(args@);
    if n > 1 {
        let mut parts: Vec<Vec<char>> = Vec::new();
        let mut i: usize = 0;
        while i < n - 1
            invariant
                i <= n - 1,
                n == profile.hops.len(),
                hv == hop_views(profile.hops@),
                views(parts@) == hv.drop_last().take(i as int).map_values(
                    |h: HopView| hop_text(h),
                ),
            decreases n - 1 - i,
        {
            assert(hv.drop_last()[i as int] == profile.hops@[i as int]@);
            let t = format_hop(&profile.hops[i]);
            push_view(&mut parts, chars_of(t.as_str()));
            i += 1;
            assert(hv.drop_last().take(i as int) == hv.drop_last().take(i - 1).push(
                hv.drop_last()[i - 1],
            ));
        }
        assert(hv.drop_last().take((n - 1) as int) == hv.drop_last());
        let comma = chars_of(",");
        let jump = join_chars(&parts, comma.as_slice());
        push_lit(&mut args, "-J");
        push_owned(&mut args, string_of(jump.as_slice()));
    }
    let ghost mid = strs(args@);
    if str_eq(d.auth.as_str(), "keychain") {
        match &d.keychain_id {
            Some(key) => {
                push_lit(&mut args, "-i");
                push_owned(&mut args, owned(key.as_str()));
            },
            None => {},
        }
    }
    let mut dest = chars_of(d.username.as_str());
    push_str(&mut dest, "@");
    push_str(&mut dest, d.host.as_str());
    push_owned(&mut args, string_of(dest.as_slice()));
    push_lit(&mut args, "-p");
    push_owned(&mut args, string_of(decimal_chars(d.port as u64).as_slice()));
    assert(strs(args@) == ssh_args_spec(hv, port));
    Ok((port, args))
}

// ---------------------------------------------------------------------------
// Port forwards
// ---------------------------------------------------------------------------

/// A forward is complete: a remote host and port, and an SSH server with user name and
/// port (texts trimmed).
pub open spec fn forward_complete(r: &SshForwardRule) -> bool {
    trim(r.remote_host@).len() > 0 && r.remote_port != 0 && trim(r.ssh_host@).len() > 0 && trim(
        r.ssh_username@,
    ).len() > 0 && r.ssh_port != 0
}

/// Checks that a forward is complete.
pub fn check_forward(rule: &SshForwardRule) -> (res: Result<(), String>)
    ensures
        match res {
            Ok(()) => forward_complete(rule),
            Err(e) => !forward_complete(rule) && e@ == "SSH 转发配置不完整"@,
        },
{
    if trim_str(rule.remote_host.as_str()).len() == 0 || rule.remote_port == 0 || trim_str(
        rule.ssh_host.as_str(),
    ).len() == 0 || trim_str(rule.ssh_username.as_str()).len() == 0 || rule.ssh_port == 0 {
        return Err(owned("SSH 转发配置不完整"));
    }
    Ok(())
}

/// The local port of a forward: the configured one, else the free port found in 28000 to
/// 29000; port 0, or none found, is refused.
pub fn forward_port(configured: Option<u16>, free: Option<u16>) -> (res: Result<u16, String>)
    ensures
        ({
            let p: u16 = match configured {
                Some(c) => c,
                None => match free {
                    Some(f) => f,
                    None => 0,
                },
            };
            match res {
                Ok(x) => p != 0 && x == p,
                Err(e) => p == 0 && e@ == "28000–29000 范围内没有可用本地端口"@,
            }
        }),
{
    let p: u16 = match configured {
        Some(c) => c,
        None => match free {
            Some(f) => f,
            None => 0,
        },
    };
    if p == 0 {
        return Err(owned("28000–29000 范围内没有可用本地端口"));
    }
    Ok(p)
}

/// The arguments of the `ssh` command of a forward on local port `port`: compression, the
/// forward `bind:port:remote:remote_port`, the keychain key when one is set (not blank),
/// then the server and its port.
pub open spec fn forward_args_spec(r: &SshForwardRule, port: u16) -> Seq<Seq<char>> {
    seq![
        "-N"@,
        "-T"@,
        "-C"@,
        "-o"@,
        "ServerAliveInterval=60"@,
        "-o"@,
        "ServerAliveCountMax=3"@,
        "-o"@,
        "ExitOnForwardFailure=yes"@,
        "-L"@,
        r.bind_host@ + ":"@ + decimal(port as nat) + ":"@ + r.remote_host@ + ":"@ + decimal(
            r.remote_port as nat,
        ),
    ] + (match r.ssh_keychain_id {
        Some(k) => if trim(k@).len() > 0 {
            seq!["-i"@, k@]
        } else {
            seq![]
        },
        None => seq![],
    }) + seq![r.ssh_username@ + "@"@ + r.ssh_host@, "-p"@, decimal(r.ssh_port as nat)]
}

/// The arguments of the `ssh` command of a forward.
pub fn forward_args(rule: &SshForwardRule, port: u16) -> (res: Vec<String>)
    ensures
        strs(res@) == forward_args_spec(rule, port),
{
    let mut args: Vec<String> = Vec::new();
    push_lit(&mut args, "-N");
    push_lit(&mut args, "-T");
    push_lit(&mut args, "-C");
    push_lit(&mut args, "-o");
    push_lit(&mut args, "ServerAliveInterval=60");
    push_lit(&mut args, "-o");
    push_lit(&mut args, "ServerAliveCountMax=3");
    push_lit(&mut args, "-o");
    push_lit(&mut args, "ExitOnForwardFailure=yes");
    push_lit(&mut args, "-L");
    let mut l = chars_of(rule.bind_host.as_str());
    push_str(&mut l, ":");
    push_all(&mut l, decimal_chars(port as u64).as_slice());
    push_str(&mut l, ":");
    push_str(&mut l, rule.remote_host.as_str());
    push_str(&mut l, ":");
    push_all(&mut l, decimal_chars(rule.remote_port as u64).as_slice());
    push_owned(&mut args, string_of(l.as_slice()));
    match &rule.ssh_keychain_id {
        Some(key) => {
            if trim_str(key.as_str()).len() > 0 {
                push_lit(&mut args, "-i");
                push_owned(&mut args, owned(key.as_str()));
            }
        },
        None => {},
    }
    let mut dest = chars_of(rule.ssh_username.as_str());
    push_str(&mut dest, "@");
    push_str(&mut dest, rule.ssh_host.as_str());
    push_owned(&mut args, string_of(dest.as_slice()));
    push_lit(&mut args, "-p");
    push_owned(&mut args, string_of(decimal_chars(rule.ssh_port as u64).as_slice()));
    args
}

/// Index of the first forward with identifier `id`.
pub fn find_forward(forwards: &[SshForwardRule], id: &str) -> (res: Result<usize, String>)
    ensures
        match res {
            Ok(i) => i < forwards@.len() && forwards@[i as int].id@ == id@ && forall|j: int|
                0 <= j < i ==> (#[trigger] forwards@[j]).id@ != id@,
            Err(e) => (forall|j: int| 0 <= j < forwards@.len() ==> (#[trigger] forwards@[j]).id@
                != id@) && e@ == "SSH 转发配置不存在"@,
        },
{
    let mut i: usize = 0;
    while i < forwards.len()
        invariant
            i <= forwards.len(),
            forall|j: int| 0 <= j < i ==> (#[trigger] forwards@[j]).id@ != id@,
        decreases forwards.len() - i,
    {
        if str_eq(forwards[i].id.as_str(), id) {
            return Ok(i);
        }
        i += 1;
    }
    Err(owned("SSH 转发配置不存在"))
}

/// Index of the first chain with identifier `id`, the active chain of a configuration.
pub fn find_profile(profiles: &[SshProfile], id: &str) -> (res: Option<usize>)
    ensures
        match res {
            Some(i) => i < profiles@.len() && profiles@[i as int].id@ == id@ && forall|j: int|
                0 <= j < i ==> (#[trigger] profiles@[j]).id@ != id@,
            None => forall|j: int| 0 <= j < profiles@.len() ==> (#[trigger] profiles@[j]).id@ != id@,
        },
{
    let mut i: usize = 0;
    while i < profiles.len()
        invariant
            i <= profiles.len(),
            forall|j: int| 0 <= j < i ==> (#[trigger] profiles@[j]).id@ != id@,
        decreases profiles.len() - i,
    {
        if str_eq(profiles[i].id.as_str(), id) {
            return Some(i);
        }
        i += 1;
    }
    None
}


/// The forward with its local port recorded.
pub open spec fn with_local_port(r: SshForwardRule, port: u16) -> SshForwardRule {
    SshForwardRule { local_port: Some(port), ..r }
}

/// Records the local port a started forward listens on, in the first forward with its
/// identifier; the others are left as they were, and nothing changes when none has it.
pub fn record_forward_port(forwards: &mut Vec<SshForwardRule>, id: &str, port: u16)
    ensures
        match find_forward_spec(old(forwards)@, id@) {
            Some(i) => final(forwards)@ == old(forwards)@.update(i, with_local_port(old(forwards)@[i], port)),
            None => final(forwards)@ == old(forwards)@,
        },
{
    match find_forward(forwards.as_slice(), id) {
        Ok(i) => {
            proof {
                crate::text::lemma_first_where_at(old(forwards)@, has_forward_id(id@), i as int);
            }
            let mut r = forwards.remove(i);
            r.local_port = Some(port);
            forwards.insert(i, r);
        },
        Err(_) => {
            proof {
                crate::text::lemma_first_where_at(forwards@, has_forward_id(id@), forwards@.len() as int);
            }
        },
    }
}

/// The forward has the identifier `id`.
pub open spec fn has_forward_id(id: Seq<char>) -> spec_fn(SshForwardRule) -> bool {
    |r: SshForwardRule| r.id@ == id
}

/// Index of the first forward with identifier `id`.
pub open spec fn find_forward_spec(forwards: Seq<SshForwardRule>, id: Seq<char>) -> Option<int> {
    let i = crate::text::first_where(forwards, has_forward_id(id));
    if i >= 0 {
        Some(i)
    } else {
        None
    }
}

/// The forward as started: its own SSH options followed by the options every forward uses.
pub fn forward_with_options(rule: SshForwardRule, options: &[String]) -> (res: SshForwardRule)
    ensures
        res == (SshForwardRule { ssh_options: res.ssh_options, ..rule }),
        strs(res.ssh_options@) == strs(rule.ssh_options@) + strs(options@),
{
    let mut r = rule;
    let ghost start = strs(r.ssh_options@);
    let mut i: usize = 0;
    while i < options.len()
        invariant
            i <= options.len(),
            r == (SshForwardRule { ssh_options: r.ssh_options, ..rule }),
            strs(r.ssh_options@) == strs(rule.ssh_options@) + strs(options@.take(i as int)),
        decreases options.len() - i,
    {
        let ghost before = strs(r.ssh_options@);
        r.ssh_options.push(owned(options[i].as_str()));
        assert(strs(r.ssh_options@) == before.push(options@[i as int]@));
        assert(strs(options@.take(i + 1)) == strs(options@.take(i as int)).push(options@[i as int]@));
        i += 1;
    }
    assert(options@.take(options.len() as int) == options@);
    r
}

/// Refusal of an empty keychain account or secret.
pub open spec fn msg_keychain_empty() -> Seq<char> {
    "钥匙串账号和凭据不能为空"@
}

/// A keychain entry needs an account that is not blank and a secret that is not empty.
pub fn check_keychain_input(account: &str, secret: &str) -> (res: Result<(), String>)
    ensures
        match res {
            Ok(()) => trim(account@).len() > 0 && secret@.len() > 0,
            Err(e) => (trim(account@).len() == 0 || secret@.len() == 0) && e@ == msg_keychain_empty(),
        },
{
    let a = trim_str(account);
    if a.len() == 0 || secret.unicode_len() == 0 {
        return Err(owned("钥匙串账号和凭据不能为空"));
    }
    Ok(())
}

/// The jump servers of a chain: with more than one server, the `ssh` arguments name them
/// after `-J` (the 14th argument, after the 13 fixed ones), and one more server at the end
/// of a chain adds the previous last server to that list, after a comma; a chain of two
/// names just the first one there.
pub proof fn law_jump_servers(hops: Seq<HopView>, h: HopView, port: u16)
    requires
        hops.len() >= 1,
    ensures
        ssh_args_spec(hops.push(h), port)[13] == "-J"@,
        ssh_args_spec(hops.push(h), port)[14] == if hops.len() == 1 {
            hop_text(hops[0])
        } else {
            ssh_args_spec(hops, port)[14] + ","@ + hop_text(hops.last())
        },
{
    let longer = hops.push(h);
    let f = |x: HopView| hop_text(x);
    assert(longer.drop_last() == hops);
    let texts = hops.drop_last().map_values(f);
    assert(hops.map_values(f) == texts.push(hop_text(hops.last())));
    crate::text::lemma_join_push(texts, hop_text(hops.last()), ","@);
    if hops.len() == 1 {
        assert(hops.map_values(f) == seq![hop_text(hops[0])]);
    }
}

/// The last server of a chain is where `ssh` connects: the arguments end with its user and
/// host, `-p` and its port, and begin with the local SOCKS address on the chain's port.
pub proof fn law_destination_last(hops: Seq<HopView>, port: u16)
    requires
        hops.len() >= 1,
    ensures
        ({
            let a = ssh_args_spec(hops, port);
            &&& a[4] == "127.0.0.1:"@ + decimal(port as nat)
            &&& a[a.len() - 3] == hops.last().username + "@"@ + hops.last().host
            &&& a[a.len() - 2] == "-p"@
            &&& a[a.len() - 1] == decimal(hops.last().port as nat)
        }),
{
}

} // verus!
