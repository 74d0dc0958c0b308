//! The decisions of the local HTTP and SOCKS5 proxy: where a request wants to go, whether
//! the access policy lets it through, what the client is answered, what is logged, and the
//! bytes exchanged with an SSH SOCKS exit.
//!
//! Sockets, threads and timers stay outside the library: they hand these functions the
//! bytes they read and send the bytes they get back.
use crate::calls::{from_utf8_lossy, utf8_lossy};
use crate::config::Config;
use crate::ip::{
    ipv4_text, ipv6_text, ipv4_text_chars, ipv6_text_chars, ipv6_parse, parse_ipv6_chars,
};
use crate::policy::{allowed, allowed_spec};
use crate::text::{
    chars_of, decimal, decimal_chars, eq_ignore_ascii_case, eq_ignore_ascii_case_chars, first_where,
    lines, lines_of, owned, parse_uint_result, push_all, rsplit_once, rsplit_once_chars, slice_of,
    split_once, split_once_chars, starts_with, starts_with_chars, str_eq, string_of, trim,
    trim_chars, uint_parse, views, words, words_of,
};
use vstd::prelude::*;

verus! {

// ---------------------------------------------------------------------------
// Log entries
// ---------------------------------------------------------------------------

/// One proxied or refused connection, as the log shows it.
#[derive(Clone, Debug)]
pub struct LogEntry {
    pub timestamp: u64,
    pub level: String,
    pub source: String,
    pub method: String,
    pub target: String,
    pub params: String,
    pub outcome: String,
}

/// A log entry as plain values.
pub struct LogView {
    pub timestamp: u64,
    pub level: Seq<char>,
    pub source: Seq<char>,
    pub method: Seq<char>,
    pub target: Seq<char>,
    pub params: Seq<char>,
    pub outcome: Seq<char>,
}

impl View for LogEntry {
    type V = LogView;

    open spec fn view(&self) -> LogView {
        LogView {
            timestamp: self.timestamp,
            level: self.level@,
            source: self.source@,
            method: self.method@,
            target: self.target@,
            params: self.params@,
            outcome: self.outcome@,
        }
    }
}

/// The plain values of a list of log entries.
pub open spec fn log_views(v: Seq<LogEntry>) -> Seq<LogView> {
    v.map_values(|e: LogEntry| e@)
}

/// Outcome of a request the policy let through.
pub open spec fn outcome_allowed() -> Seq<char> {
    "放行"@
}

/// Outcome of a request the policy refused.
pub open spec fn outcome_blocked() -> Seq<char> {
    "拦截"@
}

/// Severity order of log levels: `error` < `warn` < `info` < `debug`; an unknown level
/// counts as `info`.
pub open spec fn level_rank(level: Seq<char>) -> nat {
    if level == "error"@ {
        0
    } else if level == "warn"@ {
        1
    } else if level == "debug"@ {
        3
    } else {
        2
    }
}

fn rank_of(level: &str) -> (res: u8)
    ensures
        res == level_rank(level@),
{
    if str_eq(level, "error") {
        0
    } else if str_eq(level, "warn") {
        1
    } else if str_eq(level, "debug") {
        3
    } else {
        2
    }
}

/// An entry of level `level` is kept under the configured level `configured`.
pub fn level_allowed(configured: &str, level: &str) -> (res: bool)
    ensures
        res == (level_rank(level@) <= level_rank(configured@)),
{
    rank_of(level) <= rank_of(configured)
}

// ---------------------------------------------------------------------------
// Target addresses
// ---------------------------------------------------------------------------

/// Refusal of a `[` without its `]`.
pub open spec fn msg_bad_ipv6() -> Seq<char> {
    "无效 IPv6 地址"@
}

/// `AddrParseError` text for IPv6 notation that does not parse.
pub open spec fn msg_ipv6_syntax() -> Seq<char> {
    "invalid IPv6 address syntax"@
}

/// Refusal of a port that is zero or not introduced by `':'`.
pub open spec fn msg_bad_port() -> Seq<char> {
    "无效端口"@
}

/// Refusal of an empty host, a host with `':'`, or port zero.
pub open spec fn msg_bad_target() -> Seq<char> {
    "无效目标地址"@
}

/// A host without brackets and its port, when both are usable.
pub open spec fn plain_target(host: Seq<char>, port: nat) -> Result<(Seq<char>, u16), Seq<char>> {
    if host.len() == 0 || host.contains(':') || port == 0 {
        Err(msg_bad_target())
    } else {
        Ok((host, port as u16))
    }
}

/// The port after a bracketed IPv6 address: the default when nothing follows, else `':'`
/// and a port number.
pub open spec fn bracket_port(suffix: Seq<char>, default_port: u16) -> Result<nat, Seq<char>> {
    if suffix.len() == 0 {
        Ok(default_port as nat)
    } else if suffix[0] != ':' {
        Err(msg_bad_port())
    } else {
        uint_parse(suffix.skip(1), 65535)
    }
}

/// `target_address`: host and port of an authority (`host`, `host:port`, `[v6]` or
/// `[v6]:port`), the port defaulting to `default_port`; or the text of the refusal.
pub open spec fn target_spec(a: Seq<char>, default_port: u16) -> Result<(Seq<char>, u16), Seq<char>> {
    if a.len() > 0 && a[0] == '[' {
        match split_once(a.skip(1), ']') {
            None => Err(msg_bad_ipv6()),
            Some((host, suffix)) => if ipv6_parse(host) is None {
                Err(msg_ipv6_syntax())
            } else {
                match bracket_port(suffix, default_port) {
                    Err(e) => Err(e),
                    Ok(p) => if p == 0 {
                        Err(msg_bad_port())
                    } else {
                        Ok((host, p as u16))
                    },
                }
            },
        }
    } else {
        match rsplit_once(a, ':') {
            Some((host, p)) => match uint_parse(p, 65535) {
                Err(e) => Err(e),
                Ok(v) => plain_target(host, v),
            },
            None => plain_target(a, default_port as nat),
        }
    }
}

fn plain_target_exec(host: Vec<char>, port: u64) -> (res: Result<(String, u16), String>)
    requires
        port <= 65535,
    ensures
        match res {
            Ok((h, p)) => plain_target(host@, port as nat) == Ok::<(Seq<char>, u16), Seq<char>>(
                (h@, p),
            ),
            Err(e) => plain_target(host@, port as nat) == Err::<(Seq<char>, u16), Seq<char>>(e@),
        },
{
    if host.len() == 0 || crate::text::contains_char(host.as_slice(), ':') || port == 0 {
        return Err(owned("无效目标地址"));
    }
    Ok((string_of(host.as_slice()), port as u16))
}

fn target_address_chars(a: &[char], default_port: u16) -> (res: Result<(String, u16), String>)
    ensures
        match res {
            Ok((h, p)) => target_spec(a@, default_port) == Ok::<(Seq<char>, u16), Seq<char>>(
                (h@, p),
            ),
            Err(e) => target_spec(a@, default_port) == Err::<(Seq<char>, u16), Seq<char>>(e@),
        },
{
    if a.len() > 0 && a[0] == '[' {
        let rest = slice_of(a, 1, a.len());
        assert(rest@ == a@.skip(1));
        match split_once_chars(rest.as_slice(), ']') {
            None => Err(owned("无效 IPv6 地址")),
            Some((host, suffix)) => {
                if parse_ipv6_chars(host.as_slice()).is_none() {
                    return Err(owned("invalid IPv6 address syntax"));
                }
                let port: u64 = if suffix.len() == 0 {
                    default_port as u64
                } else if suffix[0] != ':' {
                    return Err(owned("无效端口"));
                } else {
                    let p = slice_of(suffix.as_slice(), 1, suffix.len());
                    assert(p@ == suffix@.skip(1));
                    match parse_uint_result(p.as_slice(), 65535) {
                        Ok(v) => v,
                        Err(e) => {
                            return Err(e);
                        },
                    }
                };
                assert(bracket_port(suffix@, default_port) == Ok::<nat, Seq<char>>(port as nat));
                if port == 0 {
                    return Err(owned("无效端口"));
                }
                Ok((string_of(host.as_slice()), port as u16))
            },
        }
    } else {
        match rsplit_once_chars(a, ':') {
            Some((host, p)) => match parse_uint_result(p.as_slice(), 65535) {
                Err(e) => Err(e),
                Ok(v) => plain_target_exec(host, v),
            },
            None => {
                let all = slice_of(a, 0, a.len());
                assert(all@ == a@);
                plain_target_exec(all, default_port as u64)
            },
        }
    }
}

/// Host and port of a request's authority, the port defaulting to `default_port`.
pub fn target_address(authority: &str, default_port: u16) -> (res: Result<(String, u16), String>)
    ensures
        match res {
            Ok((h, p)) => target_spec(authority@, default_port) == Ok::<(Seq<char>, u16), Seq<char>>(
                (h@, p),
            ),
            Err(e) => target_spec(authority@, default_port) == Err::<(Seq<char>, u16), Seq<char>>(
                e@,
            ),
        },
{
    let a = chars_of(authority);
    target_address_chars(a.as_slice(), default_port)
}

// ---------------------------------------------------------------------------
// HTTP requests
// ---------------------------------------------------------------------------

/// The start of a request line that asks for a tunnel.
pub open spec fn connect_prefix() -> Seq<char> {
    "CONNECT "@
}

/// The first line of a text, or nothing.
pub open spec fn first_line(q: Seq<char>) -> Seq<char> {
    if lines(q).len() > 0 {
        lines(q)[0]
    } else {
        seq![]
    }
}

/// A header line whose name, before the first `':'`, is `Host` in any ASCII case.
pub open spec fn is_host_line(l: Seq<char>) -> bool {
    match split_once(l, ':') {
        Some((name, _)) => eq_ignore_ascii_case(name, "host"@),
        None => false,
    }
}

/// `is_host_line` as a predicate.
pub open spec fn host_line() -> spec_fn(Seq<char>) -> bool {
    |l: Seq<char>| is_host_line(l)
}

/// The trimmed value of the first `Host` line among `ls`, or nothing.
pub open spec fn host_value(ls: Seq<Seq<char>>) -> Seq<char> {
    let i = first_where(ls, host_line());
    if i < 0 {
        seq![]
    } else {
        match split_once(ls[i], ':') {
            Some((_, v)) => trim(v),
            None => seq![],
        }
    }
}

/// The `i`-th word, or `d` when there are fewer words.
pub open spec fn word_or(ws: Seq<Seq<char>>, i: int, d: Seq<char>) -> Seq<char> {
    if 0 <= i < ws.len() {
        ws[i]
    } else {
        d
    }
}

/// Where a request wants to go: the second word of a `CONNECT` line, else the `Host` header.
pub open spec fn request_authority(q: Seq<char>) -> Seq<char> {
    let f = first_line(q);
    if starts_with(f, connect_prefix()) {
        word_or(words(f), 1, seq![])
    } else {
        host_value(lines(q))
    }
}

/// The query of a request target: what follows the first `'?'`, or nothing.
pub open spec fn query_of(t: Seq<char>) -> Seq<char> {
    match split_once(t, '?') {
        Some((_, p)) => p,
        None => seq![],
    }
}

/// What the proxy reads from the start of an HTTP request.
#[derive(Clone, Debug)]
pub struct HttpRequest {
    /// The request asks for a tunnel (`CONNECT`).
    pub connect: bool,
    pub host: String,
    pub port: u16,
    /// The first word of the request line, or `UNKNOWN`.
    pub method: String,
    /// The query of the request target.
    pub params: String,
}

/// An HTTP request as plain values.
pub struct RequestView {
    pub connect: bool,
    pub host: Seq<char>,
    pub port: u16,
    pub method: Seq<char>,
    pub params: Seq<char>,
}

impl View for HttpRequest {
    type V = RequestView;

    open spec fn view(&self) -> RequestView {
        RequestView {
            connect: self.connect,
            host: self.host@,
            port: self.port,
            method: self.method@,
            params: self.params@,
        }
    }
}

/// The request read from its text: the target comes from `request_authority` with port 443
/// for a tunnel and 80 otherwise; the method is the first word of the request line; the
/// parameters are the query of its second word (of the authority when there is none).
pub open spec fn http_request_spec(q: Seq<char>) -> Result<RequestView, Seq<char>> {
    let f = first_line(q);
    let connect = starts_with(f, connect_prefix());
    let h = request_authority(q);
    match target_spec(
        h,
        if connect {
            443u16
        } else {
            80u16
        },
    ) {
        Err(e) => Err(e),
        Ok((host, port)) => Ok(
            RequestView {
                connect,
                host,
                port,
                method: word_or(words(f), 0, "UNKNOWN"@),
                params: query_of(word_or(words(f), 1, h)),
            },
        ),
    }
}

fn copy_chars(v: &[char]) -> (res: Vec<char>)
    ensures
        res@ == v@,
{
    let r = slice_of(v, 0, v.len());
    assert(v@.subrange(0, v@.len() as int) == v@);
    r
}

fn host_value_chars(ls: &Vec<Vec<char>>) -> (res: Vec<char>)
    ensures
        res@ == host_value(views(ls@)),
{
    let ghost lv = views(ls@);
    let mut i: usize = 0;
    while i < ls.len()
        invariant
            i <= ls.len(),
            lv == views(ls@),
            forall|j: int| 0 <= j < i ==> !(host_line())(#[trigger] lv[j]),
        decreases ls.len() - i,
    {
        assert(lv[i as int] == ls@[i as int]@);
        match split_once_chars(ls[i].as_slice(), ':') {
            Some((name, value)) => {
                let host: Vec<char> = vec!['h', 'o', 's', 't'];
                assert(host@ == "host"@) by {
                    reveal_strlit("host");
                }
                if eq_ignore_ascii_case_chars(name.as_slice(), host.as_slice()) {
                    proof {
                        crate::text::lemma_first_where_at(lv, host_line(), i as int);
                    }
                    return trim_chars(value.as_slice());
                }
            },
            None => {},
        }
        i += 1;
    }
    proof {
        crate::text::lemma_first_where_at(lv, host_line(), lv.len() as int);
    }
    Vec::new()
}

/// Reads a request from the text of its first bytes.
pub fn http_request_from_text(text: &str) -> (res: Result<HttpRequest, String>)
    ensures
        match res {
            Ok(r) => http_request_spec(text@) == Ok::<RequestView, Seq<char>>(r@),
            Err(e) => http_request_spec(text@) == Err::<RequestView, Seq<char>>(e@),
        },
{
    let q = chars_of(text);
    let ls = lines_of(q.as_slice());
    let f: Vec<char> = if ls.len() > 0 {
        assert(views(ls@)[0] == ls@[0]@);
        copy_chars(ls[0].as_slice())
    } else {
        Vec::new()
    };
    assert(f@ == first_line(text@));
    let prefix = chars_of("CONNECT ");
    let connect = starts_with_chars(f.as_slice(), prefix.as_slice());
    let ws = words_of(f.as_slice());
    let h: Vec<char> = if connect {
        if ws.len() > 1 {
            assert(views(ws@)[1] == ws@[1]@);
            copy_chars(ws[1].as_slice())
        } else {
            Vec::new()
        }
    } else {
        host_value_chars(&ls)
    };
    assert(h@ == request_authority(text@));
    let default_port: u16 = if connect {
        443
    } else {
        80
    };
    let (host, port) = match target_address_chars(h.as_slice(), default_port) {
        Ok(t) => t,
        Err(e) => {
            return Err(e);
        },
    };
    let method = if ws.len() > 0 {
        assert(views(ws@)[0] == ws@[0]@);
        string_of(ws[0].as_slice())
    } else {
        owned("UNKNOWN")
    };
    let target = if ws.len() > 1 {
        assert(views(ws@)[1] == ws@[1]@);
        copy_chars(ws[1].as_slice())
    } else {
        copy_chars(h.as_slice())
    };
    assert(target@ == word_or(words(f@), 1, h@));
    let params = match split_once_chars(target.as_slice(), '?') {
        Some((_, p)) => string_of(p.as_slice()),
        None => String::new(),
    };
    Ok(HttpRequest { connect, host, port, method, params })
}

/// Reads a request from its first bytes, decoded as UTF-8 with invalid sequences replaced.
pub fn parse_http_request(data: &[u8]) -> (res: Result<HttpRequest, String>)
    ensures
        match res {
            Ok(r) => http_request_spec(utf8_lossy(data@)) == Ok::<RequestView, Seq<char>>(r@),
            Err(e) => http_request_spec(utf8_lossy(data@)) == Err::<RequestView, Seq<char>>(e@),
        },
        vstd::utf8::valid_utf8(data@) ==> match res {
            Ok(r) => http_request_spec(vstd::utf8::decode_utf8(data@)) == Ok::<RequestView, Seq<char>>(r@),
            Err(e) => http_request_spec(vstd::utf8::decode_utf8(data@)) == Err::<RequestView, Seq<char>>(e@),
        },
{
    let text = from_utf8_lossy(data);
    http_request_from_text(text.as_str())
}

// ---------------------------------------------------------------------------
// Policy decisions and what the client is answered
// ---------------------------------------------------------------------------

/// The rule list the access mode goes by: the blacklist in blacklist mode, else the
/// whitelist.
pub open spec fn mode_rules(c: &Config) -> Seq<Seq<char>> {
    if c.access_mode@ == crate::policy::blacklist_mode() {
        crate::text::strs(c.blacklist@)
    } else {
        crate::text::strs(c.whitelist@)
    }
}

/// The configuration lets a connection to `host` through.
pub open spec fn host_allowed(c: &Config, host: Seq<char>) -> bool {
    allowed_spec(c.access_mode@, mode_rules(c), host)
}

/// Whether the configuration lets a connection to `host` through.
pub fn request_allowed(cfg: &Config, host: &str) -> (res: bool)
    ensures
        res == host_allowed(cfg, host@),
{
    let black: Vec<char> = vec!['b', 'l', 'a', 'c', 'k', 'l', 'i', 's', 't'];
    assert(black@ == crate::policy::blacklist_mode());
    let m = chars_of(cfg.access_mode.as_str());
    if crate::text::chars_eq(m.as_slice(), black.as_slice()) {
        allowed(cfg.access_mode.as_str(), cfg.blacklist.as_slice(), host)
    } else {
        allowed(cfg.access_mode.as_str(), cfg.whitelist.as_slice(), host)
    }
}

/// The log entry of a decision: `info` and the allowed outcome when the request goes
/// through, `warn` and the blocked outcome when it is refused.
pub open spec fn entry_spec(
    timestamp: u64,
    allowed: bool,
    source: Seq<char>,
    method: Seq<char>,
    target: Seq<char>,
    params: Seq<char>,
) -> LogView {
    LogView {
        timestamp,
        level: if allowed {
            "info"@
        } else {
            "warn"@
        },
        source,
        method,
        target,
        params,
        outcome: if allowed {
            outcome_allowed()
        } else {
            outcome_blocked()
        },
    }
}

/// The log entry of a decision.
pub fn decision_entry(
    timestamp: u64,
    allowed: bool,
    source: String,
    method: String,
    target: String,
    params: String,
) -> (res: LogEntry)
    ensures
        res@ == entry_spec(timestamp, allowed, source@, method@, target@, params@),
{
    let level = if allowed {
        owned("info")
    } else {
        owned("warn")
    };
    let outcome = if allowed {
        owned("放行")
    } else {
        owned("拦截")
    };
    LogEntry { timestamp, level, source, method, target, params, outcome }
}

/// The answer to a refused HTTP request: a success that carries nothing, so the client
/// sees no error and no data.
pub open spec fn http_refusal_text(connect: bool) -> Seq<char> {
    if connect {
        "HTTP/1.1 200 Connection Established\r\nConnection: close\r\n\r\n"@
    } else {
        "HTTP/1.1 200 OK\r\nContent-Length: 0\r\nConnection: close\r\n\r\n"@
    }
}

/// The answer when the upstream connection fails.
pub open spec fn http_gateway_text() -> Seq<char> {
    "HTTP/1.1 502 Bad Gateway\r\nConnection: close\r\n\r\n"@
}

/// The answer that opens a tunnel.
pub open spec fn http_tunnel_text() -> Seq<char> {
    "HTTP/1.1 200 Connection Established\r\n\r\n"@
}

/// What to do with a request: log `entry`; when `forward`, connect upstream, else send
/// `reply` and close.
#[derive(Clone, Debug)]
pub struct Plan<R> {
    pub entry: LogEntry,
    pub forward: bool,
    pub reply: Option<R>,
}

/// The plan for an HTTP request: forwarded exactly when the policy allows its host; a
/// refused request is answered with `http_refusal_text` and never reaches upstream.
pub fn http_plan(cfg: &Config, req: &HttpRequest, source: String, timestamp: u64) -> (res: Plan<String>)
    ensures
        res.forward == host_allowed(cfg, req.host@),
        res.entry@ == entry_spec(
            timestamp,
            res.forward,
            source@,
            req.method@,
            req.host@,
            req.params@,
        ),
        res.forward ==> res.reply is None,
        !res.forward ==> (res.reply matches Some(r) && r@ == http_refusal_text(req.connect)),
{
    let forward = request_allowed(cfg, req.host.as_str());
    let method = string_of(chars_of(req.method.as_str()).as_slice());
    let target = string_of(chars_of(req.host.as_str()).as_slice());
    let params = string_of(chars_of(req.params.as_str()).as_slice());
    let entry = decision_entry(timestamp, forward, source, method, target, params);
    let reply = if forward {
        None
    } else if req.connect {
        Some(owned("HTTP/1.1 200 Connection Established\r\nConnection: close\r\n\r\n"))
    } else {
        Some(owned("HTTP/1.1 200 OK\r\nContent-Length: 0\r\nConnection: close\r\n\r\n"))
    };
    Plan { entry, forward, reply }
}

/// What the client is answered once the upstream connection is tried: `502` when it
/// failed; the tunnel answer for `CONNECT`; nothing for a plain request, whose bytes are
/// then sent upstream as read.
pub fn http_connected_reply(connect: bool, connected: bool) -> (res: Option<String>)
    ensures
        !connected ==> (res matches Some(r) && r@ == http_gateway_text()),
        connected && connect ==> (res matches Some(r) && r@ == http_tunnel_text()),
        connected && !connect ==> res is None,
{
    if !connected {
        Some(owned("HTTP/1.1 502 Bad Gateway\r\nConnection: close\r\n\r\n"))
    } else if connect {
        Some(owned("HTTP/1.1 200 Connection Established\r\n\r\n"))
    } else {
        None
    }
}

// ---------------------------------------------------------------------------
// SOCKS5 requests
// ---------------------------------------------------------------------------

/// How the address of a SOCKS5 request follows its four header bytes.
#[derive(Clone, Debug)]
pub enum SocksAddress {
    /// A fixed number of bytes: 4 for IPv4, 16 for IPv6.
    Fixed(usize),
    /// One length byte, then that many bytes of a domain name.
    Counted,
    /// Not a `CONNECT` request, or an unknown address type: the connection is dropped.
    Unsupported,
}

/// The address form a request header announces: only `CONNECT` (command 1) is served.
pub open spec fn socks_address_spec(cmd: u8, atyp: u8) -> SocksAddress {
    if cmd != 1 {
        SocksAddress::Unsupported
    } else if atyp == 1 {
        SocksAddress::Fixed(4)
    } else if atyp == 3 {
        SocksAddress::Counted
    } else if atyp == 4 {
        SocksAddress::Fixed(16)
    } else {
        SocksAddress::Unsupported
    }
}

/// The address form announced by the header `[version, command, reserved, type]`.
pub fn socks_address_form(header: &[u8]) -> (res: SocksAddress)
    requires
        header@.len() == 4,
    ensures
        res == socks_address_spec(header@[1], header@[3]),
{
    if header[1] != 1 {
        SocksAddress::Unsupported
    } else if header[3] == 1 {
        SocksAddress::Fixed(4)
    } else if header[3] == 3 {
        SocksAddress::Counted
    } else if header[3] == 4 {
        SocksAddress::Fixed(16)
    } else {
        SocksAddress::Unsupported
    }
}

/// Sixteen bytes read as eight big-endian 16-bit groups.
pub open spec fn be_groups(b: Seq<u8>) -> Seq<u16> {
    Seq::new(8, |i: int| (b[2 * i] as int * 256 + b[2 * i + 1] as int) as u16)
}

/// The host a SOCKS5 address names: the text of an IPv4 or IPv6 address, or a domain name
/// decoded as UTF-8 with invalid sequences replaced.
pub open spec fn socks_host_spec(atyp: u8, addr: Seq<u8>) -> Option<Seq<char>> {
    if atyp == 1 {
        Some(ipv4_text(addr))
    } else if atyp == 3 {
        Some(utf8_lossy(addr))
    } else if atyp == 4 {
        Some(ipv6_text(be_groups(addr)))
    } else {
        None
    }
}

/// The host a SOCKS5 address of type `atyp` names.
pub fn socks_host(atyp: u8, addr: &[u8]) -> (res: Option<String>)
    requires
        atyp == 1 ==> addr@.len() == 4,
        atyp == 4 ==> addr@.len() == 16,
    ensures
        match res {
            Some(h) => socks_host_spec(atyp, addr@) == Some(h@),
            None => socks_host_spec(atyp, addr@) is None,
        },
{
    if atyp == 1 {
        let cs = ipv4_text_chars(addr);
        Some(string_of(cs.as_slice()))
    } else if atyp == 3 {
        Some(from_utf8_lossy(addr))
    } else if atyp == 4 {
        let mut g: Vec<u16> = Vec::new();
        let mut i: usize = 0;
        while i < 8
            invariant
                i <= 8,
                addr@.len() == 16,
                g@.len() == i,
                forall|j: int| 0 <= j < i ==> #[trigger] g@[j] == be_groups(addr@)[j],
            decreases 8 - i,
        {
            let v: u16 = (addr[2 * i] as u16) * 256 + (addr[2 * i + 1] as u16);
            g.push(v);
            i += 1;
        }
        assert(g@ == be_groups(addr@));
        let cs = ipv6_text_chars(g.as_slice());
        Some(string_of(cs.as_slice()))
    } else {
        None
    }
}

/// A port from its two big-endian bytes.
pub fn socks_port(p: &[u8]) -> (res: u16)
    requires
        p@.len() == 2,
    ensures
        res == p@[0] as int * 256 + p@[1] as int,
{
    (p[0] as u16) * 256 + (p[1] as u16)
}

/// The parameters logged for a SOCKS5 request: `port=` and the port.
pub open spec fn port_params(port: u16) -> Seq<char> {
    "port="@ + decimal(port as nat)
}

/// The SOCKS5 reply `succeeded` (code 0) or `connection refused` (code 5), bound to
/// `0.0.0.0:0`.
pub open spec fn socks_reply_spec(code: u8) -> Seq<u8> {
    seq![5u8, code, 0, 1, 0, 0, 0, 0, 0, 0]
}

/// The plan for a SOCKS5 `CONNECT`: forwarded exactly when the policy allows its host; a
/// refused request is answered with a success reply and never reaches upstream.
pub fn socks_plan(cfg: &Config, host: &str, port: u16, source: String, timestamp: u64) -> (res: Plan<Vec<u8>>)
    ensures
        res.forward == host_allowed(cfg, host@),
        res.entry@ == entry_spec(
            timestamp,
            res.forward,
            source@,
            "CONNECT"@,
            host@,
            port_params(port),
        ),
        res.forward ==> res.reply is None,
        !res.forward ==> (res.reply matches Some(r) && r@ == socks_reply_spec(0)),
{
    let forward = request_allowed(cfg, host);
    let mut p = chars_of("port=");
    let d = decimal_chars(port as u64);
    push_all(&mut p, d.as_slice());
    let entry = decision_entry(
        timestamp,
        forward,
        source,
        owned("CONNECT"),
        owned(host),
        string_of(p.as_slice()),
    );
    let reply = if forward {
        None
    } else {
        let r: Vec<u8> = vec![5, 0, 0, 1, 0, 0, 0, 0, 0, 0];
        assert(r@ == socks_reply_spec(0));
        Some(r)
    };
    Plan { entry, forward, reply }
}

/// The reply once the upstream connection is tried: success, or `connection refused`.
pub fn socks_connected_reply(connected: bool) -> (res: Vec<u8>)
    ensures
        res@ == socks_reply_spec(
            if connected {
                0
            } else {
                5
            },
        ),
{
    let r: Vec<u8> = if connected {
        vec![5, 0, 0, 1, 0, 0, 0, 0, 0, 0]
    } else {
        vec![5, 5, 0, 1, 0, 0, 0, 0, 0, 0]
    };
    assert(r@ == socks_reply_spec(
        if connected {
            0
        } else {
            5
        },
    ));
    r
}

// ---------------------------------------------------------------------------
// The SSH SOCKS exit
// ---------------------------------------------------------------------------

/// The greeting sent to the SSH SOCKS exit: version 5, one method, no authentication.
pub open spec fn upstream_greeting_spec() -> Seq<u8> {
    seq![5u8, 1, 0]
}

/// The greeting sent to the SSH SOCKS exit.
pub fn upstream_greeting() -> (res: Vec<u8>)
    ensures
        res@ == upstream_greeting_spec(),
{
    let r: Vec<u8> = vec![5, 1, 0];
    assert(r@ == upstream_greeting_spec());
    r
}

/// The exit's answer to the greeting must choose version 5 without authentication.
pub fn check_upstream_greeting(answer: &[u8]) -> (res: Result<(), String>)
    requires
        answer@.len() == 2,
    ensures
        match res {
            Ok(()) => answer@ == seq![5u8, 0],
            Err(e) => answer@ != seq![5u8, 0] && e@ == "SSH SOCKS 出口认证失败"@,
        },
{
    if answer[0] == 5 && answer[1] == 0 {
        assert(answer@ == seq![5u8, 0]);
        Ok(())
    } else {
        Err(owned("SSH SOCKS 出口认证失败"))
    }
}

/// The `CONNECT` request for a domain name sent to the exit: refused when the name's UTF-8
/// form is longer than 255 bytes.
pub open spec fn upstream_request_spec(host: Seq<char>, port: u16) -> Result<Seq<u8>, Seq<char>> {
    let b = vstd::utf8::encode_utf8(host);
    if b.len() > 255 {
        Err("目标域名过长"@)
    } else {
        Ok(seq![5u8, 1, 0, 3, b.len() as u8] + b + seq![(port / 256) as u8, (port % 256) as u8])
    }
}

/// The `CONNECT` request for `host:port` sent to the exit.
pub fn upstream_request(host: &str, port: u16) -> (res: Result<Vec<u8>, String>)
    ensures
        match res {
            Ok(r) => upstream_request_spec(host@, port) == Ok::<Seq<u8>, Seq<char>>(r@),
            Err(e) => upstream_request_spec(host@, port) == Err::<Seq<u8>, Seq<char>>(e@),
        },
{
    let bytes = host.as_bytes();
    assert(bytes@ == vstd::utf8::encode_utf8(host@));
    if bytes.len() > 255 {
        return Err(owned("目标域名过长"));
    }
    let mut r: Vec<u8> = vec![5, 1, 0, 3, bytes.len() as u8];
    let ghost head = r@;
    let mut i: usize = 0;
    while i < bytes.len()
        invariant
            i <= bytes.len(),
            r@ == head + bytes@.take(i as int),
        decreases bytes.len() - i,
    {
        r.push(bytes[i]);
        i += 1;
        assert(bytes@.take(i as int) == bytes@.take(i - 1).push(bytes@[i - 1]));
    }
    assert(bytes@.take(bytes.len() as int) == bytes@);
    r.push((port / 256) as u8);
    r.push((port % 256) as u8);
    assert(r@ == seq![5u8, 1, 0, 3, bytes@.len() as u8] + bytes@ + seq![
        (port / 256) as u8,
        (port % 256) as u8,
    ]);
    Ok(r)
}

/// The exit's reply `[version, code, reserved, type]`: code 0 is success; any other code
/// is refused with its number.
pub fn check_upstream_reply(reply: &[u8]) -> (res: Result<(), String>)
    requires
        reply@.len() == 4,
    ensures
        match res {
            Ok(()) => reply@[1] == 0,
            Err(e) => reply@[1] != 0 && e@ == "SSH 出口连接目标失败，错误码 "@ + decimal(
                reply@[1] as nat,
            ),
        },
{
    if reply[1] == 0 {
        return Ok(());
    }
    let mut e = chars_of("SSH 出口连接目标失败，错误码 ");
    let d = decimal_chars(reply[1] as u64);
    push_all(&mut e, d.as_slice());
    Err(string_of(e.as_slice()))
}

/// How many bytes of the exit's reply follow its header: the bound address (4 bytes for
/// IPv4, 16 for IPv6, `domain_len` for a domain name, none for an unknown type) and the
/// two port bytes. `domain_len` is the length byte read after a header of type 3.
pub fn upstream_tail_len(atyp: u8, domain_len: u8) -> (res: usize)
    ensures
        res == (if atyp == 1 {
            4
        } else if atyp == 3 {
            domain_len as int
        } else if atyp == 4 {
            16
        } else {
            0
        }) + 2,
{
    let skip: usize = if atyp == 1 {
        4
    } else if atyp == 3 {
        domain_len as usize
    } else if atyp == 4 {
        16
    } else {
        0
    };
    skip + 2
}

// ---------------------------------------------------------------------------
// The log and the traffic trend
// ---------------------------------------------------------------------------

/// The most entries the log keeps.
pub const LOG_CAPACITY: usize = 2000;

/// Days of traffic history kept: the setting, held within 1 to 21.
pub open spec fn trend_days(days: u32) -> nat {
    if days < 1 {
        1
    } else if days > 21 {
        21
    } else {
        days as nat
    }
}

/// Days of log kept: the setting, at least 1.
pub open spec fn log_days(days: u32) -> nat {
    if days < 1 {
        1
    } else {
        days as nat
    }
}

/// The oldest timestamp kept `days` days before `now` (0 when that is before the epoch).
pub open spec fn cutoff(now: u64, days: nat) -> nat {
    if now >= days * 86400 {
        (now - days * 86400) as nat
    } else {
        0
    }
}

/// A timestamp not older than `c`.
pub open spec fn recent_ts(c: nat) -> spec_fn(u64) -> bool {
    |x: u64| x >= c
}

/// A log entry not older than `c`.
pub open spec fn recent_entry(c: nat) -> spec_fn(LogView) -> bool {
    |e: LogView| e.timestamp >= c
}

/// The last `n` elements.
pub open spec fn last_n<A>(s: Seq<A>, n: nat) -> Seq<A> {
    if s.len() > n {
        s.skip(s.len() - n)
    } else {
        s
    }
}

/// The traffic trend after an entry: an allowed connection adds its timestamp, then
/// everything older than the trend window is dropped; a refusal changes nothing.
pub open spec fn traffic_after(traffic: Seq<u64>, e: LogView, trend_retention: u32, now: u64) -> Seq<u64> {
    if e.outcome == outcome_allowed() {
        traffic.push(e.timestamp).filter(recent_ts(cutoff(now, trend_days(trend_retention))))
    } else {
        traffic
    }
}

/// The log after an entry: an entry above the configured level is not kept; otherwise it
/// is appended, entries older than the retention window are dropped, and of the rest the
/// newest `LOG_CAPACITY` are kept.
pub open spec fn logs_after(
    logs: Seq<LogView>,
    e: LogView,
    level: Seq<char>,
    log_retention: u32,
    now: u64,
) -> Seq<LogView> {
    if level_rank(e.level) <= level_rank(level) {
        last_n(
            logs.push(e).filter(recent_entry(cutoff(now, log_days(log_retention)))),
            LOG_CAPACITY as nat,
        )
    } else {
        logs
    }
}

fn cutoff_exec(now: u64, days: u32) -> (res: u64)
    ensures
        res == cutoff(now, days as nat),
{
    let span: u64 = (days as u64) * 86400;
    if now >= span {
        now - span
    } else {
        0
    }
}

/// The timestamps not older than `c`, in order.
fn keep_recent_ts(v: &Vec<u64>, c: u64) -> (res: Vec<u64>)
    ensures
        res@ == v@.filter(recent_ts(c as nat)),
{
    let mut out: Vec<u64> = Vec::new();
    let mut i: usize = 0;
    while i < v.len()
        invariant
            i <= v.len(),
            out@ == v@.take(i as int).filter(recent_ts(c as nat)),
        decreases v.len() - i,
    {
        assert(v@.take(i + 1).drop_last() == v@.take(i as int));
        proof {
            reveal(Seq::filter);
        }
        if v[i] >= c {
            out.push(v[i]);
        }
        i += 1;
    }
    assert(v@.take(v.len() as int) == v@);
    out
}

/// The entries not older than `c`, in order.
fn keep_recent_entries(v: Vec<LogEntry>, c: u64) -> (res: Vec<LogEntry>)
    ensures
        log_views(res@) == log_views(v@).filter(recent_entry(c as nat)),
{
    let ghost orig = v@;
    let n = v.len();
    let mut src = v;
    let mut out: Vec<LogEntry> = Vec::new();
    let mut k: usize = 0;
    assert(orig.skip(0) == orig);
    while src.len() > 0
        invariant
            k <= orig.len(),
            orig.len() == n,
            src@ == orig.skip(k as int),
            log_views(out@) == log_views(orig.take(k as int)).filter(recent_entry(c as nat)),
        decreases src.len(),
    {
        let e = src.remove(0);
        assert(e == orig[k as int]);
        assert(src@ == orig.skip(k + 1));
        assert(orig.take(k + 1) == orig.take(k as int).push(e));
        assert(log_views(orig.take(k + 1)) == log_views(orig.take(k as int)).push(e@));
        assert(log_views(orig.take(k + 1)).drop_last() == log_views(orig.take(k as int)));
        proof {
            reveal(Seq::filter);
        }
        let keep = e.timestamp >= c;
        let ghost before = log_views(out@);
        if keep {
            out.push(e);
            assert(log_views(out@) == before.push(orig[k as int]@));
        }
        k += 1;
    }
    assert(orig.take(k as int) == orig);
    out
}

/// Records a decision: the traffic trend and the log change as `traffic_after` and
/// `logs_after` say, with `now` the current time in seconds.
pub fn record(logs: &mut Vec<LogEntry>, traffic: &mut Vec<u64>, cfg: &Config, now: u64, entry: LogEntry)
    ensures
        final(traffic)@ == traffic_after(old(traffic)@, entry@, cfg.trend_retention_days, now),
        log_views(final(logs)@) == logs_after(
            log_views(old(logs)@),
            entry@,
            cfg.log_level@,
            cfg.log_retention_days,
            now,
        ),
{
    if str_eq(entry.outcome.as_str(), "放行") {
        let days: u32 = if cfg.trend_retention_days < 1 {
            1
        } else if cfg.trend_retention_days > 21 {
            21
        } else {
            cfg.trend_retention_days
        };
        traffic.push(entry.timestamp);
        let c = cutoff_exec(now, days);
        let kept = keep_recent_ts(traffic, c);
        *traffic = kept;
    }
    if !level_allowed(cfg.log_level.as_str(), entry.level.as_str()) {
        return;
    }
    let days: u32 = if cfg.log_retention_days < 1 {
        1
    } else {
        cfg.log_retention_days
    };
    let c = cutoff_exec(now, days);
    let ghost before = log_views(logs@);
    let ghost ev = entry@;
    let mut all: Vec<LogEntry> = Vec::new();
    std::mem::swap(&mut all, logs);
    all.push(entry);
    assert(log_views(all@) == before.push(ev));
    let mut kept = keep_recent_entries(all, c);
    if kept.len() > LOG_CAPACITY {
        let excess = kept.len() - LOG_CAPACITY;
        let ghost kv = kept@;
        let tail = kept.split_off(excess);
        assert(tail@ == kv.skip(excess as int));
        assert(log_views(tail@) == log_views(kv).skip(excess as int));
        *logs = tail;
    } else {
        *logs = kept;
    }
}

/// The status line shown for the proxy in the menu bar.
pub fn status_label(running: bool) -> (res: String)
    ensures
        res@ == (if running {
            "🟢 代理运行中"@
        } else {
            "⚪ 代理已停止"@
        }),
{
    if running {
        owned("🟢 代理运行中")
    } else {
        owned("⚪ 代理已停止")
    }
}

// ---------------------------------------------------------------------------
// Laws
// ---------------------------------------------------------------------------

/// The log never holds more than `LOG_CAPACITY` entries: recording keeps a log within the
/// bound.
pub proof fn law_log_capacity(logs: Seq<LogView>, e: LogView, level: Seq<char>, log_retention: u32, now: u64)
    requires
        logs.len() <= LOG_CAPACITY,
    ensures
        logs_after(logs, e, level, log_retention, now).len() <= LOG_CAPACITY,
{
    broadcast use vstd::seq_lib::group_filter_ensures;

    let f = logs.push(e).filter(recent_entry(cutoff(now, log_days(log_retention))));
    assert(f.len() <= logs.len() + 1);
}

/// After an entry is kept, every entry of the log lies within the retention window.
pub proof fn law_log_retention(logs: Seq<LogView>, e: LogView, level: Seq<char>, log_retention: u32, now: u64, i: int)
    requires
        level_rank(e.level) <= level_rank(level),
        0 <= i < logs_after(logs, e, level, log_retention, now).len(),
    ensures
        logs_after(logs, e, level, log_retention, now)[i].timestamp >= cutoff(
            now,
            log_days(log_retention),
        ),
{
    broadcast use vstd::seq_lib::group_filter_ensures;

    let p = recent_entry(cutoff(now, log_days(log_retention)));
    let f = logs.push(e).filter(p);
    let r = logs_after(logs, e, level, log_retention, now);
    if f.len() > LOG_CAPACITY {
        assert(r[i] == f[i + (f.len() - LOG_CAPACITY)]);
        assert(p(f[i + (f.len() - LOG_CAPACITY)]));
    } else {
        assert(p(f[i]));
    }
}

/// Only allowed connections count towards the traffic trend, and after one is counted
/// every timestamp of the trend lies within the trend window.
pub proof fn law_traffic_window(traffic: Seq<u64>, e: LogView, trend_retention: u32, now: u64)
    ensures
        e.outcome != outcome_allowed() ==> traffic_after(traffic, e, trend_retention, now)
            == traffic,
        e.outcome == outcome_allowed() ==> forall|i: int|
            0 <= i < traffic_after(traffic, e, trend_retention, now).len() ==> #[trigger] traffic_after(
                traffic,
                e,
                trend_retention,
                now,
            )[i] >= cutoff(now, trend_days(trend_retention)),
{
    broadcast use vstd::seq_lib::group_filter_ensures;

    if e.outcome == outcome_allowed() {
        let p = recent_ts(cutoff(now, trend_days(trend_retention)));
        let f = traffic.push(e.timestamp).filter(p);
        assert forall|i: int| 0 <= i < f.len() implies #[trigger] f[i] >= cutoff(
            now,
            trend_days(trend_retention),
        ) by {
            assert(p(f[i]));
        }
    }
}


/// Recording an entry at a level the configuration shows, and within the retention window,
/// makes it the newest entry of the log; an entry below that level leaves the log as it
/// was.
pub proof fn law_recorded_entry_is_newest(logs: Seq<LogView>, e: LogView, level: Seq<char>, log_retention: u32, now: u64)
    ensures
        level_rank(e.level) <= level_rank(level) && e.timestamp >= cutoff(now, log_days(log_retention))
            ==> logs_after(logs, e, level, log_retention, now).len() > 0 && logs_after(
            logs,
            e,
            level,
            log_retention,
            now,
        ).last() == e,
        level_rank(e.level) > level_rank(level) ==> logs_after(logs, e, level, log_retention, now)
            == logs,
{
    let p = recent_entry(cutoff(now, log_days(log_retention)));
    if level_rank(e.level) <= level_rank(level) && p(e) {
        let s = logs.push(e);
        assert(s.drop_last() == logs);
        assert(s.last() == e);
        assert(s.filter(p) == logs.filter(p).push(e)) by {
            reveal(Seq::filter);
        }
        let f = s.filter(p);
        if f.len() > LOG_CAPACITY {
            assert(f.skip(f.len() - LOG_CAPACITY).last() == f.last());
        }
    }
}

} // verus!
