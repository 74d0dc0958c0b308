//! The network probes a user can run (ping, traceroute, TCP, UDP, HTTP, TLS certificate,
//! WebSocket): reading the request, building the commands and payloads, and reading the
//! outcome.
//!
//! Sockets, HTTP clients and child processes stay outside the library.
use crate::calls::{hex_decode, hex_decode_str, http_method, parse_method, parse_url, url_error_text, url_parse};
use crate::ip::{ip_parse, ip_text, ip_text_string, parse_ip_chars, IpValue};
use crate::text::{
    chars_of, decimal, decimal_chars, lines, lines_of, owned, push_all, push_str, slice_of,
    split_once, split_once_chars, str_eq, string_of, strs, trim, trim_chars, trim_str, views,
};
use vstd::prelude::*;
use vstd::string::StringSliceAdditionalSpecFns;
use vstd::utf8::encode_utf8;

verus! {

/// A probe the user asked for.
#[derive(Clone, Debug)]
pub struct NetworkProbeRequest {
    pub tool: String,
    pub target: String,
    pub port: Option<u16>,
    pub timeout_ms: u64,
    pub count: u16,
    pub method: Option<String>,
    pub headers: Option<String>,
    pub body: Option<String>,
    pub payload: Option<String>,
    pub payload_hex: bool,
}

/// The probes there are.
#[derive(Clone, Debug)]
pub enum ProbeTool {
    Ping,
    Traceroute,
    Tcp,
    Udp,
    Http,
    Certificate,
    WebSocket,
    Unknown,
}

/// The probe a tool name selects (`telnet` is the TCP probe).
pub open spec fn tool_spec(tool: Seq<char>) -> ProbeTool {
    if tool == "ping"@ {
        ProbeTool::Ping
    } else if tool == "traceroute"@ {
        ProbeTool::Traceroute
    } else if tool == "telnet"@ || tool == "tcp"@ {
        ProbeTool::Tcp
    } else if tool == "udp"@ {
        ProbeTool::Udp
    } else if tool == "http"@ {
        ProbeTool::Http
    } else if tool == "certificate"@ {
        ProbeTool::Certificate
    } else if tool == "websocket"@ {
        ProbeTool::WebSocket
    } else {
        ProbeTool::Unknown
    }
}

/// The probe a tool name selects.
pub fn probe_tool(tool: &str) -> (res: ProbeTool)
    ensures
        res == tool_spec(tool@),
{
    if str_eq(tool, "ping") {
        ProbeTool::Ping
    } else if str_eq(tool, "traceroute") {
        ProbeTool::Traceroute
    } else if str_eq(tool, "telnet") || str_eq(tool, "tcp") {
        ProbeTool::Tcp
    } else if str_eq(tool, "udp") {
        ProbeTool::Udp
    } else if str_eq(tool, "http") {
        ProbeTool::Http
    } else if str_eq(tool, "certificate") {
        ProbeTool::Certificate
    } else if str_eq(tool, "websocket") {
        ProbeTool::WebSocket
    } else {
        ProbeTool::Unknown
    }
}

/// The timeout of a probe: the requested one held within 100 ms to 120 s.
pub open spec fn timeout_spec(ms: u64) -> u64 {
    if ms < 100 {
        100
    } else if ms > 120_000 {
        120_000
    } else {
        ms
    }
}

/// The timeout of a probe, in milliseconds.
pub fn timeout_ms(req: &NetworkProbeRequest) -> (res: u64)
    ensures
        res == timeout_spec(req.timeout_ms),
{
    if req.timeout_ms < 100 {
        100
    } else if req.timeout_ms > 120_000 {
        120_000
    } else {
        req.timeout_ms
    }
}

/// The port of a probe: the requested one, else `default`, and at least 1.
pub open spec fn port_spec(port: Option<u16>, default: u16) -> u16 {
    let p = match port {
        Some(p) => p,
        None => default,
    };
    if p < 1 {
        1
    } else {
        p
    }
}

/// The port of a probe.
pub fn probe_port(req: &NetworkProbeRequest, default: u16) -> (res: u16)
    ensures
        res == port_spec(req.port, default),
{
    let p = match req.port {
        Some(p) => p,
        None => default,
    };
    if p < 1 {
        1
    } else {
        p
    }
}

/// `s` without any `[` or `]` at either end.
pub open spec fn strip_brackets(s: Seq<char>) -> Seq<char>
    decreases s.len(),
{
    if s.len() > 0 && (s[0] == '[' || s[0] == ']') {
        strip_brackets(s.skip(1))
    } else if s.len() > 0 && (s.last() == '[' || s.last() == ']') {
        strip_brackets(s.drop_last())
    } else {
        s
    }
}

/// `host:port` of a probe: the trimmed target without brackets, an IP address in canonical
/// form (an IPv6 one bracketed), and the probe's port; refused when the target is blank.
pub open spec fn endpoint_spec(target: Seq<char>, port: u16) -> Result<Seq<char>, Seq<char>> {
    let t = trim(target);
    if t.len() == 0 {
        Err("目标不能为空"@)
    } else {
        let h = strip_brackets(t);
        let host = match ip_parse(h) {
            Some(IpValue::V6(g)) => "["@ + ip_text(IpValue::V6(g)) + "]"@,
            Some(a) => ip_text(a),
            None => h,
        };
        Ok(host + ":"@ + decimal(port as nat))
    }
}

fn strip_brackets_chars(s: &[char]) -> (res: Vec<char>)
    ensures
        res@ == strip_brackets(s@),
{
    let mut i: usize = 0;
    let mut j: usize = s.len();
    assert(s@.subrange(0, s@.len() as int) == s@);
    while i < j && (s[i] == '[' || s[i] == ']')
        invariant
            i <= j <= s.len(),
            j == s.len(),
            strip_brackets(s@) == strip_brackets(s@.subrange(i as int, j as int)),
        decreases j - i,
    {
        assert(s@.subrange(i as int, j as int).skip(1) == s@.subrange(i + 1, j as int));
        i += 1;
    }
    while i < j && (s[j - 1] == '[' || s[j - 1] == ']')
        invariant
            i <= j <= s.len(),
            i == j || !(s@[i as int] == '[' || s@[i as int] == ']'),
            strip_brackets(s@) == strip_brackets(s@.subrange(i as int, j as int)),
        decreases j - i,
    {
        assert(s@.subrange(i as int, j as int).drop_last() == s@.subrange(i as int, j - 1));
        j -= 1;
    }
    slice_of(s, i, j)
}

/// `host:port` of a probe.
pub fn endpoint(req: &NetworkProbeRequest, default: u16) -> (res: Result<String, String>)
    ensures
        match res {
            Ok(e) => endpoint_spec(req.target@, port_spec(req.port, default)) == Ok::<
                Seq<char>,
                Seq<char>,
            >(e@),
            Err(e) => endpoint_spec(req.target@, port_spec(req.port, default)) == Err::<
                Seq<char>,
                Seq<char>,
            >(e@),
        },
{
    let t = trim_str(req.target.as_str());
    if t.len() == 0 {
        return Err(owned("目标不能为空"));
    }
    let h = strip_brackets_chars(t.as_slice());
    let mut out: Vec<char> = match parse_ip_chars(h.as_slice()) {
        Some(a) => {
            let text = ip_text_string(&a);
            match a {
                crate::ip::IpAddress::V6(_) => {
                    let mut v = chars_of("[");
                    push_str(&mut v, text.as_str());
                    push_str(&mut v, "]");
                    v
                },
                crate::ip::IpAddress::V4(_) => chars_of(text.as_str()),
            }
        },
        None => h,
    };
    push_str(&mut out, ":");
    let port = probe_port(req, default);
    push_all(&mut out, decimal_chars(port as u64).as_slice());
    Ok(string_of(out.as_slice()))
}

/// The check made before a probe step: stop once the user cancelled.
pub fn cancelled(flag: bool) -> (res: Result<(), String>)
    ensures
        match res {
            Ok(()) => !flag,
            Err(e) => flag && e@ == "探测已取消"@,
        },
{
    if flag {
        Err(owned("探测已取消"))
    } else {
        Ok(())
    }
}

// ---------------------------------------------------------------------------
// Headers and payloads
// ---------------------------------------------------------------------------

/// A line that is not blank.
pub open spec fn nonblank_line(l: Seq<char>) -> bool {
    trim(l).len() > 0
}

/// One header line: `name: value`, both trimmed; refused without `:` or with a blank name.
pub open spec fn header_spec(line: Seq<char>) -> Result<(Seq<char>, Seq<char>), Seq<char>> {
    match split_once(line, ':') {
        None => Err("请求头格式无效："@ + line),
        Some((k, v)) => if trim(k).len() == 0 {
            Err("请求头名称不能为空"@)
        } else {
            Ok((trim(k), trim(v)))
        },
    }
}

/// The headers of the nonblank lines, in order, or the error of the first faulty one.
pub open spec fn headers_spec(ls: Seq<Seq<char>>) -> Result<Seq<(Seq<char>, Seq<char>)>, Seq<char>>
    decreases ls.len(),
{
    if ls.len() == 0 {
        Ok(seq![])
    } else {
        match headers_spec(ls.drop_last()) {
            Err(e) => Err(e),
            Ok(hs) => if !nonblank_line(ls.last()) {
                Ok(hs)
            } else {
                match header_spec(ls.last()) {
                    Err(e) => Err(e),
                    Ok(h) => Ok(hs.push(h)),
                }
            },
        }
    }
}

/// Reads request headers, one per line.
pub fn parse_headers(input: &str) -> (res: Result<Vec<(String, String)>, String>)
    ensures
        match res {
            Ok(v) => headers_spec(lines(input@)) == Ok::<Seq<(Seq<char>, Seq<char>)>, Seq<char>>(
                v@.map_values(|x: (String, String)| (x.0@, x.1@)),
            ),
            Err(e) => headers_spec(lines(input@)) == Err::<
                Seq<(Seq<char>, Seq<char>)>,
                Seq<char>,
            >(e@),
        },
{
    let cs = chars_of(input);
    let ls = lines_of(cs.as_slice());
    let ghost lv = views(ls@);
    let mut out: Vec<(String, String)> = Vec::new();
    let mut i: usize = 0;
    assert(lv.take(0) =~= Seq::<Seq<char>>::empty());
    assert(out@.map_values(|x: (String, String)| (x.0@, x.1@)) =~= Seq::<(Seq<char>, Seq<char>)>::empty());
    while i < ls.len()
        invariant
            i <= ls.len(),
            lv == views(ls@),
            lv == lines(input@),
            headers_spec(lv.take(i as int)) == Ok::<Seq<(Seq<char>, Seq<char>)>, Seq<char>>(
                out@.map_values(|x: (String, String)| (x.0@, x.1@)),
            ),
        decreases ls.len() - i,
    {
        let line = &ls[i];
        assert(lv[i as int] == line@);
        assert(lv.take(i + 1).drop_last() == lv.take(i as int));
        assert(lv.take(i + 1).last() == line@);
        let t = trim_chars(line.as_slice());
        if t.len() > 0 {
            match split_once_chars(line.as_slice(), ':') {
                None => {
                    let mut e = chars_of("请求头格式无效：");
                    push_all(&mut e, line.as_slice());
                    proof {
                        lemma_headers_err(lv, i as int + 1);
                    }
                    return Err(string_of(e.as_slice()));
                },
                Some((k, v)) => {
                    let kt = trim_chars(k.as_slice());
                    if kt.len() == 0 {
                        proof {
                            lemma_headers_err(lv, i as int + 1);
                        }
                        return Err(owned("请求头名称不能为空"));
                    }
                    let vt = trim_chars(v.as_slice());
                    let ghost before = out@.map_values(|x: (String, String)| (x.0@, x.1@));
                    out.push((string_of(kt.as_slice()), string_of(vt.as_slice())));
                    assert(out@.map_values(|x: (String, String)| (x.0@, x.1@)) == before.push(
                        (kt@, vt@),
                    ));
                },
            }
        }
        i += 1;
    }
    assert(lv.take(ls.len() as int) == lv);
    Ok(out)
}

/// Once a prefix of the lines has an error, the whole has that error.
pub proof fn lemma_headers_err(ls: Seq<Seq<char>>, k: int)
    requires
        0 <= k <= ls.len(),
        headers_spec(ls.take(k)) is Err,
    ensures
        headers_spec(ls) == headers_spec(ls.take(k)),
    decreases ls.len() - k,
{
    if k < ls.len() {
        assert(ls.take(k + 1).drop_last() == ls.take(k));
        lemma_headers_err(ls, k + 1);
    } else {
        assert(ls.take(k) == ls);
    }
}

/// The text with every space and `:` removed.
pub open spec fn hex_compact(s: Seq<char>) -> Seq<char> {
    s.filter(|c: char| c != ' ' && c != ':')
}

/// The bytes a TCP or UDP probe sends: the payload's UTF-8 form, or, as hexadecimal, the
/// bytes its digits denote once spaces and `:` are removed.
pub open spec fn payload_spec(payload: Seq<char>, is_hex: bool) -> Option<Seq<u8>> {
    if is_hex {
        hex_decode(encode_utf8(hex_compact(payload)))
    } else {
        Some(encode_utf8(payload))
    }
}

/// The bytes a TCP or UDP probe sends. Invalid hexadecimal is refused with `十六进制数据无效：`
/// and the decoder's explanation.
pub fn decode_payload(req: &NetworkProbeRequest) -> (res: Result<Vec<u8>, String>)
    ensures
        ({
            let p = match req.payload {
                Some(s) => s@,
                None => Seq::<char>::empty(),
            };
            match res {
                Ok(b) => payload_spec(p, req.payload_hex) == Some(b@),
                Err(e) => req.payload_hex && payload_spec(p, req.payload_hex) is None && e@
                    == "十六进制数据无效："@ + crate::calls::hex_error_text(
                    encode_utf8(hex_compact(p)),
                ),
            }
        }),
{
    let p: Vec<char> = match &req.payload {
        Some(s) => chars_of(s.as_str()),
        None => Vec::new(),
    };
    if req.payload_hex {
        let mut compact: Vec<char> = Vec::new();
        let mut i: usize = 0;
        while i < p.len()
            invariant
                i <= p.len(),
                compact@ == hex_compact(p@.take(i as int)),
            decreases p.len() - i,
        {
            proof {
                reveal(Seq::filter);
            }
            assert(p@.take(i + 1).drop_last() == p@.take(i as int));
            if p[i] != ' ' && p[i] != ':' {
                compact.push(p[i]);
            }
            i += 1;
        }
        assert(p@.take(p.len() as int) == p@);
        let text = string_of(compact.as_slice());
        let ts = text.as_str();
        assert(ts.spec_bytes() == encode_utf8(hex_compact(p@)));
        match hex_decode_str(ts) {
            Ok(b) => Ok(b),
            Err(e) => {
                let mut m = chars_of("十六进制数据无效：");
                push_str(&mut m, e.as_str());
                Err(string_of(m.as_slice()))
            },
        }
    } else {
        let s = string_of(p.as_slice());
        let b = s.as_str().as_bytes();
        let mut out: Vec<u8> = Vec::new();
        let mut i: usize = 0;
        while i < b.len()
            invariant
                i <= b.len(),
                out@ == b@.take(i as int),
            decreases b.len() - i,
        {
            out.push(b[i]);
            i += 1;
            assert(b@.take(i as int) == b@.take(i - 1).push(b@[i - 1]));
        }
        assert(b@.take(b.len() as int) == b@);
        Ok(out)
    }
}

// ---------------------------------------------------------------------------
// Commands and their outcome
// ---------------------------------------------------------------------------

fn push_lit(v: &mut Vec<String>, s: &str)
    ensures
        strs(final(v)@) == strs(old(v)@).push(s@),
{
    let ghost before = strs(v@);
    v.push(owned(s));
    assert(strs(v@) == before.push(s@));
}

fn push_owned(v: &mut Vec<String>, s: String)
    ensures
        strs(final(v)@) == strs(old(v)@).push(s@),
{
    let ghost before = strs(v@);
    let ghost sv = s@;
    v.push(s);
    assert(strs(v@) == before.push(sv));
}

/// The number of echo requests: the requested count held within 1 to 20.
pub open spec fn ping_count(count: u16) -> u16 {
    if count < 1 {
        1
    } else if count > 20 {
        20
    } else {
        count
    }
}

/// The arguments of `ping`: numeric output, the count, the timeout in milliseconds, the
/// trimmed target.
pub fn ping_args(req: &NetworkProbeRequest) -> (res: Vec<String>)
    ensures
        strs(res@) == seq![
            "-n"@,
            "-c"@,
            decimal(ping_count(req.count) as nat),
            "-W"@,
            decimal(timeout_spec(req.timeout_ms) as nat),
            trim(req.target@),
        ],
{
    let count: u16 = if req.count < 1 {
        1
    } else if req.count > 20 {
        20
    } else {
        req.count
    };
    let mut a: Vec<String> = Vec::new();
    push_lit(&mut a, "-n");
    push_lit(&mut a, "-c");
    push_owned(&mut a, string_of(decimal_chars(count as u64).as_slice()));
    push_lit(&mut a, "-W");
    push_owned(&mut a, string_of(decimal_chars(timeout_ms(req)).as_slice()));
    push_owned(&mut a, string_of(trim_str(req.target.as_str()).as_slice()));
    a
}

/// The arguments of `traceroute`: numeric output, at most 30 hops, the wait per probe in
/// whole seconds (at least 1), the trimmed target.
pub fn traceroute_args(req: &NetworkProbeRequest) -> (res: Vec<String>)
    ensures
        strs(res@) == seq![
            "-n"@,
            "-m"@,
            "30"@,
            "-w"@,
            decimal(
                (if timeout_spec(req.timeout_ms) / 1000 < 1 {
                    1
                } else {
                    timeout_spec(req.timeout_ms) / 1000
                }) as nat,
            ),
            trim(req.target@),
        ],
{
    let secs = timeout_ms(req) / 1000;
    let secs: u64 = if secs < 1 {
        1
    } else {
        secs
    };
    let mut a: Vec<String> = Vec::new();
    push_lit(&mut a, "-n");
    push_lit(&mut a, "-m");
    push_lit(&mut a, "30");
    push_lit(&mut a, "-w");
    push_owned(&mut a, string_of(decimal_chars(secs).as_slice()));
    push_owned(&mut a, string_of(trim_str(req.target.as_str()).as_slice()));
    a
}

/// How long a command probe may run: the timeout once per echo (at least one), plus two
/// seconds.
pub fn command_deadline_ms(req: &NetworkProbeRequest) -> (res: u64)
    ensures
        res == timeout_spec(req.timeout_ms) * (if req.count < 1 {
            1
        } else {
            req.count as int
        }) + 2000,
{
    let t = timeout_ms(req);
    let n: u64 = if req.count < 1 {
        1
    } else {
        req.count as u64
    };
    assert(t * n <= 120_000 * 65535) by (nonlinear_arith)
        requires
            t <= 120_000,
            n <= 65535,
    ;
    t * n + 2000
}

/// The outcome of a finished command: success with `探测完成`; failure with `探测失败` and
/// the command's error output trimmed, or its output when that is empty.
pub fn command_outcome(success: bool, stdout: &str, stderr: &str) -> (res: (String, Option<String>))
    ensures
        success ==> res.0@ == "探测完成"@ && res.1 is None,
        !success ==> res.0@ == "探测失败"@ && (res.1 matches Some(e) && e@ == (if trim(stderr@).len()
            == 0 {
            stdout@
        } else {
            trim(stderr@)
        })),
{
    if success {
        return (owned("探测完成"), None);
    }
    let err = trim_str(stderr);
    let e = if err.len() == 0 {
        owned(stdout)
    } else {
        string_of(err.as_slice())
    };
    (owned("探测失败"), Some(e))
}

/// Index of the first occurrence of `p` in `s`, or -1.
pub open spec fn find_sub(s: Seq<char>, p: Seq<char>) -> int
    decreases s.len(),
{
    if s.len() < p.len() {
        -1
    } else if s.take(p.len() as int) == p {
        0
    } else if s.len() == 0 {
        -1
    } else {
        let r = find_sub(s.skip(1), p);
        if r < 0 {
            -1
        } else {
            r + 1
        }
    }
}

fn find_sub_exec(s: &[char], p: &[char]) -> (res: Option<usize>)
    ensures
        match res {
            Some(i) => find_sub(s@, p@) == i && i + p@.len() <= s@.len(),
            None => find_sub(s@, p@) == -1,
        },
{
    let mut i: usize = 0;
    assert(s@.skip(0) == s@);
    while p.len() <= s.len() - i
        invariant
            i <= s.len(),
            find_sub(s@, p@) == (if find_sub(s@.skip(i as int), p@) < 0 {
                -1
            } else {
                find_sub(s@.skip(i as int), p@) + i
            }),
        decreases s.len() - i,
    {
        let rest = slice_of(s, i, i + p.len());
        assert(rest@ == s@.skip(i as int).take(p@.len() as int));
        if p.len() == 0 {
            assert(rest@ =~= p@);
        }
        if crate::text::chars_eq(rest.as_slice(), p) {
            return Some(i);
        }
        assert(p@.len() > 0);
        assert(s@.skip(i as int).skip(1) == s@.skip(i + 1));
        i += 1;
    }
    None
}

/// The first certificate in `openssl s_client` output: from its `BEGIN` line through the
/// next `END` line, then a line break, the `END` line again and a line break.
pub open spec fn pem_spec(combined: Seq<char>) -> Option<Seq<char>> {
    let begin = "-----BEGIN CERTIFICATE-----"@;
    let end = "-----END CERTIFICATE-----"@;
    let start = find_sub(combined, begin);
    if start < 0 {
        None
    } else {
        let rest = combined.skip(start);
        let finish = find_sub(rest, end);
        if finish < 0 {
            None
        } else {
            Some(rest.take(finish + end.len()) + "\n"@ + end + "\n"@)
        }
    }
}

/// The first certificate in `openssl s_client` output.
pub fn certificate_pem(combined: &str) -> (res: Option<String>)
    ensures
        match res {
            Some(p) => pem_spec(combined@) == Some(p@),
            None => pem_spec(combined@) is None,
        },
{
    let c = chars_of(combined);
    let begin = chars_of("-----BEGIN CERTIFICATE-----");
    let end = chars_of("-----END CERTIFICATE-----");
    let start = match find_sub_exec(c.as_slice(), begin.as_slice()) {
        Some(s) => s,
        None => {
            return None;
        },
    };
    let rest = slice_of(c.as_slice(), start, c.len());
    assert(rest@ == c@.skip(start as int));
    let finish = match find_sub_exec(rest.as_slice(), end.as_slice()) {
        Some(f) => f,
        None => {
            return None;
        },
    };
    let mut out = slice_of(rest.as_slice(), 0, finish + end.len());
    assert(out@ == rest@.take(finish + end@.len()));
    push_str(&mut out, "\n");
    push_all(&mut out, end.as_slice());
    push_str(&mut out, "\n");
    Some(string_of(out.as_slice()))
}

/// The summary of an answered HTTP probe: `HTTP` and the status code.
pub fn http_summary(status: u16) -> (res: String)
    ensures
        res@ == "HTTP "@ + decimal(status as nat),
{
    let mut s = chars_of("HTTP ");
    push_all(&mut s, decimal_chars(status as u64).as_slice());
    string_of(s.as_slice())
}


/// The URL a WebSocket probe connects to: the trimmed target read as an absolute URL.
pub fn websocket_url(req: &NetworkProbeRequest) -> (res: Result<String, String>)
    ensures
        match res {
            Ok(u) => url_parse(trim(req.target@)) == Some(u@),
            Err(e) => url_parse(trim(req.target@)) is None && e@ == url_error_text(trim(req.target@)),
        },
{
    let t = string_of(trim_str(req.target.as_str()).as_slice());
    parse_url(t.as_str())
}

/// The method an HTTP probe sends: the requested one (`GET` when none is given) when it
/// reads as a method, else `GET`.
pub fn probe_method(method: Option<&str>) -> (res: String)
    ensures
        res@ == match http_method(
            match method {
                Some(m) => m@,
                None => "GET"@,
            },
        ) {
            Some(m) => m,
            None => "GET"@,
        },
{
    let m = match method {
        Some(m) => m,
        None => "GET",
    };
    match parse_method(m) {
        Some(v) => v,
        None => owned("GET"),
    }
}

/// An HTTP probe succeeds on a 2xx status.
pub fn http_success(status: u16) -> (res: bool)
    ensures
        res == (200 <= status <= 299),
{
    200 <= status && status <= 299
}

/// How a step of a probe ended, for the probe's result.
#[derive(Clone, Copy, Debug, PartialEq, Eq, Structural)]
pub enum ProbeStep {
    /// The probe's target or port is invalid.
    BadArguments,
    /// The system tool could not be started.
    ToolNotStarted,
    /// The user cancelled the probe.
    Cancelled,
    /// The system tool ran past its deadline.
    TimedOut,
    /// The certificate scan could not be started.
    ScanNotStarted,
    /// The handshake failed or returned no certificate.
    NoCertificate,
    /// The certificate scan finished.
    ScanDone,
    /// The certificate scan returned a certificate but failed.
    ScanFailed,
    /// No TCP connection could be made.
    TcpConnectFailed,
    /// The payload could not be read.
    BadPayload,
    /// The payload could not be sent over TCP.
    TcpSendFailed,
    /// The TCP connection was made.
    TcpConnected,
    /// No UDP socket could be made.
    UdpSocketFailed,
    /// The datagram could not be sent.
    UdpSendFailed,
    /// A datagram came back.
    UdpAnswered,
    /// The datagram was sent and nothing came back in time.
    UdpNoResponse,
    /// Receiving failed.
    UdpReceiveFailed,
    /// No HTTP client could be made.
    HttpClientFailed,
    /// The request headers could not be read.
    BadHeaders,
    /// The HTTP request failed.
    HttpRequestFailed,
    /// The target is no URL.
    BadWebSocketUrl,
    /// No WebSocket request could be built.
    BadWebSocketRequest,
    /// The WebSocket connection failed.
    WebSocketConnectFailed,
    /// The payload could not be sent over the WebSocket.
    WebSocketSendFailed,
    /// The WebSocket connection was made.
    WebSocketConnected,
    /// No such probe.
    UnknownTool,
}

/// A probe that ends at this step succeeded.
pub open spec fn step_succeeds(step: ProbeStep) -> bool {
    match step {
        ProbeStep::ScanDone | ProbeStep::TcpConnected | ProbeStep::UdpAnswered | ProbeStep::WebSocketConnected => true,
        _ => false,
    }
}

/// The summary a probe shows for the step it ended at.
pub open spec fn step_summary(step: ProbeStep) -> Seq<char> {
    match step {
        ProbeStep::BadArguments => "参数无效"@,
        ProbeStep::ToolNotStarted => "无法启动系统网络工具"@,
        ProbeStep::Cancelled => "探测已取消"@,
        ProbeStep::TimedOut => "探测超时"@,
        ProbeStep::ScanNotStarted => "无法启动证书扫描"@,
        ProbeStep::NoCertificate => "TLS 握手失败或未返回证书"@,
        ProbeStep::ScanDone => "证书扫描完成"@,
        ProbeStep::ScanFailed => "证书扫描失败"@,
        ProbeStep::TcpConnectFailed => "TCP 连接失败"@,
        ProbeStep::BadPayload => "数据无效"@,
        ProbeStep::TcpSendFailed => "TCP 发送失败"@,
        ProbeStep::TcpConnected => "TCP 连接成功"@,
        ProbeStep::UdpSocketFailed => "UDP 套接字创建失败"@,
        ProbeStep::UdpSendFailed => "UDP 发送失败"@,
        ProbeStep::UdpAnswered => "UDP 收到响应"@,
        ProbeStep::UdpNoResponse => "UDP 已发送但未收到响应"@,
        ProbeStep::UdpReceiveFailed => "UDP 接收失败"@,
        ProbeStep::HttpClientFailed => "HTTP 客户端创建失败"@,
        ProbeStep::BadHeaders => "请求头无效"@,
        ProbeStep::HttpRequestFailed => "HTTP 请求失败"@,
        ProbeStep::BadWebSocketUrl => "WebSocket URL 无效"@,
        ProbeStep::BadWebSocketRequest => "WebSocket 请求无效"@,
        ProbeStep::WebSocketConnectFailed => "WebSocket 连接失败"@,
        ProbeStep::WebSocketSendFailed => "WebSocket 发送失败"@,
        ProbeStep::WebSocketConnected => "WebSocket 连接成功"@,
        ProbeStep::UnknownTool => "未知探测工具"@,
    }
}

/// The fixed error code of a step that has one.
pub open spec fn step_code(step: ProbeStep) -> Option<Seq<char>> {
    match step {
        ProbeStep::Cancelled => Some("cancelled"@),
        ProbeStep::TimedOut => Some("timeout"@),
        ProbeStep::TcpConnectFailed => Some("connection_failed"@),
        ProbeStep::UdpNoResponse => Some("no_response"@),
        ProbeStep::UnknownTool => Some("unknown_tool"@),
        _ => None,
    }
}

/// The success, summary and error of a probe that ended at `step`: no error on success;
/// otherwise the step's fixed code where it has one, else `detail` (what the failing call
/// reported).
pub fn probe_step(step: ProbeStep, detail: String) -> (res: (bool, String, Option<String>))
    ensures
        res.0 == step_succeeds(step),
        res.1@ == step_summary(step),
        step_succeeds(step) ==> res.2 is None,
        !step_succeeds(step) ==> (res.2 matches Some(e) && e@ == match step_code(step) {
            Some(c) => c,
            None => detail@,
        }),
{
    let (success, summary, code): (bool, &str, Option<&str>) = match step {
        ProbeStep::BadArguments => (false, "参数无效", None),
        ProbeStep::ToolNotStarted => (false, "无法启动系统网络工具", None),
        ProbeStep::Cancelled => (false, "探测已取消", Some("cancelled")),
        ProbeStep::TimedOut => (false, "探测超时", Some("timeout")),
        ProbeStep::ScanNotStarted => (false, "无法启动证书扫描", None),
        ProbeStep::NoCertificate => (false, "TLS 握手失败或未返回证书", None),
        ProbeStep::ScanDone => (true, "证书扫描完成", None),
        ProbeStep::ScanFailed => (false, "证书扫描失败", None),
        ProbeStep::TcpConnectFailed => (false, "TCP 连接失败", Some("connection_failed")),
        ProbeStep::BadPayload => (false, "数据无效", None),
        ProbeStep::TcpSendFailed => (false, "TCP 发送失败", None),
        ProbeStep::TcpConnected => (true, "TCP 连接成功", None),
        ProbeStep::UdpSocketFailed => (false, "UDP 套接字创建失败", None),
        ProbeStep::UdpSendFailed => (false, "UDP 发送失败", None),
        ProbeStep::UdpAnswered => (true, "UDP 收到响应", None),
        ProbeStep::UdpNoResponse => (false, "UDP 已发送但未收到响应", Some("no_response")),
        ProbeStep::UdpReceiveFailed => (false, "UDP 接收失败", None),
        ProbeStep::HttpClientFailed => (false, "HTTP 客户端创建失败", None),
        ProbeStep::BadHeaders => (false, "请求头无效", None),
        ProbeStep::HttpRequestFailed => (false, "HTTP 请求失败", None),
        ProbeStep::BadWebSocketUrl => (false, "WebSocket URL 无效", None),
        ProbeStep::BadWebSocketRequest => (false, "WebSocket 请求无效", None),
        ProbeStep::WebSocketConnectFailed => (false, "WebSocket 连接失败", None),
        ProbeStep::WebSocketSendFailed => (false, "WebSocket 发送失败", None),
        ProbeStep::WebSocketConnected => (true, "WebSocket 连接成功", None),
        ProbeStep::UnknownTool => (false, "未知探测工具", Some("unknown_tool")),
    };
    let error = if success {
        None
    } else {
        match code {
            Some(c) => Some(owned(c)),
            None => Some(detail),
        }
    };
    (success, owned(summary), error)
}

} // verus!
