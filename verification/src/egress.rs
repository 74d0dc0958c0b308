//! The egress address and its location: which public IP address the probes agree on, where
//! the location databases place it, and whether a newer release is out.
//!
//! The probes themselves (HTTP, DNS, the location services and the offline database) run
//! outside the library; the functions here judge and combine what they return.
use crate::calls::{from_utf8_lossy, utf8_lossy};
use crate::ip::{ip_parse, ip_text, ip_text_string, parse_ip, IpValue};
use crate::text::{
    chars_of, contains_char, eq_ignore_ascii_case, eq_ignore_ascii_case_chars, join, join_chars,
    lines, lines_of, owned, push_all, push_str, push_view, split_char, split_of, str_eq, string_of,
    trim, trim_chars, trim_str, views,
};
use vstd::prelude::*;

verus! {

// ---------------------------------------------------------------------------
// Public addresses
// ---------------------------------------------------------------------------

/// An IPv4 address that is not public: private (10/8, 172.16/12, 192.168/16), loopback
/// (127/8), link-local (169.254/16), unspecified (0.0.0.0) or multicast (224/4).
pub open spec fn ipv4_special(o: Seq<u8>) -> bool {
    o[0] == 10 || (o[0] == 172 && 16 <= o[1] <= 31) || (o[0] == 192 && o[1] == 168) || o[0]
        == 127 || (o[0] == 169 && o[1] == 254) || (o[0] == 0 && o[1] == 0 && o[2] == 0 && o[3]
        == 0) || (224 <= o[0] <= 239)
}

/// An IPv6 address that is not public: unique local (fc00::/7), loopback (::1), unicast
/// link-local (fe80::/10), unspecified (::) or multicast (ff00::/8).
pub open spec fn ipv6_special(g: Seq<u16>) -> bool {
    let zero_head = g[0] == 0 && g[1] == 0 && g[2] == 0 && g[3] == 0 && g[4] == 0 && g[5] == 0
        && g[6] == 0;
    (0xfc00 <= g[0] <= 0xfdff) || (zero_head && g[7] == 1) || (0xfe80 <= g[0] <= 0xfebf) || (
    zero_head && g[7] == 0) || g[0] >= 0xff00
}

/// `validate_public_ip`: the canonical text of a public IP address.
pub open spec fn public_ip_spec(value: Seq<char>) -> Result<Seq<char>, Seq<char>> {
    match ip_parse(value) {
        None => Err("来源返回的不是有效 IP 地址"@),
        Some(a) => {
            let special = match a {
                IpValue::V4(o) => ipv4_special(o),
                IpValue::V6(g) => ipv6_special(g),
            };
            if special {
                Err("来源返回的不是公网 IP 地址"@)
            } else {
                Ok(ip_text(a))
            }
        },
    }
}

/// Checks that a probe returned a public IP address, and gives its canonical text.
pub fn validate_public_ip(value: &str) -> (res: Result<String, String>)
    ensures
        match res {
            Ok(t) => public_ip_spec(value@) == Ok::<Seq<char>, Seq<char>>(t@),
            Err(e) => public_ip_spec(value@) == Err::<Seq<char>, Seq<char>>(e@),
        },
{
    let a = match parse_ip(value) {
        Some(a) => a,
        None => {
            return Err(owned("来源返回的不是有效 IP 地址"));
        },
    };
    let special = match &a {
        crate::ip::IpAddress::V4(o) => {
            o[0] == 10 || (o[0] == 172 && 16 <= o[1] && o[1] <= 31) || (o[0] == 192 && o[1] == 168)
                || o[0] == 127 || (o[0] == 169 && o[1] == 254) || (o[0] == 0 && o[1] == 0 && o[2]
                == 0 && o[3] == 0) || (224 <= o[0] && o[0] <= 239)
        },
        crate::ip::IpAddress::V6(g) => {
            let zero_head = g[0] == 0 && g[1] == 0 && g[2] == 0 && g[3] == 0 && g[4] == 0 && g[5]
                == 0 && g[6] == 0;
            (0xfc00 <= g[0] && g[0] <= 0xfdff) || (zero_head && g[7] == 1) || (0xfe80 <= g[0]
                && g[0] <= 0xfebf) || (zero_head && g[7] == 0) || g[0] >= 0xff00
        },
    };
    if special {
        return Err(owned("来源返回的不是公网 IP 地址"));
    }
    Ok(ip_text_string(&a))
}

/// `public_ip_family`: a public address of the asked family (`IPv4` or `IPv6`, told apart
/// by whether its text holds `':'`).
pub open spec fn public_ip_family_spec(ip: Seq<char>, family: Seq<char>) -> Result<Seq<char>, Seq<char>> {
    match public_ip_spec(ip) {
        Err(e) => Err(e),
        Ok(t) => if (family == "IPv4"@ && !t.contains(':')) || (family == "IPv6"@ && t.contains(
            ':',
        )) {
            Ok(t)
        } else {
            Err("来源未返回 "@ + family + " 公网地址"@)
        },
    }
}

/// Checks that a probe returned a public address of the asked family.
pub fn public_ip_family(ip: &str, family: &str) -> (res: Result<String, String>)
    ensures
        match res {
            Ok(t) => public_ip_family_spec(ip@, family@) == Ok::<Seq<char>, Seq<char>>(t@),
            Err(e) => public_ip_family_spec(ip@, family@) == Err::<Seq<char>, Seq<char>>(e@),
        },
{
    let t = match validate_public_ip(ip) {
        Ok(t) => t,
        Err(e) => {
            return Err(e);
        },
    };
    let colon = contains_char(chars_of(t.as_str()).as_slice(), ':');
    if (str_eq(family, "IPv4") && !colon) || (str_eq(family, "IPv6") && colon) {
        return Ok(t);
    }
    let mut e = chars_of("来源未返回 ");
    push_str(&mut e, family);
    push_str(&mut e, " 公网地址");
    Err(string_of(e.as_slice()))
}

/// `select_trusted_public_ipv4`: the address as a `/32` source when the sources that
/// answered agree; refused when the HTTP and DNS answers differ or both failed.
pub open spec fn trusted_ipv4_spec(http: Result<Seq<char>, Seq<char>>, dns: Result<Seq<char>, Seq<char>>) -> Result<Seq<char>, Seq<char>> {
    match (http, dns) {
        (Ok(h), Ok(d)) => if h == d {
            Ok(h + "/32"@)
        } else {
            Err("公网 IPv4 多源探测结果不一致，已停止写入阿里云安全组：HTTP="@ + h + "，DNS="@ + d)
        },
        (Ok(h), Err(_)) => Ok(h + "/32"@),
        (Err(_), Ok(d)) => Ok(d + "/32"@),
        (Err(he), Err(de)) => Err(
            "所有公网 IPv4 探测源均失败，已停止写入阿里云安全组：HTTP："@ + he + "；DNS："@ + de,
        ),
    }
}

/// A text result as plain values.
pub open spec fn str_result(r: Result<String, String>) -> Result<Seq<char>, Seq<char>> {
    match r {
        Ok(x) => Ok(x@),
        Err(e) => Err(e@),
    }
}

/// Chooses the IPv4 source a managed rule is pointed at from the HTTP and DNS probes.
pub fn select_trusted_public_ipv4(http: Result<String, String>, dns: Result<String, String>) -> (res: Result<String, String>)
    ensures
        str_result(res) == trusted_ipv4_spec(str_result(http), str_result(dns)),
{
    match (http, dns) {
        (Ok(h), Ok(d)) => {
            if str_eq(h.as_str(), d.as_str()) {
                let mut r = chars_of(h.as_str());
                push_str(&mut r, "/32");
                Ok(string_of(r.as_slice()))
            } else {
                let mut e = chars_of("公网 IPv4 多源探测结果不一致，已停止写入阿里云安全组：HTTP=");
                push_str(&mut e, h.as_str());
                push_str(&mut e, "，DNS=");
                push_str(&mut e, d.as_str());
                Err(string_of(e.as_slice()))
            }
        },
        (Ok(h), Err(_)) => {
            let mut r = chars_of(h.as_str());
            push_str(&mut r, "/32");
            Ok(string_of(r.as_slice()))
        },
        (Err(_), Ok(d)) => {
            let mut r = chars_of(d.as_str());
            push_str(&mut r, "/32");
            Ok(string_of(r.as_slice()))
        },
        (Err(he), Err(de)) => {
            let mut e = chars_of("所有公网 IPv4 探测源均失败，已停止写入阿里云安全组：HTTP：");
            push_str(&mut e, he.as_str());
            push_str(&mut e, "；DNS：");
            push_str(&mut e, de.as_str());
            Err(string_of(e.as_slice()))
        },
    }
}

/// What an HTTP source's reply gives: on failure, what it printed on its error stream, read
/// as UTF-8 and trimmed; otherwise the trimmed text it printed, checked as a public address.
pub open spec fn source_reply_spec(success: bool, stdout: Seq<u8>, stderr: Seq<u8>) -> Result<Seq<char>, Seq<char>> {
    if !success {
        Err(trim(utf8_lossy(stderr)))
    } else {
        public_ip_spec(trim(utf8_lossy(stdout)))
    }
}

/// Reads the reply of an HTTP source of the public address.
pub fn source_reply(success: bool, stdout: &[u8], stderr: &[u8]) -> (res: Result<String, String>)
    ensures
        match res {
            Ok(t) => source_reply_spec(success, stdout@, stderr@) == Ok::<Seq<char>, Seq<char>>(t@),
            Err(e) => source_reply_spec(success, stdout@, stderr@) == Err::<Seq<char>, Seq<char>>(e@),
        },
{
    if !success {
        let text = from_utf8_lossy(stderr);
        return Err(string_of(trim_str(text.as_str()).as_slice()));
    }
    let text = from_utf8_lossy(stdout);
    let value = string_of(trim_str(text.as_str()).as_slice());
    validate_public_ip(value.as_str())
}

/// One HTTP source tried in turn: a reply that holds a public address of the family is
/// taken; otherwise the source's URL and error are added to the errors so far.
pub fn source_attempt(errors: &mut Vec<(String, String)>, url: &str, reply: Result<String, String>, family: &str) -> (res: Option<String>)
    ensures
        match reply {
            Ok(ip) => match public_ip_family_spec(ip@, family@) {
                Ok(t) => res matches Some(r) && r@ == t && final(errors)@ == old(errors)@,
                Err(e) => res is None && final(errors)@.len() == old(errors)@.len() + 1
                    && final(errors)@.drop_last() == old(errors)@
                    && final(errors)@.last().0@ == url@ && final(errors)@.last().1@ == e,
            },
            Err(e) => res is None && final(errors)@.len() == old(errors)@.len() + 1
                && final(errors)@.drop_last() == old(errors)@
                && final(errors)@.last().0@ == url@ && final(errors)@.last().1@ == e@,
        },
{
    let checked = match reply {
        Ok(ip) => public_ip_family(ip.as_str(), family),
        Err(e) => Err(e),
    };
    match checked {
        Ok(t) => Some(t),
        Err(e) => {
            errors.push((owned(url), e));
            assert(errors@.drop_last() == old(errors)@);
            None
        },
    }
}

/// The error when every HTTP source failed: each source's URL and error, joined with `；`.
pub open spec fn http_sources_error_spec(errors: Seq<(Seq<char>, Seq<char>)>) -> Seq<char> {
    "所有 HTTP 探测源均失败："@ + join(
        errors.map_values(|x: (Seq<char>, Seq<char>)| x.0 + "："@ + x.1),
        "；"@,
    )
}

/// The error when every HTTP source failed, from each source's URL and error.
pub fn http_sources_error(errors: &[(String, String)]) -> (res: String)
    ensures
        res@ == http_sources_error_spec(errors@.map_values(|x: (String, String)| (x.0@, x.1@))),
{
    let ghost ev = errors@.map_values(|x: (String, String)| (x.0@, x.1@));
    let ghost texts = ev.map_values(|x: (Seq<char>, Seq<char>)| x.0 + "："@ + x.1);
    let mut parts: Vec<Vec<char>> = Vec::new();
    let mut i: usize = 0;
    while i < errors.len()
        invariant
            i <= errors.len(),
            ev == errors@.map_values(|x: (String, String)| (x.0@, x.1@)),
            texts == ev.map_values(|x: (Seq<char>, Seq<char>)| x.0 + "："@ + x.1),
            views(parts@) == texts.take(i as int),
        decreases errors.len() - i,
    {
        let mut t = chars_of(errors[i].0.as_str());
        push_str(&mut t, "：");
        push_str(&mut t, errors[i].1.as_str());
        assert(t@ == texts[i as int]);
        push_view(&mut parts, t);
        i += 1;
        assert(texts.take(i as int) == texts.take(i - 1).push(texts[i - 1]));
    }
    assert(texts.take(errors.len() as int) == texts);
    let sep = chars_of("；");
    let joined = join_chars(&parts, sep.as_slice());
    let mut e = chars_of("所有 HTTP 探测源均失败：");
    push_all(&mut e, joined.as_slice());
    string_of(e.as_slice())
}

/// A line that is not empty once trimmed.
pub open spec fn nonblank() -> spec_fn(Seq<char>) -> bool {
    |l: Seq<char>| trim(l).len() > 0
}

/// The answer of the DNS probe: its first line that is not blank, trimmed.
pub open spec fn dns_answer_spec(output: Seq<char>) -> Result<Seq<char>, Seq<char>> {
    let ls = lines(output);
    let i = crate::text::first_where(ls, nonblank());
    if i < 0 {
        Err("DNS 未返回 IP 地址"@)
    } else {
        Ok(trim(ls[i]))
    }
}

/// The answer of the DNS probe in its output.
pub fn dns_answer(output: &str) -> (res: Result<String, String>)
    ensures
        str_result(res) == dns_answer_spec(output@),
{
    let cs = chars_of(output);
    let ls = lines_of(cs.as_slice());
    let ghost lv = views(ls@);
    let mut i: usize = 0;
    while i < ls.len()
        invariant
            i <= ls.len(),
            lv == views(ls@),
            lv == lines(output@),
            forall|j: int| 0 <= j < i ==> !(nonblank())(#[trigger] lv[j]),
        decreases ls.len() - i,
    {
        assert(lv[i as int] == ls@[i as int]@);
        let t = trim_chars(ls[i].as_slice());
        if t.len() > 0 {
            proof {
                crate::text::lemma_first_where_at(lv, nonblank(), i as int);
            }
            return Ok(string_of(t.as_slice()));
        }
        i += 1;
    }
    proof {
        crate::text::lemma_first_where_at(lv, nonblank(), lv.len() as int);
    }
    Err(owned("DNS 未返回 IP 地址"))
}

// ---------------------------------------------------------------------------
// Locations
// ---------------------------------------------------------------------------

/// Where an address is, and how sure that is.
#[derive(Clone, Debug)]
pub struct GeoLocation {
    pub country: String,
    pub country_code: String,
    pub region: String,
    pub city: String,
    pub isp: String,
    pub source: String,
    pub confidence: String,
}

/// A location as plain values.
pub struct GeoView {
    pub country: Seq<char>,
    pub country_code: Seq<char>,
    pub region: Seq<char>,
    pub city: Seq<char>,
    pub isp: Seq<char>,
    pub source: Seq<char>,
    pub confidence: Seq<char>,
}

impl View for GeoLocation {
    type V = GeoView;

    open spec fn view(&self) -> GeoView {
        GeoView {
            country: self.country@,
            country_code: self.country_code@,
            region: self.region@,
            city: self.city@,
            isp: self.isp@,
            source: self.source@,
            confidence: self.confidence@,
        }
    }
}

/// Field `i` of an offline record, trimmed; empty when it is missing or `0`.
pub open spec fn record_field(fields: Seq<Seq<char>>, i: int) -> Seq<char> {
    if 0 <= i < fields.len() && trim(fields[i]) != "0"@ {
        trim(fields[i])
    } else {
        seq![]
    }
}

/// `parse_ip2region_location`: a record `country|region|city|isp|code` of the offline
/// database; none when the country is empty, `0` or `reserved` in any ASCII case.
pub open spec fn ip2region_spec(value: Seq<char>) -> Option<GeoView> {
    let fields = split_char(value, '|');
    let country = trim(fields[0]);
    if country.len() == 0 || country == "0"@ || eq_ignore_ascii_case(country, "reserved"@) {
        None
    } else {
        Some(
            GeoView {
                country,
                country_code: record_field(fields, 4),
                region: record_field(fields, 1),
                city: record_field(fields, 2),
                isp: record_field(fields, 3),
                source: "ip2region 离线库"@,
                confidence: "离线兜底"@,
            },
        )
    }
}

fn record_field_exec(fields: &Vec<Vec<char>>, i: usize) -> (res: String)
    ensures
        res@ == record_field(views(fields@), i as int),
{
    if i < fields.len() {
        assert(views(fields@)[i as int] == fields@[i as int]@);
        let t = trim_chars(fields[i].as_slice());
        let zero = chars_of("0");
        if !crate::text::chars_eq(t.as_slice(), zero.as_slice()) {
            return string_of(t.as_slice());
        }
    }
    String::new()
}

/// Reads a record of the offline location database.
pub fn parse_ip2region_location(value: &str) -> (res: Option<GeoLocation>)
    ensures
        match res {
            Some(g) => ip2region_spec(value@) == Some(g@),
            None => ip2region_spec(value@) is None,
        },
{
    let cs = chars_of(value);
    let fields = split_of(cs.as_slice(), '|');
    assert(views(fields@)[0] == fields@[0]@);
    let country = trim_chars(fields[0].as_slice());
    let zero = chars_of("0");
    let reserved = chars_of("reserved");
    if country.len() == 0 || crate::text::chars_eq(country.as_slice(), zero.as_slice())
        || eq_ignore_ascii_case_chars(country.as_slice(), reserved.as_slice()) {
        return None;
    }
    Some(
        GeoLocation {
            country: string_of(country.as_slice()),
            country_code: record_field_exec(&fields, 4),
            region: record_field_exec(&fields, 1),
            city: record_field_exec(&fields, 2),
            isp: record_field_exec(&fields, 3),
            source: owned("ip2region 离线库"),
            confidence: owned("离线兜底"),
        },
    )
}

/// A location as one online service reports it.
#[derive(Clone, Debug)]
pub struct OnlineGeoLocation {
    pub country: String,
    pub country_code: String,
    pub region: String,
    pub city: String,
    pub isp: String,
    pub source: String,
}

/// An online location as plain values.
pub struct OnlineView {
    pub country: Seq<char>,
    pub country_code: Seq<char>,
    pub region: Seq<char>,
    pub city: Seq<char>,
    pub isp: Seq<char>,
    pub source: Seq<char>,
}

impl View for OnlineGeoLocation {
    type V = OnlineView;

    open spec fn view(&self) -> OnlineView {
        OnlineView {
            country: self.country@,
            country_code: self.country_code@,
            region: self.region@,
            city: self.city@,
            isp: self.isp@,
            source: self.source@,
        }
    }
}

/// A response field as the services' readers take it: trimmed, and absent when empty.
pub open spec fn present(o: Option<Seq<char>>) -> Option<Seq<char>> {
    match o {
        Some(s) => if trim(s).len() > 0 {
            Some(trim(s))
        } else {
            None
        },
        None => None,
    }
}

/// An optional text as plain values.
pub open spec fn opt_view(o: Option<String>) -> Option<Seq<char>> {
    match o {
        Some(s) => Some(s@),
        None => None,
    }
}

/// A field trimmed, absent when empty.
pub fn present_field(o: Option<String>) -> (res: Option<String>)
    ensures
        opt_view(res) == present(opt_view(o)),
{
    match o {
        Some(s) => {
            let t = trim_str(s.as_str());
            if t.len() > 0 {
                Some(string_of(t.as_slice()))
            } else {
                None
            }
        },
        None => None,
    }
}

/// The fields of a location service's response.
#[derive(Clone, Debug)]
pub struct LocationFields {
    pub success: Option<bool>,
    pub message: Option<String>,
    pub ip: Option<String>,
    pub country: Option<String>,
    pub country_code: Option<String>,
    pub region: Option<String>,
    pub city: Option<String>,
    /// The provider's name of the network, tried first.
    pub isp: Option<String>,
    /// The organization, taken when there is no `isp`.
    pub org: Option<String>,
}

/// A location service's answer for `ip`, from service `name` (its messages name it) with
/// source label `source`: refused when the service reports failure (its message, else a
/// default), names another address, or omits the country or its code.
pub open spec fn online_location_spec(
    name: Seq<char>,
    source: Seq<char>,
    ip: Seq<char>,
    success: Option<bool>,
    message: Option<Seq<char>>,
    resp_ip: Option<Seq<char>>,
    country: Option<Seq<char>>,
    country_code: Option<Seq<char>>,
    region: Option<Seq<char>>,
    city: Option<Seq<char>>,
    isp: Option<Seq<char>>,
    org: Option<Seq<char>>,
) -> Result<OnlineView, Seq<char>> {
    if success == Some(false) {
        Err(
            match present(message) {
                Some(m) => m,
                None => name + " 返回失败"@,
            },
        )
    } else if present(resp_ip) != Some(ip) {
        Err(name + " 返回的 IP 不匹配"@)
    } else if present(country) is None {
        Err(name + " 未返回国家"@)
    } else if present(country_code) is None {
        Err(name + " 未返回国家代码"@)
    } else {
        Ok(
            OnlineView {
                country: present(country)->Some_0,
                country_code: present(country_code)->Some_0,
                region: match present(region) {
                    Some(r) => r,
                    None => seq![],
                },
                city: match present(city) {
                    Some(c) => c,
                    None => seq![],
                },
                isp: match present(isp) {
                    Some(x) => x,
                    None => match present(org) {
                        Some(x) => x,
                        None => seq![],
                    },
                },
                source,
            },
        )
    }
}

fn text_or_empty(o: Option<String>) -> (res: String)
    ensures
        res@ == (match opt_view(o) {
            Some(s) => s,
            None => Seq::<char>::empty(),
        }),
{
    match o {
        Some(s) => s,
        None => String::new(),
    }
}

fn name_with(name: &str, tail: &str) -> (res: String)
    ensures
        res@ == name@ + tail@,
{
    let mut e = chars_of(name);
    push_str(&mut e, tail);
    string_of(e.as_slice())
}

/// Reads a location service's answer for `ip`.
pub fn online_location(name: &str, source: &str, ip: &str, f: LocationFields) -> (res: Result<OnlineGeoLocation, String>)
    ensures
        match res {
            Ok(l) => online_location_spec(
                name@,
                source@,
                ip@,
                f.success,
                opt_view(f.message),
                opt_view(f.ip),
                opt_view(f.country),
                opt_view(f.country_code),
                opt_view(f.region),
                opt_view(f.city),
                opt_view(f.isp),
                opt_view(f.org),
            ) == Ok::<OnlineView, Seq<char>>(l@),
            Err(e) => online_location_spec(
                name@,
                source@,
                ip@,
                f.success,
                opt_view(f.message),
                opt_view(f.ip),
                opt_view(f.country),
                opt_view(f.country_code),
                opt_view(f.region),
                opt_view(f.city),
                opt_view(f.isp),
                opt_view(f.org),
            ) == Err::<OnlineView, Seq<char>>(e@),
        },
{
    let failed = match f.success {
        Some(b) => !b,
        None => false,
    };
    if failed {
        return Err(
            match present_field(f.message) {
                Some(m) => m,
                None => name_with(name, " 返回失败"),
            },
        );
    }
    let same = match present_field(f.ip) {
        Some(x) => str_eq(x.as_str(), ip),
        None => false,
    };
    if !same {
        return Err(name_with(name, " 返回的 IP 不匹配"));
    }
    let country = match present_field(f.country) {
        Some(c) => c,
        None => {
            return Err(name_with(name, " 未返回国家"));
        },
    };
    let country_code = match present_field(f.country_code) {
        Some(c) => c,
        None => {
            return Err(name_with(name, " 未返回国家代码"));
        },
    };
    let isp = match present_field(f.isp) {
        Some(x) => x,
        None => text_or_empty(present_field(f.org)),
    };
    Ok(
        OnlineGeoLocation {
            country,
            country_code,
            region: text_or_empty(present_field(f.region)),
            city: text_or_empty(present_field(f.city)),
            isp,
            source: owned(source),
        },
    )
}

/// The location from the two online services: when both answer with the same country code
/// (ASCII case ignored), the first's country and network, with region and city only when
/// both agree on a nonempty city and the region; when they disagree, the first's country
/// without region or city; the one that answered when the other failed; an error naming
/// both failures otherwise.
pub open spec fn combine_spec(first: Result<OnlineView, Seq<char>>, second: Result<OnlineView, Seq<char>>) -> Result<GeoView, Seq<char>> {
    match (first, second) {
        (Ok(a), Ok(b)) => if eq_ignore_ascii_case(a.country_code, b.country_code) {
            let city_matches = a.city.len() > 0 && eq_ignore_ascii_case(a.city, b.city)
                && eq_ignore_ascii_case(a.region, b.region);
            Ok(
                GeoView {
                    country: a.country,
                    country_code: a.country_code,
                    region: if city_matches {
                        a.region
                    } else {
                        seq![]
                    },
                    city: if city_matches {
                        a.city
                    } else {
                        seq![]
                    },
                    isp: a.isp,
                    source: a.source + "、"@ + b.source,
                    confidence: if city_matches {
                        "在线双源一致"@
                    } else {
                        "在线国家一致，城市有差异"@
                    },
                },
            )
        } else {
            Ok(
                GeoView {
                    country: a.country,
                    country_code: a.country_code,
                    region: seq![],
                    city: seq![],
                    isp: a.isp,
                    source: a.source + "、"@ + b.source,
                    confidence: "在线来源不一致"@,
                },
            )
        },
        (Ok(a), Err(_)) => Ok(single_source(a)),
        (Err(_), Ok(b)) => Ok(single_source(b)),
        (Err(x), Err(y)) => Err("在线归属地查询失败："@ + x + "；"@ + y),
    }
}

/// The location one online service gave, as the only answer.
pub open spec fn single_source(a: OnlineView) -> GeoView {
    GeoView {
        country: a.country,
        country_code: a.country_code,
        region: a.region,
        city: a.city,
        isp: a.isp,
        source: a.source,
        confidence: "在线单源"@,
    }
}

/// An online answer or its error as plain values.
pub open spec fn online_result(r: Result<OnlineGeoLocation, String>) -> Result<OnlineView, Seq<char>> {
    match r {
        Ok(x) => Ok(x@),
        Err(e) => Err(e@),
    }
}

fn single_source_exec(a: OnlineGeoLocation) -> (res: GeoLocation)
    ensures
        res@ == single_source(a@),
{
    GeoLocation {
        country: a.country,
        country_code: a.country_code,
        region: a.region,
        city: a.city,
        isp: a.isp,
        source: a.source,
        confidence: owned("在线单源"),
    }
}

fn str_eq_ignore_case(a: &str, b: &str) -> (res: bool)
    ensures
        res == eq_ignore_ascii_case(a@, b@),
{
    eq_ignore_ascii_case_chars(chars_of(a).as_slice(), chars_of(b).as_slice())
}

/// Combines the answers of the two online location services.
pub fn combine_online_locations(first: Result<OnlineGeoLocation, String>, second: Result<OnlineGeoLocation, String>) -> (res: Result<GeoLocation, String>)
    ensures
        match res {
            Ok(g) => combine_spec(online_result(first), online_result(second)) == Ok::<
                GeoView,
                Seq<char>,
            >(g@),
            Err(e) => combine_spec(online_result(first), online_result(second)) == Err::<
                GeoView,
                Seq<char>,
            >(e@),
        },
{
    match (first, second) {
        (Ok(a), Ok(b)) => {
            let source = name_with(a.source.as_str(), "、");
            let source = name_with(source.as_str(), b.source.as_str());
            if str_eq_ignore_case(a.country_code.as_str(), b.country_code.as_str()) {
                let city_matches = !a.city.as_str().is_empty() && str_eq_ignore_case(
                    a.city.as_str(),
                    b.city.as_str(),
                ) && str_eq_ignore_case(a.region.as_str(), b.region.as_str());
                Ok(
                    GeoLocation {
                        country: a.country,
                        country_code: a.country_code,
                        region: if city_matches {
                            a.region
                        } else {
                            String::new()
                        },
                        city: if city_matches {
                            a.city
                        } else {
                            String::new()
                        },
                        isp: a.isp,
                        source,
                        confidence: if city_matches {
                            owned("在线双源一致")
                        } else {
                            owned("在线国家一致，城市有差异")
                        },
                    },
                )
            } else {
                Ok(
                    GeoLocation {
                        country: a.country,
                        country_code: a.country_code,
                        region: String::new(),
                        city: String::new(),
                        isp: a.isp,
                        source,
                        confidence: owned("在线来源不一致"),
                    },
                )
            }
        },
        (Ok(a), Err(_)) => Ok(single_source_exec(a)),
        (Err(_), Ok(b)) => Ok(single_source_exec(b)),
        (Err(x), Err(y)) => {
            let mut e = chars_of("在线归属地查询失败：");
            push_str(&mut e, x.as_str());
            push_str(&mut e, "；");
            push_str(&mut e, y.as_str());
            Err(string_of(e.as_slice()))
        },
    }
}

// ---------------------------------------------------------------------------
// Combining the probes of one address family
// ---------------------------------------------------------------------------

/// The source label of the DNS probe.
pub open spec fn dns_source() -> Seq<char> {
    "DNS/TCP · 208.67.222.222"@
}

/// What the probes of one family found: the addresses to locate, each with the probes that
/// saw it, how far they agree, and the probe errors.
#[derive(Clone, Debug)]
pub struct RouteOutcome {
    pub addresses: Vec<(String, String)>,
    pub confidence: String,
    pub error: Option<String>,
}

/// The outcome of the HTTP probe (address and URL) and the DNS probe: one address seen by
/// both, two differing ones, the one that answered, or none.
pub open spec fn route_spec(http: Result<(Seq<char>, Seq<char>), Seq<char>>, dns: Result<Seq<char>, Seq<char>>) -> (Seq<(Seq<char>, Seq<char>)>, Seq<char>, Option<Seq<char>>) {
    match (http, dns) {
        (Ok((h, url)), Ok(d)) => if h == d {
            (seq![(h, "HTTP · "@ + url + "；"@ + dns_source())], "HTTP 与 DNS 一致"@, None)
        } else {
            (seq![(h, "HTTP · "@ + url), (d, dns_source())], "HTTP 与 DNS 不一致"@, None)
        },
        (Ok((h, url)), Err(de)) => (
            seq![(h, "HTTP · "@ + url)],
            "仅 HTTP 成功"@,
            Some("DNS/TCP 探测失败："@ + de),
        ),
        (Err(he), Ok(d)) => (seq![(d, dns_source())], "仅 DNS 成功"@, Some("HTTP 探测失败："@ + he)),
        (Err(he), Err(de)) => (
            seq![],
            "探测失败"@,
            Some("HTTP："@ + he + "；DNS/TCP："@ + de),
        ),
    }
}

fn join3(a: &str, b: &str, c: &str) -> (res: String)
    ensures
        res@ == a@ + b@ + c@,
{
    let mut e = chars_of(a);
    push_str(&mut e, b);
    push_str(&mut e, c);
    string_of(e.as_slice())
}

/// Combines the HTTP and DNS probes of one address family.
pub fn route_outcome(http: Result<(String, String), String>, dns: Result<String, String>) -> (res: RouteOutcome)
    ensures
        ({
            let (addrs, confidence, error) = route_spec(
                match http {
                    Ok((h, u)) => Ok((h@, u@)),
                    Err(e) => Err(e@),
                },
                str_result(dns),
            );
            res.addresses@.map_values(|x: (String, String)| (x.0@, x.1@)) == addrs
                && res.confidence@ == confidence && opt_view(res.error) == error
        }),
{
    let dns_label = "DNS/TCP · 208.67.222.222";
    match (http, dns) {
        (Ok((h, url)), Ok(d)) => {
            if str_eq(h.as_str(), d.as_str()) {
                let label = join3("HTTP · ", url.as_str(), "；");
                let label = name_with(label.as_str(), dns_label);
                let mut a: Vec<(String, String)> = Vec::new();
                a.push((h, label));
                RouteOutcome { addresses: a, confidence: owned("HTTP 与 DNS 一致"), error: None }
            } else {
                let mut a: Vec<(String, String)> = Vec::new();
                a.push((h, name_with("HTTP · ", url.as_str())));
                a.push((d, owned(dns_label)));
                RouteOutcome { addresses: a, confidence: owned("HTTP 与 DNS 不一致"), error: None }
            }
        },
        (Ok((h, url)), Err(de)) => {
            let mut a: Vec<(String, String)> = Vec::new();
            a.push((h, name_with("HTTP · ", url.as_str())));
            RouteOutcome {
                addresses: a,
                confidence: owned("仅 HTTP 成功"),
                error: Some(name_with("DNS/TCP 探测失败：", de.as_str())),
            }
        },
        (Err(he), Ok(d)) => {
            let mut a: Vec<(String, String)> = Vec::new();
            a.push((d, owned(dns_label)));
            RouteOutcome {
                addresses: a,
                confidence: owned("仅 DNS 成功"),
                error: Some(name_with("HTTP 探测失败：", he.as_str())),
            }
        },
        (Err(he), Err(de)) => {
            let e = join3("HTTP：", he.as_str(), "；DNS/TCP：");
            RouteOutcome {
                addresses: Vec::new(),
                confidence: owned("探测失败"),
                error: Some(name_with(e.as_str(), de.as_str())),
            }
        },
    }
}

/// Which IPv4 addresses a probe may report: every address is accepted as public, in its
/// canonical text, except those in 10.0.0.0/8, 172.16.0.0/12, 192.168.0.0/16, 127.0.0.0/8,
/// 169.254.0.0/16, 224.0.0.0/4 and the address 0.0.0.0, which are refused as not public.
pub proof fn law_public_ipv4(value: Seq<char>, a: u8, b: u8, c: u8, d: u8)
    requires
        ip_parse(value) == Some(IpValue::V4(seq![a, b, c, d])),
    ensures
        ({
            let reserved = a == 10 || (a == 172 && b / 16 == 1) || (a == 192 && b == 168) || a == 127
                || (a == 169 && b == 254) || a / 16 == 14 || (a == 0 && b == 0 && c == 0 && d == 0);
            &&& reserved ==> public_ip_spec(value) == Err::<Seq<char>, Seq<char>>(
                "来源返回的不是公网 IP 地址"@,
            )
            &&& !reserved ==> public_ip_spec(value) == Ok::<Seq<char>, Seq<char>>(
                ip_text(IpValue::V4(seq![a, b, c, d])),
            )
        }),
{
}

/// Which IPv6 addresses a probe may report: every address is accepted as public, in its
/// canonical text, except unique local ones (fc00::/7), link-local ones (fe80::/10),
/// multicast ones (ff00::/8), `::1` and `::`, which are refused as not public.
pub proof fn law_public_ipv6(value: Seq<char>, g: Seq<u16>)
    requires
        ip_parse(value) == Some(IpValue::V6(g)),
        g.len() == 8,
    ensures
        ({
            let low_zero = forall|k: int| 0 <= k < 7 ==> #[trigger] g[k] == 0;
            let reserved = g[0] / 512 == 0x7e || g[0] / 64 == 0x3fa || g[0] / 256 == 0xff || (
            low_zero && g[7] <= 1);
            &&& reserved ==> public_ip_spec(value) == Err::<Seq<char>, Seq<char>>(
                "来源返回的不是公网 IP 地址"@,
            )
            &&& !reserved ==> public_ip_spec(value) == Ok::<Seq<char>, Seq<char>>(ip_text(IpValue::V6(g)))
        }),
{
    assert((forall|k: int| 0 <= k < 7 ==> #[trigger] g[k] == 0) == (g[0] == 0 && g[1] == 0 && g[2]
        == 0 && g[3] == 0 && g[4] == 0 && g[5] == 0 && g[6] == 0));
}

} // verus!
