//! Alibaba Cloud accounts and the security-group rules DomainEgress manages: signing ECS and
//! STS requests, checking what a user enters, and the bookkeeping of accounts and managed
//! rules.
//!
//! The network calls, the macOS keychain and the files that hold accounts and rules stay
//! outside the library; the functions here take what those return.
use crate::calls::{
    base64_encode, base64_standard, hmac_sha1, hmac_sha1_tag, new_uuid, timestamp_text, utc_timestamp,
    uuid_text,
};
use crate::calls::{to_uppercase, unicode_uppercase};
use crate::ip::{ipv4_parse, parse_ipv4_chars};
use crate::text::{
    all_ascii_alnum, char_utf8_len, chars_of, char_from_ascii, ends_with, ends_with_chars,
    is_ascii, is_ascii_alnum, is_ascii_chars, join, join_chars, owned, parse_uint_result, push_all,
    push_str, push_view, slice_of, split_char, split_of, str_eq, string_of, strip_suffix, trim,
    trim_str, uint_parse, utf8_len, utf8_len_exceeds, views,
};
use vstd::prelude::*;
use vstd::utf8::encode_utf8;

verus! {

// ---------------------------------------------------------------------------
// Percent-encoding (RFC 3986)
// ---------------------------------------------------------------------------

/// A byte left as it is: an ASCII letter or digit, `-`, `_`, `.` or `~`.
pub open spec fn is_unreserved(b: u8) -> bool {
    (65 <= b <= 90) || (97 <= b <= 122) || (48 <= b <= 57) || b == 45 || b == 95 || b == 46 || b
        == 126
}

/// An upper-case hexadecimal digit.
pub open spec fn hex_upper_digit(d: nat) -> char {
    if d < 10 {
        (('0' as u32) + d) as char
    } else {
        (('A' as u32) + (d - 10)) as char
    }
}

/// One byte encoded: itself when unreserved, else `%` and two upper-case hex digits.
pub open spec fn encode_byte(b: u8) -> Seq<char> {
    if is_unreserved(b) {
        seq![(b as u32) as char]
    } else {
        seq!['%', hex_upper_digit(b as nat / 16), hex_upper_digit(b as nat % 16)]
    }
}

/// Bytes percent-encoded one by one.
pub open spec fn percent_encode_bytes(b: Seq<u8>) -> Seq<char>
    decreases b.len(),
{
    if b.len() == 0 {
        seq![]
    } else {
        percent_encode_bytes(b.drop_last()) + encode_byte(b.last())
    }
}

/// The UTF-8 bytes of a text, percent-encoded.
pub open spec fn pct(s: Seq<char>) -> Seq<char> {
    percent_encode_bytes(encode_utf8(s))
}

fn hex_upper_char(d: u8) -> (res: char)
    requires
        d < 16,
    ensures
        res == hex_upper_digit(d as nat),
{
    if d < 10 {
        char_from_ascii(48 + d as u32)
    } else {
        char_from_ascii(65 + (d - 10) as u32)
    }
}

/// Percent-encodes a text the way Alibaba Cloud's signature version 1.0 asks.
pub fn percent_encode(value: &str) -> (res: String)
    ensures
        res@ == pct(value@),
{
    let bytes = value.as_bytes();
    assert(bytes@ == encode_utf8(value@));
    let mut out: Vec<char> = Vec::new();
    let mut i: usize = 0;
    while i < bytes.len()
        invariant
            i <= bytes.len(),
            out@ == percent_encode_bytes(bytes@.take(i as int)),
        decreases bytes.len() - i,
    {
        let b = bytes[i];
        assert(bytes@.take(i + 1).drop_last() == bytes@.take(i as int));
        if (65 <= b && b <= 90) || (97 <= b && b <= 122) || (48 <= b && b <= 57) || b == 45 || b
            == 95 || b == 46 || b == 126 {
            out.push(char_from_ascii(b as u32));
        } else {
            out.push('%');
            out.push(hex_upper_char(b / 16));
            out.push(hex_upper_char(b % 16));
        }
        i += 1;
    }
    assert(bytes@.take(bytes.len() as int) == bytes@);
    string_of(out.as_slice())
}

/// Percent-decoding: `%` and two hexadecimal digits give the byte they denote; any other
/// character gives its code as a byte.
pub open spec fn percent_decode(s: Seq<char>) -> Seq<u8>
    decreases s.len(),
{
    if s.len() == 0 {
        seq![]
    } else if s[0] == '%' && s.len() >= 3 {
        seq![(crate::text::hex_char_value(s[1]) * 16 + crate::text::hex_char_value(s[2])) as u8]
            + percent_decode(s.skip(3))
    } else {
        seq![(s[0] as u32) as u8] + percent_decode(s.skip(1))
    }
}

/// A character of percent-encoded text: an unreserved character or `%`.
pub open spec fn encoded_char(c: char) -> bool {
    is_unreserved((c as u32) as u8) && (c as u32) < 128 || c == '%'
}

proof fn lemma_decode_byte(b: u8, rest: Seq<char>)
    ensures
        percent_decode(encode_byte(b) + rest) == seq![b] + percent_decode(rest),
        forall|k: int| 0 <= k < encode_byte(b).len() ==> encoded_char(#[trigger] encode_byte(b)[k]),
{
    let e = encode_byte(b);
    let s = e + rest;
    if is_unreserved(b) {
        assert(s[0] == (b as u32) as char);
        assert(s.skip(1) == rest);
    } else {
        let hi = b as nat / 16;
        let lo = b as nat % 16;
        assert(s[0] == '%');
        assert(s[1] == hex_upper_digit(hi));
        assert(s[2] == hex_upper_digit(lo));
        assert(crate::text::hex_char_value(hex_upper_digit(hi)) == hi);
        assert(crate::text::hex_char_value(hex_upper_digit(lo)) == lo);
        assert(s.skip(3) == rest);
        assert(hi * 16 + lo == b);
    }
}

proof fn lemma_decode_bytes(x: Seq<u8>, rest: Seq<char>)
    ensures
        percent_decode(percent_encode_bytes(x) + rest) == x + percent_decode(rest),
        forall|k: int| 0 <= k < percent_encode_bytes(x).len() ==> encoded_char(#[trigger] percent_encode_bytes(x)[k]),
    decreases x.len(),
{
    if x.len() == 0 {
        assert(percent_encode_bytes(x) + rest == rest);
        assert(x + percent_decode(rest) == percent_decode(rest));
    } else {
        let init = x.drop_last();
        let l = x.last();
        lemma_decode_byte(l, rest);
        lemma_decode_bytes(init, encode_byte(l) + rest);
        assert(percent_encode_bytes(x) + rest == percent_encode_bytes(init) + (encode_byte(l) + rest));
        assert(init + (seq![l] + percent_decode(rest)) == x + percent_decode(rest));
        let a = percent_encode_bytes(init);
        let e = encode_byte(l);
        assert forall|k: int| 0 <= k < percent_encode_bytes(x).len() implies encoded_char(
            #[trigger] percent_encode_bytes(x)[k],
        ) by {
            if k < a.len() {
                assert(percent_encode_bytes(x)[k] == a[k]);
                lemma_decode_bytes(init, rest);
            } else {
                assert(percent_encode_bytes(x)[k] == e[k - a.len()]);
            }
        }
    }
}

/// Unreserved bytes are written as they are.
proof fn lemma_encode_unreserved(x: Seq<u8>)
    requires
        forall|k: int| 0 <= k < x.len() ==> is_unreserved(#[trigger] x[k]),
    ensures
        percent_encode_bytes(x) == x.map_values(|b: u8| (b as u32) as char),
    decreases x.len(),
{
    if x.len() > 0 {
        let init = x.drop_last();
        assert forall|k: int| 0 <= k < init.len() implies is_unreserved(#[trigger] init[k]) by {
            assert(init[k] == x[k]);
        }
        lemma_encode_unreserved(init);
        assert(is_unreserved(x[x.len() - 1]));
        assert(x.map_values(|b: u8| (b as u32) as char) == init.map_values(|b: u8| (b as u32) as char).push(
            (x.last() as u32) as char,
        ));
    }
}

/// An upper-case hexadecimal digit character.
pub open spec fn is_upper_hex(c: char) -> bool {
    ('0' <= c && c <= '9') || ('A' <= c && c <= 'F')
}

/// Every `%` is followed by two upper-case hexadecimal digits.
pub open spec fn escapes_well_formed(t: Seq<char>) -> bool {
    forall|k: int|
        0 <= k < t.len() && #[trigger] t[k] == '%' ==> k + 2 < t.len() && is_upper_hex(t[k + 1])
            && is_upper_hex(t[k + 2])
}

/// A character written as it is: an ASCII letter or digit, `-`, `_`, `.` or `~`.
pub open spec fn is_unreserved_char(c: char) -> bool {
    ('A' <= c && c <= 'Z') || ('a' <= c && c <= 'z') || ('0' <= c && c <= '9') || c == '-' || c
        == '_' || c == '.' || c == '~'
}

proof fn lemma_hex_upper_digit(d: nat)
    requires
        d < 16,
    ensures
        is_upper_hex(hex_upper_digit(d)),
{
}

proof fn lemma_escapes_bytes(x: Seq<u8>)
    ensures
        escapes_well_formed(percent_encode_bytes(x)),
    decreases x.len(),
{
    if x.len() > 0 {
        let init = x.drop_last();
        let b = x.last();
        lemma_escapes_bytes(init);
        let a = percent_encode_bytes(init);
        let e = encode_byte(b);
        let t = percent_encode_bytes(x);
        assert(t == a + e);
        lemma_hex_upper_digit(b as nat / 16);
        lemma_hex_upper_digit(b as nat % 16);
        assert forall|k: int| 0 <= k < t.len() && #[trigger] t[k] == '%' implies k + 2 < t.len()
            && is_upper_hex(t[k + 1]) && is_upper_hex(t[k + 2]) by {
            if k < a.len() {
                assert(a[k] == '%');
                assert(t[k + 1] == a[k + 1]);
                assert(t[k + 2] == a[k + 2]);
            } else {
                assert(e[k - a.len()] == '%');
                if is_unreserved(b) {
                    assert(e[0] == (b as u32) as char);
                } else {
                    assert(k == a.len());
                }
            }
        }
    }
}

/// Percent-decoding the encoding gives the UTF-8 bytes back; the encoding holds only
/// unreserved characters and `%`, and every `%` is followed by two upper-case hexadecimal
/// digits; text whose bytes are all unreserved is written as those bytes, and text of
/// unreserved characters is written as it is.
pub proof fn law_percent_encoding(s: Seq<char>)
    ensures
        percent_decode(pct(s)) == encode_utf8(s),
        forall|k: int| 0 <= k < pct(s).len() ==> encoded_char(#[trigger] pct(s)[k]),
        escapes_well_formed(pct(s)),
        (forall|k: int| 0 <= k < encode_utf8(s).len() ==> is_unreserved(#[trigger] encode_utf8(s)[k]))
            ==> pct(s) == encode_utf8(s).map_values(|b: u8| (b as u32) as char),
        (forall|k: int| 0 <= k < s.len() ==> is_unreserved_char(#[trigger] s[k])) ==> pct(s) == s,
{
    let x = encode_utf8(s);
    lemma_decode_bytes(x, seq![]);
    lemma_escapes_bytes(x);
    assert(pct(s) + Seq::<char>::empty() == pct(s));
    assert(x + percent_decode(Seq::<char>::empty()) == x);
    if forall|k: int| 0 <= k < x.len() ==> is_unreserved(#[trigger] x[k]) {
        lemma_encode_unreserved(x);
    }
    if forall|k: int| 0 <= k < s.len() ==> is_unreserved_char(#[trigger] s[k]) {
        assert(vstd::utf8::is_ascii_chars(s)) by {
            assert forall|i: int| 0 <= i < s.len() implies '\0' <= #[trigger] s[i] <= '\u{7f}' by {
                assert(is_unreserved_char(s[i]));
            }
        }
        vstd::utf8::is_ascii_chars_encode_utf8(s);
        assert forall|k: int| 0 <= k < x.len() implies is_unreserved(#[trigger] x[k]) by {
            assert(is_unreserved_char(s[k]));
            assert(s[k] as u8 == x[k]);
        }
        lemma_encode_unreserved(x);
        assert(pct(s) =~= s) by {
            assert forall|k: int| 0 <= k < s.len() implies pct(s)[k] == s[k] by {
                assert(is_unreserved_char(s[k]));
                assert(s[k] as u8 == x[k]);
            }
        }
    }
}

// ---------------------------------------------------------------------------
// Ordering request parameters
// ---------------------------------------------------------------------------

/// Lexicographic order of character sequences by code point, which is the byte order of
/// their UTF-8 forms (the order of `str`).
pub open spec fn chars_lt(a: Seq<char>, b: Seq<char>) -> bool
    decreases a.len(),
{
    if a.len() == 0 {
        b.len() > 0
    } else if b.len() == 0 {
        false
    } else if a[0] != b[0] {
        a[0] < b[0]
    } else {
        chars_lt(a.skip(1), b.skip(1))
    }
}

/// A request parameter as plain values.
pub type ParamView = (Seq<char>, Seq<char>);

/// Parameters ordered by name, then by value (the order of tuples of `str`).
pub open spec fn param_lt(x: ParamView, y: ParamView) -> bool {
    chars_lt(x.0, y.0) || (x.0 == y.0 && chars_lt(x.1, y.1))
}

/// Position where `x` goes in an ordered list: before the first element greater than it.
pub open spec fn insert_pos(s: Seq<ParamView>, x: ParamView) -> int
    decreases s.len(),
{
    if s.len() == 0 {
        0
    } else if param_lt(x, s[0]) {
        0
    } else {
        1 + insert_pos(s.skip(1), x)
    }
}

/// The parameters in ascending order, each inserted after those not greater than it.
pub open spec fn sort_params(s: Seq<ParamView>) -> Seq<ParamView>
    decreases s.len(),
{
    if s.len() == 0 {
        s
    } else {
        let r = sort_params(s.drop_last());
        r.insert(insert_pos(r, s.last()), s.last())
    }
}

/// The plain values of a list of parameters.
pub open spec fn param_views(v: Seq<(String, String)>) -> Seq<ParamView> {
    v.map_values(|p: (String, String)| (p.0@, p.1@))
}

fn chars_less(a: &[char], b: &[char]) -> (res: bool)
    ensures
        res == chars_lt(a@, b@),
{
    let mut i: usize = 0;
    assert(a@.skip(0) == a@);
    assert(b@.skip(0) == b@);
    while i < a.len() && i < b.len() && a[i] == b[i]
        invariant
            i <= a.len(),
            i <= b.len(),
            chars_lt(a@, b@) == chars_lt(a@.skip(i as int), b@.skip(i as int)),
        decreases a.len() - i,
    {
        assert(a@.skip(i as int).skip(1) == a@.skip(i + 1));
        assert(b@.skip(i as int).skip(1) == b@.skip(i + 1));
        i += 1;
    }
    if i == a.len() {
        i < b.len()
    } else if i == b.len() {
        false
    } else {
        assert(a@.skip(i as int)[0] == a@[i as int]);
        assert(b@.skip(i as int)[0] == b@[i as int]);
        a[i] < b[i]
    }
}

/// Whether one character sequence comes before another in `chars_lt` order.
pub fn chars_less_pub(a: &[char], b: &[char]) -> (res: bool)
    ensures
        res == chars_lt(a@, b@),
{
    chars_less(a, b)
}

fn param_less(x0: &str, x1: &str, y0: &str, y1: &str) -> (res: bool)
    ensures
        res == param_lt((x0@, x1@), (y0@, y1@)),
{
    let xk = chars_of(x0);
    let yk = chars_of(y0);
    if chars_less(xk.as_slice(), yk.as_slice()) {
        return true;
    }
    if !crate::text::chars_eq(xk.as_slice(), yk.as_slice()) {
        return false;
    }
    let xv = chars_of(x1);
    let yv = chars_of(y1);
    chars_less(xv.as_slice(), yv.as_slice())
}

/// Sorts parameters by name, then by value.
pub fn sort_parameters(params: Vec<(String, String)>) -> (res: Vec<(String, String)>)
    ensures
        param_views(res@) == sort_params(param_views(params@)),
        params_sorted(param_views(res@)),
        param_views(res@).to_multiset() == param_views(params@).to_multiset(),
{
    proof {
        law_sorted_parameters(param_views(params@));
    }
    let ghost orig = param_views(params@);
    let n = params.len();
    let mut src = params;
    let mut out: Vec<(String, String)> = Vec::new();
    let mut k: usize = 0;
    assert(param_views(src@) == orig.skip(0));
    while src.len() > 0
        invariant
            k <= n,
            orig.len() == n,
            k + src@.len() == n,
            param_views(src@) == orig.skip(k as int),
            param_views(out@) == sort_params(orig.take(k as int)),
        decreases src.len(),
    {
        let ghost old_pv = param_views(src@);
        let ghost old_src = src@;
        let x = src.remove(0);
        let ghost xv = (x.0@, x.1@);
        assert(old_pv[0] == (old_src[0].0@, old_src[0].1@));
        assert(orig.skip(k as int)[0] == orig[k as int]);
        assert(xv == orig[k as int]);
        assert(param_views(src@) == old_pv.skip(1));
        assert(orig.skip(k as int).skip(1) == orig.skip(k + 1));
        assert(param_views(src@) == orig.skip(k + 1));
        assert(orig.take(k + 1).drop_last() == orig.take(k as int));
        assert(orig.take(k + 1).last() == xv);
        let ghost r = param_views(out@);
        let mut j: usize = 0;
        assert(r.skip(0) == r);
        loop
            invariant
                j <= out.len(),
                r == param_views(out@),
                xv == (x.0@, x.1@),
                insert_pos(r, xv) == j + insert_pos(r.skip(j as int), xv),
            ensures
                j <= out.len(),
                insert_pos(r, xv) == j,
            decreases out.len() - j,
        {
            if j >= out.len() {
                break;
            }
            assert(r[j as int] == (out@[j as int].0@, out@[j as int].1@));
            assert(r.skip(j as int)[0] == r[j as int]);
            let lt = param_less(x.0.as_str(), x.1.as_str(), out[j].0.as_str(), out[j].1.as_str());
            assert(lt == param_lt(xv, r[j as int]));
            if lt {
                assert(insert_pos(r.skip(j as int), xv) == 0);
                break;
            }
            assert(insert_pos(r.skip(j as int), xv) == 1 + insert_pos(r.skip(j as int).skip(1), xv));
            assert(r.skip(j as int).skip(1) == r.skip(j + 1));
            j += 1;
        }
        assert(insert_pos(r, xv) == j);
        out.insert(j, x);
        assert(param_views(out@) == r.insert(j as int, xv));
        k += 1;
    }
    assert(orig.take(n as int) == orig);
    out
}

/// Parameters in ascending order: none is greater than one that comes after it.
pub open spec fn params_sorted(s: Seq<ParamView>) -> bool {
    forall|i: int, j: int| 0 <= i < j < s.len() ==> !param_lt(#[trigger] s[j], #[trigger] s[i])
}

pub proof fn chars_lt_irreflexive(a: Seq<char>)
    ensures
        !chars_lt(a, a),
    decreases a.len(),
{
    if a.len() > 0 {
        chars_lt_irreflexive(a.skip(1));
    }
}

pub proof fn chars_lt_transitive(a: Seq<char>, b: Seq<char>, c: Seq<char>)
    requires
        chars_lt(a, b),
        chars_lt(b, c),
    ensures
        chars_lt(a, c),
    decreases a.len(),
{
    if a.len() > 0 && b.len() > 0 && c.len() > 0 && a[0] == b[0] && b[0] == c[0] {
        chars_lt_transitive(a.skip(1), b.skip(1), c.skip(1));
    }
}

pub proof fn chars_lt_total(a: Seq<char>, b: Seq<char>)
    ensures
        chars_lt(a, b) || chars_lt(b, a) || a == b,
    decreases a.len(),
{
    if a.len() == 0 && b.len() == 0 {
        assert(a =~= b);
    } else if a.len() > 0 && b.len() > 0 && a[0] == b[0] {
        chars_lt_total(a.skip(1), b.skip(1));
        if a.skip(1) == b.skip(1) {
            assert(a.skip(1).len() == a.len() - 1);
            assert(b.skip(1).len() == b.len() - 1);
            assert(a.len() == b.len());
            assert forall|i: int| 0 <= i < a.len() implies a[i] == b[i] by {
                if i > 0 {
                    assert(a[i] == a.skip(1)[i - 1]);
                    assert(b[i] == b.skip(1)[i - 1]);
                }
            }
            assert(a =~= b);
        }
    }
}

proof fn param_lt_irreflexive(x: ParamView)
    ensures
        !param_lt(x, x),
{
    chars_lt_irreflexive(x.0);
    chars_lt_irreflexive(x.1);
}

proof fn param_lt_transitive(x: ParamView, y: ParamView, z: ParamView)
    requires
        param_lt(x, y),
        param_lt(y, z),
    ensures
        param_lt(x, z),
{
    if chars_lt(x.0, y.0) && chars_lt(y.0, z.0) {
        chars_lt_transitive(x.0, y.0, z.0);
    } else if x.0 == y.0 && y.0 == z.0 {
        chars_lt_transitive(x.1, y.1, z.1);
    }
}

proof fn param_lt_asymmetric(x: ParamView, y: ParamView)
    requires
        param_lt(x, y),
    ensures
        !param_lt(y, x),
{
    if param_lt(y, x) {
        param_lt_transitive(x, y, x);
        param_lt_irreflexive(x);
    }
}

proof fn param_lt_total(x: ParamView, y: ParamView)
    ensures
        param_lt(x, y) || param_lt(y, x) || x == y,
{
    chars_lt_total(x.0, y.0);
    chars_lt_total(x.1, y.1);
}

proof fn insert_pos_bounds(r: Seq<ParamView>, x: ParamView)
    ensures
        0 <= insert_pos(r, x) <= r.len(),
        forall|i: int| 0 <= i < insert_pos(r, x) ==> !param_lt(x, #[trigger] r[i]),
        insert_pos(r, x) < r.len() ==> param_lt(x, r[insert_pos(r, x)]),
    decreases r.len(),
{
    if r.len() > 0 && !param_lt(x, r[0]) {
        insert_pos_bounds(r.skip(1), x);
        assert forall|i: int| 0 <= i < insert_pos(r, x) implies !param_lt(x, #[trigger] r[i]) by {
            if i > 0 {
                assert(r[i] == r.skip(1)[i - 1]);
            }
        }
        if insert_pos(r, x) < r.len() {
            assert(r[insert_pos(r, x)] == r.skip(1)[insert_pos(r.skip(1), x)]);
        }
    }
}

proof fn sorted_insert(r: Seq<ParamView>, x: ParamView)
    requires
        params_sorted(r),
    ensures
        params_sorted(r.insert(insert_pos(r, x), x)),
{
    insert_pos_bounds(r, x);
    let p = insert_pos(r, x);
    let t = r.insert(p, x);
    assert forall|i: int| p <= i < r.len() implies param_lt(x, #[trigger] r[i]) by {
        if i > p {
            assert(!param_lt(r[i], r[p]));
            param_lt_total(r[p], r[i]);
            if param_lt(r[p], r[i]) {
                param_lt_transitive(x, r[p], r[i]);
            }
        }
    }
    assert forall|i: int, j: int| 0 <= i < j < t.len() implies !param_lt(
        #[trigger] t[j],
        #[trigger] t[i],
    ) by {
        if j == p {
            assert(t[i] == r[i]);
        } else if i == p {
            assert(t[j] == r[j - 1]);
            param_lt_asymmetric(x, r[j - 1]);
        } else {
            let ri = if i < p {
                i
            } else {
                i - 1
            };
            let rj = if j < p {
                j
            } else {
                j - 1
            };
            assert(t[i] == r[ri]);
            assert(t[j] == r[rj]);
            assert(ri < rj);
        }
    }
}

/// Sorting keeps every parameter, each as often as it came, and puts them in ascending
/// order.
pub proof fn law_sorted_parameters(s: Seq<ParamView>)
    ensures
        params_sorted(sort_params(s)),
        sort_params(s).to_multiset() == s.to_multiset(),
    decreases s.len(),
{
    if s.len() > 0 {
        law_sorted_parameters(s.drop_last());
        let r = sort_params(s.drop_last());
        sorted_insert(r, s.last());
        insert_pos_bounds(r, s.last());
        vstd::seq_lib::to_multiset_insert(r, insert_pos(r, s.last()), s.last());
        vstd::seq_lib::to_multiset_build(s.drop_last(), s.last());
        assert(s.drop_last().push(s.last()) =~= s);
    }
}

/// Two ordered parameter lists with the same parameters, as often each, are the same list.
pub proof fn lemma_sorted_unique(s1: Seq<ParamView>, s2: Seq<ParamView>)
    requires
        params_sorted(s1),
        params_sorted(s2),
        s1.to_multiset() == s2.to_multiset(),
    ensures
        s1 == s2,
    decreases s1.len(),
{
    vstd::seq_lib::to_multiset_len(s1);
    vstd::seq_lib::to_multiset_len(s2);
    if s1.len() == 0 {
        assert(s1 =~= s2);
    } else {
        let a = s1[0];
        let b = s2[0];
        assert(s2.contains(b));
        vstd::seq_lib::to_multiset_contains(s2, b);
        vstd::seq_lib::to_multiset_contains(s1, b);
        let j = choose|j: int| 0 <= j < s1.len() && s1[j] == b;
        if j > 0 {
            assert(!param_lt(s1[j], s1[0]));
        } else {
            param_lt_irreflexive(a);
        }
        assert(s1.contains(a));
        vstd::seq_lib::to_multiset_contains(s1, a);
        vstd::seq_lib::to_multiset_contains(s2, a);
        let i = choose|i: int| 0 <= i < s2.len() && s2[i] == a;
        if i > 0 {
            assert(!param_lt(s2[i], s2[0]));
        } else {
            param_lt_irreflexive(b);
        }
        param_lt_total(a, b);
        assert(a == b);
        let t1 = s1.remove(0);
        let t2 = s2.remove(0);
        vstd::seq_lib::to_multiset_remove(s1, 0);
        vstd::seq_lib::to_multiset_remove(s2, 0);
        assert forall|x: int, y: int| 0 <= x < y < t1.len() implies !param_lt(#[trigger] t1[y], #[trigger] t1[x]) by {
            assert(t1[x] == s1[x + 1]);
            assert(t1[y] == s1[y + 1]);
        }
        assert forall|x: int, y: int| 0 <= x < y < t2.len() implies !param_lt(#[trigger] t2[y], #[trigger] t2[x]) by {
            assert(t2[x] == s2[x + 1]);
            assert(t2[y] == s2[y + 1]);
        }
        lemma_sorted_unique(t1, t2);
        assert(s1 =~= seq![a] + t1);
        assert(s2 =~= seq![b] + t2);
    }
}

/// Sorting depends only on which parameters there are, as often each: lists that are
/// reorderings of each other sort to the same list.
pub proof fn law_sort_order_free(a: Seq<ParamView>, b: Seq<ParamView>)
    requires
        a.to_multiset() == b.to_multiset(),
    ensures
        sort_params(a) == sort_params(b),
{
    law_sorted_parameters(a);
    law_sorted_parameters(b);
    lemma_sorted_unique(sort_params(a), sort_params(b));
}

// ---------------------------------------------------------------------------
// Signed requests (signature version 1.0, HMAC-SHA1)
// ---------------------------------------------------------------------------

/// The parameters every signed request carries.
pub open spec fn base_params(
    access_key_id: Seq<char>,
    action: Seq<char>,
    version: Seq<char>,
    nonce: Seq<char>,
    timestamp: Seq<char>,
) -> Seq<ParamView> {
    seq![
        ("AccessKeyId"@, access_key_id),
        ("Action"@, action),
        ("Format"@, "JSON"@),
        ("SignatureMethod"@, "HMAC-SHA1"@),
        ("SignatureNonce"@, nonce),
        ("SignatureVersion"@, "1.0"@),
        ("Timestamp"@, timestamp),
        ("Version"@, version),
    ]
}

/// `name=value`, both percent-encoded.
pub open spec fn param_text(p: ParamView) -> Seq<char> {
    pct(p.0) + "="@ + pct(p.1)
}

/// The canonical query: the parameters' texts joined with `&`.
pub open spec fn canonical_query(ps: Seq<ParamView>) -> Seq<char> {
    join(ps.map_values(|p: ParamView| param_text(p)), "&"@)
}

/// The signature of a canonical query: Base64 of the HMAC-SHA1 tag, keyed with the secret
/// and `&`, of `GET&%2F&` and the percent-encoded query.
pub open spec fn signature_of(secret: Seq<char>, canonical: Seq<char>) -> Seq<char> {
    base64_encode(
        hmac_sha1_tag(encode_utf8(secret + "&"@), encode_utf8("GET&%2F&"@ + pct(canonical))),
    )
}

/// The signed query string: the canonical query of the ordered parameters, then
/// `&Signature=` and the percent-encoded signature.
pub open spec fn signed_query_spec(
    access_key_id: Seq<char>,
    secret: Seq<char>,
    action: Seq<char>,
    version: Seq<char>,
    extra: Seq<ParamView>,
    nonce: Seq<char>,
    timestamp: Seq<char>,
) -> Seq<char> {
    let c = canonical_query(
        sort_params(base_params(access_key_id, action, version, nonce, timestamp) + extra),
    );
    c + "&Signature="@ + pct(signature_of(secret, c))
}

/// The signed query does not depend on the order of the extra parameters: extra lists
/// that are reorderings of each other give the same query.
pub proof fn law_signed_query_order_free(
    access_key_id: Seq<char>,
    secret: Seq<char>,
    action: Seq<char>,
    version: Seq<char>,
    extra: Seq<ParamView>,
    reordered: Seq<ParamView>,
    nonce: Seq<char>,
    timestamp: Seq<char>,
)
    requires
        extra.to_multiset() == reordered.to_multiset(),
    ensures
        signed_query_spec(access_key_id, secret, action, version, extra, nonce, timestamp)
            == signed_query_spec(access_key_id, secret, action, version, reordered, nonce, timestamp),
{
    let base = base_params(access_key_id, action, version, nonce, timestamp);
    vstd::seq_lib::lemma_multiset_commutative(base, extra);
    vstd::seq_lib::lemma_multiset_commutative(base, reordered);
    law_sort_order_free(base + extra, base + reordered);
}

fn param(name: &str, value: &str) -> (res: (String, String))
    ensures
        res.0@ == name@,
        res.1@ == value@,
{
    (owned(name), owned(value))
}

/// The signed query string for fixed parameters, nonce and timestamp.
pub fn signed_query_with_parts(
    access_key_id: &str,
    access_key_secret: &str,
    action: &str,
    version: &str,
    extra: &[(String, String)],
    nonce: &str,
    timestamp: &str,
) -> (res: Result<String, String>)
    ensures
        res matches Ok(q) && q@ == signed_query_spec(
            access_key_id@,
            access_key_secret@,
            action@,
            version@,
            param_views(extra@),
            nonce@,
            timestamp@,
        ),
{
    let mut parameters: Vec<(String, String)> = Vec::new();
    parameters.push(param("AccessKeyId", access_key_id));
    parameters.push(param("Action", action));
    parameters.push(param("Format", "JSON"));
    parameters.push(param("SignatureMethod", "HMAC-SHA1"));
    parameters.push(param("SignatureNonce", nonce));
    parameters.push(param("SignatureVersion", "1.0"));
    parameters.push(param("Timestamp", timestamp));
    parameters.push(param("Version", version));
    assert(param_views(parameters@) == base_params(
        access_key_id@,
        action@,
        version@,
        nonce@,
        timestamp@,
    ));
    let ghost base = param_views(parameters@);
    let mut i: usize = 0;
    while i < extra.len()
        invariant
            i <= extra.len(),
            param_views(parameters@) == base + param_views(extra@).take(i as int),
        decreases extra.len() - i,
    {
        let ghost before = param_views(parameters@);
        let p = param(extra[i].0.as_str(), extra[i].1.as_str());
        parameters.push(p);
        assert(param_views(parameters@) == before.push((extra@[i as int].0@, extra@[i as int].1@)));
        i += 1;
        assert(param_views(extra@).take(i as int) == param_views(extra@).take(i - 1).push(
            (extra@[i - 1].0@, extra@[i - 1].1@),
        ));
    }
    assert(param_views(extra@).take(extra.len() as int) == param_views(extra@));
    let sorted = sort_parameters(parameters);
    let ghost sv = param_views(sorted@);
    let mut texts: Vec<Vec<char>> = Vec::new();
    let mut j: usize = 0;
    while j < sorted.len()
        invariant
            j <= sorted.len(),
            sv == param_views(sorted@),
            views(texts@) == sv.take(j as int).map_values(|p: ParamView| param_text(p)),
        decreases sorted.len() - j,
    {
        let mut t = chars_of(percent_encode(sorted[j].0.as_str()).as_str());
        t.push('=');
        push_str(&mut t, percent_encode(sorted[j].1.as_str()).as_str());
        assert(sv[j as int] == (sorted@[j as int].0@, sorted@[j as int].1@));
        assert(t@ == param_text(sv[j as int])) by {
            reveal_strlit("=");
        }
        push_view(&mut texts, t);
        j += 1;
        assert(sv.take(j as int).map_values(|p: ParamView| param_text(p)) == sv.take(j - 1).map_values(
            |p: ParamView| param_text(p),
        ).push(param_text(sv[j - 1])));
    }
    assert(sv.take(sorted.len() as int) == sv);
    let amp: Vec<char> = vec!['&'];
    assert(amp@ == "&"@) by {
        reveal_strlit("&");
    }
    let canonical = join_chars(&texts, amp.as_slice());
    let canonical_s = string_of(canonical.as_slice());
    let mut key = chars_of(access_key_secret);
    key.push('&');
    assert(key@ == access_key_secret@ + "&"@) by {
        reveal_strlit("&");
    }
    let key_s = string_of(key.as_slice());
    let mut to_sign = chars_of("GET&%2F&");
    push_str(&mut to_sign, percent_encode(canonical_s.as_str()).as_str());
    let to_sign_s = string_of(to_sign.as_slice());
    let key_bytes = key_s.as_str().as_bytes();
    let msg_bytes = to_sign_s.as_str().as_bytes();
    let tag = match hmac_sha1(key_bytes, msg_bytes) {
        Some(t) => t,
        None => {
            return Err(owned("生成阿里云请求签名失败"));
        },
    };
    let signature = base64_standard(tag.as_slice());
    let mut out = canonical;
    push_str(&mut out, "&Signature=");
    push_str(&mut out, percent_encode(signature.as_str()).as_str());
    Ok(string_of(out.as_slice()))
}

/// The signed query string with extra parameters, a fresh random nonce and the current UTC
/// time: it is `signed_query_spec` for some nonce and timestamp.
pub fn signed_query_with_extra(
    access_key_id: &str,
    access_key_secret: &str,
    action: &str,
    version: &str,
    extra: &[(String, String)],
) -> (res: Result<String, String>)
    ensures
        res matches Ok(q) && exists|nonce: Seq<char>, timestamp: Seq<char>|
            uuid_text(nonce) && timestamp_text(timestamp) && q@ == signed_query_spec(
                access_key_id@,
                access_key_secret@,
                action@,
                version@,
                param_views(extra@),
                nonce,
                timestamp,
            ),
{
    let nonce = new_uuid();
    let timestamp = utc_timestamp();
    let r = signed_query_with_parts(
        access_key_id,
        access_key_secret,
        action,
        version,
        extra,
        nonce.as_str(),
        timestamp.as_str(),
    );
    r
}

/// The signed query string without extra parameters.
pub fn signed_query(access_key_id: &str, access_key_secret: &str, action: &str, version: &str) -> (res: Result<String, String>)
    ensures
        res matches Ok(q) && exists|nonce: Seq<char>, timestamp: Seq<char>|
            uuid_text(nonce) && timestamp_text(timestamp) && q@ == signed_query_spec(
                access_key_id@,
                access_key_secret@,
                action@,
                version@,
                Seq::<ParamView>::empty(),
                nonce,
                timestamp,
            ),
{
    let extra: Vec<(String, String)> = Vec::new();
    assert(param_views(extra@) == Seq::<ParamView>::empty());
    signed_query_with_extra(access_key_id, access_key_secret, action, version, extra.as_slice())
}

// ---------------------------------------------------------------------------
// Accounts and rules
// ---------------------------------------------------------------------------

/// An optional text as plain values.
pub open spec fn opt_str(o: Option<String>) -> Option<Seq<char>> {
    match o {
        Some(s) => Some(s@),
        None => None,
    }
}

/// A copy of an optional text.
pub fn copy_opt(o: &Option<String>) -> (res: Option<String>)
    ensures
        opt_str(res) == opt_str(*o),
{
    match o {
        Some(s) => Some(copy_string(s)),
        None => None,
    }
}

/// A copy of a text.
pub fn copy_string(s: &String) -> (res: String)
    ensures
        res@ == s@,
{
    owned(s.as_str())
}

/// A cloud account as the user sees it.
#[derive(Clone, Debug)]
pub struct CloudAccountSummary {
    pub id: String,
    pub provider: String,
    pub display_name: String,
    pub auth_method: String,
    pub access_key_hint: String,
    pub verified_account_id: Option<String>,
    pub verification_status: String,
    pub created_at: u64,
    pub updated_at: u64,
}

/// A cloud account as plain values.
pub struct AccountView {
    pub id: Seq<char>,
    pub provider: Seq<char>,
    pub display_name: Seq<char>,
    pub auth_method: Seq<char>,
    pub access_key_hint: Seq<char>,
    pub verified_account_id: Option<Seq<char>>,
    pub verification_status: Seq<char>,
    pub created_at: u64,
    pub updated_at: u64,
}

impl View for CloudAccountSummary {
    type V = AccountView;

    open spec fn view(&self) -> AccountView {
        AccountView {
            id: self.id@,
            provider: self.provider@,
            display_name: self.display_name@,
            auth_method: self.auth_method@,
            access_key_hint: self.access_key_hint@,
            verified_account_id: opt_str(self.verified_account_id),
            verification_status: self.verification_status@,
            created_at: self.created_at,
            updated_at: self.updated_at,
        }
    }
}

/// A copy of an account summary.
pub fn copy_summary(s: &CloudAccountSummary) -> (res: CloudAccountSummary)
    ensures
        res@ == s@,
{
    CloudAccountSummary {
        id: copy_string(&s.id),
        provider: copy_string(&s.provider),
        display_name: copy_string(&s.display_name),
        auth_method: copy_string(&s.auth_method),
        access_key_hint: copy_string(&s.access_key_hint),
        verified_account_id: copy_opt(&s.verified_account_id),
        verification_status: copy_string(&s.verification_status),
        created_at: s.created_at,
        updated_at: s.updated_at,
    }
}

/// A cloud account as stored: its summary and the name of its keychain entry.
#[derive(Clone, Debug)]
pub struct StoredCloudAccount {
    pub summary: CloudAccountSummary,
    pub credential_key: String,
}

/// What the user enters to add an account.
#[derive(Clone, Debug)]
pub struct SaveCloudAccountInput {
    pub display_name: String,
    pub auth_method: String,
    pub access_key_id: String,
    pub access_key_secret: String,
}

/// An ECS region.
#[derive(Clone, Debug)]
pub struct CloudRegion {
    pub id: String,
    pub name: String,
    pub endpoint: String,
}

/// An ECS security group.
#[derive(Clone, Debug)]
pub struct CloudSecurityGroup {
    pub id: String,
    pub name: String,
    pub vpc_id: String,
    pub group_type: String,
}

/// A rule of a security group.
#[derive(Clone, Debug)]
pub struct CloudSecurityRule {
    pub id: String,
    pub direction: String,
    pub protocol: String,
    pub port_range: String,
    pub priority: i32,
    pub action: String,
    pub source_cidr: String,
    pub description: String,
    pub managed: bool,
}

/// A security-group rule that DomainEgress keeps pointed at the current egress address.
#[derive(Clone, Debug)]
pub struct ManagedRuleConfig {
    pub id: String,
    pub account_id: String,
    pub region: String,
    pub security_group_id: String,
    pub protocol: String,
    pub port_range: String,
    pub priority: i32,
    pub description: String,
    pub enabled: bool,
    pub last_source_cidr: Option<String>,
    pub last_synced_at: Option<u64>,
    pub last_error: Option<String>,
}

/// A managed rule as plain values.
pub struct RuleConfigView {
    pub id: Seq<char>,
    pub account_id: Seq<char>,
    pub region: Seq<char>,
    pub security_group_id: Seq<char>,
    pub protocol: Seq<char>,
    pub port_range: Seq<char>,
    pub priority: i32,
    pub description: Seq<char>,
    pub enabled: bool,
    pub last_source_cidr: Option<Seq<char>>,
    pub last_synced_at: Option<u64>,
    pub last_error: Option<Seq<char>>,
}

impl View for ManagedRuleConfig {
    type V = RuleConfigView;

    open spec fn view(&self) -> RuleConfigView {
        RuleConfigView {
            id: self.id@,
            account_id: self.account_id@,
            region: self.region@,
            security_group_id: self.security_group_id@,
            protocol: self.protocol@,
            port_range: self.port_range@,
            priority: self.priority,
            description: self.description@,
            enabled: self.enabled,
            last_source_cidr: opt_str(self.last_source_cidr),
            last_synced_at: self.last_synced_at,
            last_error: opt_str(self.last_error),
        }
    }
}

/// A copy of a managed rule.
pub fn copy_rule_config(c: &ManagedRuleConfig) -> (res: ManagedRuleConfig)
    ensures
        res@ == c@,
{
    ManagedRuleConfig {
        id: copy_string(&c.id),
        account_id: copy_string(&c.account_id),
        region: copy_string(&c.region),
        security_group_id: copy_string(&c.security_group_id),
        protocol: copy_string(&c.protocol),
        port_range: copy_string(&c.port_range),
        priority: c.priority,
        description: copy_string(&c.description),
        enabled: c.enabled,
        last_source_cidr: copy_opt(&c.last_source_cidr),
        last_synced_at: c.last_synced_at,
        last_error: copy_opt(&c.last_error),
    }
}

/// What the user enters to create a managed rule.
#[derive(Clone, Debug)]
pub struct CreateManagedRuleInput {
    pub account_id: String,
    pub region: String,
    pub security_group_id: String,
    pub protocol: String,
    pub port_range: String,
    pub priority: i32,
}

/// The outcome of bringing a managed rule up to date: the rule's new settings, whether the
/// cloud rule was `created` or `updated`, and its identifier.
#[derive(Clone, Debug)]
pub struct ManagedRuleSyncResult {
    pub config: ManagedRuleConfig,
    pub action: String,
    pub rule_id: String,
}

// ---------------------------------------------------------------------------
// Checking what the user enters
// ---------------------------------------------------------------------------

/// `validate`: a display name, a supported method, and an AccessKey ID of 8 to 128 ASCII
/// letters and digits with a secret of at least 16 bytes (both trimmed).
pub open spec fn validate_input_spec(i: &SaveCloudAccountInput) -> Result<(), Seq<char>> {
    let id = trim(i.access_key_id@);
    if trim(i.display_name@).len() == 0 {
        Err("请输入云账号备注"@)
    } else if !(i.auth_method@ == "ram_access_key"@ || i.auth_method@ == "access_key"@) {
        Err("当前仅支持 RAM 子账户凭据或 AccessKey"@)
    } else if !(8 <= utf8_len(id) <= 128) || !is_ascii(id) || !(forall|k: int|
        0 <= k < id.len() ==> is_ascii_alnum(#[trigger] id[k])) || utf8_len(
        trim(i.access_key_secret@),
    ) < 16 {
        Err("AccessKey ID 或 Secret 格式无效"@)
    } else {
        Ok(())
    }
}

/// Checks what the user entered for a new account.
pub fn validate(input: &SaveCloudAccountInput) -> (res: Result<(), String>)
    ensures
        match res {
            Ok(()) => validate_input_spec(input) is Ok,
            Err(e) => validate_input_spec(input) == Err::<(), Seq<char>>(e@),
        },
{
    let id = trim_str(input.access_key_id.as_str());
    let name = trim_str(input.display_name.as_str());
    if name.len() == 0 {
        return Err(owned("请输入云账号备注"));
    }
    let m = input.auth_method.as_str();
    if !(str_eq(m, "ram_access_key") || str_eq(m, "access_key")) {
        return Err(owned("当前仅支持 RAM 子账户凭据或 AccessKey"));
    }
    let secret = trim_str(input.access_key_secret.as_str());
    if !utf8_len_exceeds(id.as_slice(), 7) || utf8_len_exceeds(id.as_slice(), 128)
        || !is_ascii_chars(id.as_slice()) || !all_ascii_alnum(id.as_slice()) || !utf8_len_exceeds(
        secret.as_slice(),
        15,
    ) {
        return Err(owned("AccessKey ID 或 Secret 格式无效"));
    }
    Ok(())
}

/// How many leading characters take exactly `n` bytes in UTF-8, or -1 when byte `n` falls
/// inside a character or past the end.
pub open spec fn prefix_chars(t: Seq<char>, n: int) -> int
    decreases t.len(),
{
    if n == 0 {
        0
    } else if n < 0 || t.len() == 0 {
        -1
    } else {
        let r = prefix_chars(t.skip(1), n - char_utf8_len(t[0]));
        if r < 0 {
            -1
        } else {
            r + 1
        }
    }
}

/// How many trailing characters take exactly `n` bytes in UTF-8, or -1 when there is no
/// character boundary `n` bytes before the end.
pub open spec fn suffix_chars(t: Seq<char>, n: int) -> int
    decreases t.len(),
{
    if n == 0 {
        0
    } else if n < 0 || t.len() == 0 {
        -1
    } else {
        let r = suffix_chars(t.drop_last(), n - char_utf8_len(t.last()));
        if r < 0 {
            -1
        } else {
            r + 1
        }
    }
}

/// The masked form of an AccessKey ID: its first and last four bytes around `****`.
pub open spec fn hint_spec(access_key_id: Seq<char>) -> Seq<char> {
    let t = trim(access_key_id);
    t.take(prefix_chars(t, 4)) + "****"@ + t.skip(t.len() - suffix_chars(t, 4))
}

/// The ID can be masked: four bytes from either end of the trimmed ID fall on character
/// boundaries.
pub open spec fn hint_ok(access_key_id: Seq<char>) -> bool {
    prefix_chars(trim(access_key_id), 4) >= 0 && suffix_chars(trim(access_key_id), 4) >= 0
}

fn prefix_chars_exec(t: &[char], n: usize) -> (res: Option<usize>)
    requires
        n <= 4,
    ensures
        match res {
            Some(k) => prefix_chars(t@, n as int) == k as int,
            None => prefix_chars(t@, n as int) < 0,
        },
{
    let mut i: usize = 0;
    let mut left: usize = n;
    assert(t@.skip(0) == t@);
    while left > 0 && i < t.len()
        invariant
            i <= t.len(),
            left <= 4,
            prefix_chars(t@, n as int) == (if prefix_chars(t@.skip(i as int), left as int) < 0 {
                -1
            } else {
                prefix_chars(t@.skip(i as int), left as int) + i
            }),
        decreases t.len() - i,
    {
        let c = t[i];
        let w: usize = if (c as u32) < 0x80 {
            1
        } else if (c as u32) < 0x800 {
            2
        } else if (c as u32) < 0x10000 {
            3
        } else {
            4
        };
        assert(t@.skip(i as int)[0] == c);
        assert(t@.skip(i as int).skip(1) == t@.skip(i + 1));
        if w > left {
            assert(prefix_chars(t@.skip(i + 1), left - w) < 0);
            return None;
        }
        left = left - w;
        i += 1;
    }
    if left == 0 {
        Some(i)
    } else {
        None
    }
}

fn suffix_chars_exec(t: &[char], n: usize) -> (res: Option<usize>)
    requires
        n <= 4,
    ensures
        match res {
            Some(k) => suffix_chars(t@, n as int) == k as int,
            None => suffix_chars(t@, n as int) < 0,
        },
{
    let mut j: usize = t.len();
    let mut left: usize = n;
    assert(t@.take(t.len() as int) == t@);
    while left > 0 && j > 0
        invariant
            j <= t.len(),
            left <= 4,
            suffix_chars(t@, n as int) == (if suffix_chars(t@.take(j as int), left as int) < 0 {
                -1
            } else {
                suffix_chars(t@.take(j as int), left as int) + (t.len() - j)
            }),
        decreases j,
    {
        let c = t[j - 1];
        let w: usize = if (c as u32) < 0x80 {
            1
        } else if (c as u32) < 0x800 {
            2
        } else if (c as u32) < 0x10000 {
            3
        } else {
            4
        };
        assert(t@.take(j as int).last() == c);
        assert(t@.take(j as int).drop_last() == t@.take(j - 1));
        if w > left {
            assert(suffix_chars(t@.take(j - 1), left - w) < 0);
            return None;
        }
        left = left - w;
        j -= 1;
    }
    if left == 0 {
        Some(t.len() - j)
    } else {
        None
    }
}

/// The masked form of an AccessKey ID.
pub fn hint(access_key_id: &str) -> (res: String)
    requires
        hint_ok(access_key_id@),
    ensures
        res@ == hint_spec(access_key_id@),
{
    let t = trim_str(access_key_id);
    let k = match prefix_chars_exec(t.as_slice(), 4) {
        Some(k) => k,
        None => 0,
    };
    let m = match suffix_chars_exec(t.as_slice(), 4) {
        Some(m) => m,
        None => 0,
    };
    proof {
        lemma_prefix_chars_bound(t@, 4);
        lemma_suffix_chars_bound(t@, 4);
    }
    let mut out = slice_of(t.as_slice(), 0, k);
    push_str(&mut out, "****");
    let tail = slice_of(t.as_slice(), t.len() - m, t.len());
    push_all(&mut out, tail.as_slice());
    assert(t@.take(k as int) == t@.subrange(0, k as int));
    string_of(out.as_slice())
}

/// `prefix_chars` counts at most all the characters.
pub proof fn lemma_prefix_chars_bound(t: Seq<char>, n: int)
    ensures
        prefix_chars(t, n) <= t.len(),
    decreases t.len(),
{
    if n != 0 && n >= 0 && t.len() > 0 {
        lemma_prefix_chars_bound(t.skip(1), n - char_utf8_len(t[0]));
    }
}

/// `suffix_chars` counts at most all the characters.
pub proof fn lemma_suffix_chars_bound(t: Seq<char>, n: int)
    ensures
        suffix_chars(t, n) <= t.len(),
    decreases t.len(),
{
    if n != 0 && n >= 0 && t.len() > 0 {
        lemma_suffix_chars_bound(t.drop_last(), n - char_utf8_len(t.last()));
    }
}

/// The port of a TCP or UDP range bound, 0 when it does not parse.
pub open spec fn port_value(s: Seq<char>) -> nat {
    match uint_parse(s, 65535) {
        Ok(v) => v,
        Err(_) => 0,
    }
}

/// `validate_rule_spec`: the protocol trimmed and upper-cased and the port range trimmed,
/// once the priority lies in 1 to 100 and the range fits the protocol (`-1/-1` for ICMP,
/// GRE and ALL; `start/end` ports with 0 < start <= end for TCP and UDP).
pub open spec fn rule_spec_check(protocol: Seq<char>, port_range: Seq<char>, priority: i32) -> Result<(Seq<char>, Seq<char>), Seq<char>> {
    let p = unicode_uppercase(trim(protocol));
    let r = trim(port_range);
    let parts = split_char(r, '/');
    if !(1 <= priority <= 100) {
        Err("优先级必须在 1 到 100 之间"@)
    } else if p == "ICMP"@ || p == "GRE"@ || p == "ALL"@ {
        if r != "-1/-1"@ {
            Err(p + " 协议端口范围必须为 -1/-1"@)
        } else {
            Ok((p, r))
        }
    } else if p == "TCP"@ || p == "UDP"@ {
        if exists|k: int| 0 <= k < parts.len() && uint_parse(#[trigger] parts[k], 65535) is Err {
            Err("端口范围格式应为起始/结束，例如 22/22"@)
        } else if parts.len() != 2 || port_value(parts[0]) == 0 || port_value(parts[0])
            > port_value(parts[1]) {
            Err("端口范围无效"@)
        } else {
            Ok((p, r))
        }
    } else {
        Err("仅支持 TCP、UDP、ICMP、GRE 或 ALL"@)
    }
}

/// Checks the protocol, port range and priority of a managed rule.
#[verifier::loop_isolation(false)]
pub fn validate_rule_spec(protocol: &str, port_range: &str, priority: i32) -> (res: Result<(String, String), String>)
    ensures
        match res {
            Ok((p, r)) => rule_spec_check(protocol@, port_range@, priority) == Ok::<
                (Seq<char>, Seq<char>),
                Seq<char>,
            >((p@, r@)),
            Err(e) => rule_spec_check(protocol@, port_range@, priority) == Err::<
                (Seq<char>, Seq<char>),
                Seq<char>,
            >(e@),
        },
{
    let trimmed = string_of(trim_str(protocol).as_slice());
    let p = to_uppercase(trimmed.as_str());
    let r = trim_str(port_range);
    let range = string_of(r.as_slice());
    if !(1 <= priority && priority <= 100) {
        return Err(owned("优先级必须在 1 到 100 之间"));
    }
    let ps = p.as_str();
    if str_eq(ps, "ICMP") || str_eq(ps, "GRE") || str_eq(ps, "ALL") {
        if !str_eq(range.as_str(), "-1/-1") {
            let mut e = chars_of(ps);
            push_str(&mut e, " 协议端口范围必须为 -1/-1");
            return Err(string_of(e.as_slice()));
        }
        return Ok((p, range));
    }
    if str_eq(ps, "TCP") || str_eq(ps, "UDP") {
        let parts = split_of(r.as_slice(), '/');
        let ghost pv = views(parts@);
        let mut values: Vec<u64> = Vec::new();
        let mut i: usize = 0;
        while i < parts.len()
            invariant
                i <= parts.len(),
                pv == views(parts@),
                pv == split_char(r@, '/'),
                r@ == trim(port_range@),
                values@.len() == i,
                forall|k: int| 0 <= k < i ==> uint_parse(#[trigger] pv[k], 65535) == Ok::<nat, Seq<char>>(values@[k] as nat),
            decreases parts.len() - i,
        {
            assert(pv[i as int] == parts@[i as int]@);
            match parse_uint_result(parts[i].as_slice(), 65535) {
                Ok(v) => {
                    values.push(v);
                },
                Err(_) => {
                    assert(uint_parse(split_char(trim(port_range@), '/')[i as int], 65535) is Err);
                    return Err(owned("端口范围格式应为起始/结束，例如 22/22"));
                },
            }
            i += 1;
        }
        if values.len() != 2 || values[0] == 0 || values[0] > values[1] {
            return Err(owned("端口范围无效"));
        }
        return Ok((p, range));
    }
    Err(owned("仅支持 TCP、UDP、ICMP、GRE 或 ALL"))
}

/// Refusal of a source that is not a `/32` CIDR.
pub open spec fn msg_not_host_cidr() -> Seq<char> {
    "受管授权对象必须是单个 IPv4 的 /32 CIDR"@
}

/// `validate_source_cidr`: an IPv4 address followed by `/32`.
pub open spec fn source_cidr_check(s: Seq<char>) -> Result<(), Seq<char>> {
    match strip_suffix(s, "/32"@) {
        None => Err(msg_not_host_cidr()),
        Some(ip) => if ipv4_parse(ip) is None {
            Err("当前出口 IPv4 无效"@)
        } else {
            Ok(())
        },
    }
}

/// Checks the source a managed rule is pointed at.
pub fn validate_source_cidr(source_cidr: &str) -> (res: Result<(), String>)
    ensures
        match res {
            Ok(()) => source_cidr_check(source_cidr@) is Ok,
            Err(e) => source_cidr_check(source_cidr@) == Err::<(), Seq<char>>(e@),
        },
{
    let s = chars_of(source_cidr);
    let suffix = chars_of("/32");
    if !ends_with_chars(s.as_slice(), suffix.as_slice()) {
        return Err(owned("受管授权对象必须是单个 IPv4 的 /32 CIDR"));
    }
    let ip = slice_of(s.as_slice(), 0, s.len() - suffix.len());
    assert(ip@ == s@.take(s@.len() - suffix@.len()));
    if parse_ipv4_chars(ip.as_slice()).is_none() {
        return Err(owned("当前出口 IPv4 无效"));
    }
    Ok(())
}

// ---------------------------------------------------------------------------
// Account bookkeeping
// ---------------------------------------------------------------------------

/// A stored account as plain values.
pub struct StoredView {
    pub summary: AccountView,
    pub credential_key: Seq<char>,
}

impl View for StoredCloudAccount {
    type V = StoredView;

    open spec fn view(&self) -> StoredView {
        StoredView { summary: self.summary@, credential_key: self.credential_key@ }
    }
}

/// The plain values of stored accounts.
pub open spec fn stored_views(v: Seq<StoredCloudAccount>) -> Seq<StoredView> {
    v.map_values(|a: StoredCloudAccount| a@)
}

/// The plain values of account summaries.
pub open spec fn summary_views(v: Seq<CloudAccountSummary>) -> Seq<AccountView> {
    v.map_values(|a: CloudAccountSummary| a@)
}

/// A predicate that holds of one text.
pub open spec fn eq_to(id: Seq<char>) -> spec_fn(Seq<char>) -> bool {
    |x: Seq<char>| x == id
}

/// The identifiers of stored accounts.
pub open spec fn account_ids(v: Seq<StoredView>) -> Seq<Seq<char>> {
    v.map_values(|a: StoredView| a.summary.id)
}

/// Index of the first account with identifier `id`, or -1.
pub open spec fn account_index(v: Seq<StoredView>, id: Seq<char>) -> int {
    crate::text::first_where(account_ids(v), eq_to(id))
}

/// The summaries of the stored accounts, in order.
pub fn list_accounts(accounts: &[StoredCloudAccount]) -> (res: Vec<CloudAccountSummary>)
    ensures
        summary_views(res@) == stored_views(accounts@).map_values(|a: StoredView| a.summary),
{
    let mut out: Vec<CloudAccountSummary> = Vec::new();
    let mut i: usize = 0;
    while i < accounts.len()
        invariant
            i <= accounts.len(),
            summary_views(out@) == stored_views(accounts@).take(i as int).map_values(
                |a: StoredView| a.summary,
            ),
        decreases accounts.len() - i,
    {
        let ghost before = summary_views(out@);
        out.push(copy_summary(&accounts[i].summary));
        assert(summary_views(out@) == before.push(accounts@[i as int].summary@));
        i += 1;
        assert(stored_views(accounts@).take(i as int) == stored_views(accounts@).take(i - 1).push(
            accounts@[i - 1]@,
        ));
    }
    assert(stored_views(accounts@).take(accounts.len() as int) == stored_views(accounts@));
    out
}

/// Index of the first account with identifier `id`.
pub fn find_account(accounts: &[StoredCloudAccount], id: &str) -> (res: Option<usize>)
    ensures
        match res {
            Some(i) => account_index(stored_views(accounts@), id@) == i && i < accounts@.len(),
            None => account_index(stored_views(accounts@), id@) == -1,
        },
{
    let ghost ids = account_ids(stored_views(accounts@));
    let mut i: usize = 0;
    while i < accounts.len()
        invariant
            i <= accounts.len(),
            ids == account_ids(stored_views(accounts@)),
            forall|j: int| 0 <= j < i ==> !(eq_to(id@))(#[trigger] ids[j]),
        decreases accounts.len() - i,
    {
        assert(ids[i as int] == accounts@[i as int].summary.id@);
        if str_eq(accounts[i].summary.id.as_str(), id) {
            proof {
                crate::text::lemma_first_where_at(ids, eq_to(id@), i as int);
            }
            return Some(i);
        }
        i += 1;
    }
    proof {
        crate::text::lemma_first_where_at(ids, eq_to(id@), ids.len() as int);
    }
    None
}

/// The keychain entry of the account `id`, which must exist.
pub fn credential_key(accounts: &[StoredCloudAccount], id: &str) -> (res: Result<String, String>)
    ensures
        ({
            let i = account_index(stored_views(accounts@), id@);
            match res {
                Ok(k) => i >= 0 && k@ == accounts@[i].credential_key@,
                Err(e) => i == -1 && e@ == "云账号不存在"@,
            }
        }),
{
    match find_account(accounts, id) {
        Some(i) => Ok(copy_string(&accounts[i].credential_key)),
        None => Err(owned("云账号不存在")),
    }
}

/// The keychain entry of the account `id`, which must exist and be verified.
pub fn verified_credential_key(accounts: &[StoredCloudAccount], id: &str) -> (res: Result<String, String>)
    ensures
        ({
            let i = account_index(stored_views(accounts@), id@);
            match res {
                Ok(k) => i >= 0 && accounts@[i].summary.verification_status@ == "已验证"@
                    && k@ == accounts@[i].credential_key@,
                Err(e) => (i == -1 && e@ == "云账号不存在"@) || (i >= 0
                    && accounts@[i].summary.verification_status@ != "已验证"@ && e@
                    == "请先验证阿里云账号"@),
            }
        }),
{
    match find_account(accounts, id) {
        Some(i) => {
            if !str_eq(accounts[i].summary.verification_status.as_str(), "已验证") {
                return Err(owned("请先验证阿里云账号"));
            }
            Ok(copy_string(&accounts[i].credential_key))
        },
        None => Err(owned("云账号不存在")),
    }
}

/// A summary marked verified for the cloud account `account_id` at time `now`.
pub open spec fn verified_summary(s: AccountView, account_id: Seq<char>, now: u64) -> AccountView {
    AccountView {
        id: s.id,
        provider: s.provider,
        display_name: s.display_name,
        auth_method: s.auth_method,
        access_key_hint: s.access_key_hint,
        verified_account_id: Some(account_id),
        verification_status: "已验证"@,
        created_at: s.created_at,
        updated_at: now,
    }
}

/// Records a successful identity check of account `id`: its summary now names the cloud
/// account and says it is verified, updated at `now`. Fails, changing nothing, when the
/// account was deleted meanwhile.
pub fn verify_account(
    accounts: &mut Vec<StoredCloudAccount>,
    id: &str,
    verified_account_id: String,
    now: u64,
) -> (res: Result<CloudAccountSummary, String>)
    ensures
        ({
            let i = account_index(stored_views(old(accounts)@), id@);
            match res {
                Ok(s) => i >= 0 && s@ == verified_summary(
                    old(accounts)@[i].summary@,
                    verified_account_id@,
                    now,
                ) && stored_views(final(accounts)@) == stored_views(old(accounts)@).update(
                    i,
                    StoredView { summary: s@, credential_key: old(accounts)@[i].credential_key@ },
                ),
                Err(e) => i == -1 && e@ == "云账号在验证期间已被删除"@ && final(accounts)@
                    == old(accounts)@,
            }
        }),
{
    let i = match find_account(accounts.as_slice(), id) {
        Some(i) => i,
        None => {
            return Err(owned("云账号在验证期间已被删除"));
        },
    };
    let old_summary = &accounts[i].summary;
    let summary = CloudAccountSummary {
        id: copy_string(&old_summary.id),
        provider: copy_string(&old_summary.provider),
        display_name: copy_string(&old_summary.display_name),
        auth_method: copy_string(&old_summary.auth_method),
        access_key_hint: copy_string(&old_summary.access_key_hint),
        verified_account_id: Some(verified_account_id),
        verification_status: owned("已验证"),
        created_at: old_summary.created_at,
        updated_at: now,
    };
    let result = copy_summary(&summary);
    let key = copy_string(&accounts[i].credential_key);
    let ghost before = stored_views(accounts@);
    accounts[i] = StoredCloudAccount { summary, credential_key: key };
    assert(stored_views(accounts@) == before.update(
        i as int,
        StoredView { summary: result@, credential_key: before[i as int].credential_key },
    ));
    Ok(result)
}

/// A new account after its identity check: identifier `aliyun-` and `uuid`, keychain entry
/// `cloud-account-` and the identifier, the trimmed display name, the masked AccessKey ID,
/// verified for the cloud account `verified_account_id`, created and updated at `now`.
pub fn new_account(input: &SaveCloudAccountInput, uuid: &str, verified_account_id: String, now: u64) -> (res: StoredCloudAccount)
    requires
        hint_ok(input.access_key_id@),
    ensures
        res.summary.id@ == "aliyun-"@ + uuid@,
        res.credential_key@ == "cloud-account-"@ + ("aliyun-"@ + uuid@),
        res.summary.provider@ == "aliyun"@,
        res.summary.display_name@ == trim(input.display_name@),
        res.summary.auth_method@ == input.auth_method@,
        res.summary.access_key_hint@ == hint_spec(input.access_key_id@),
        opt_str(res.summary.verified_account_id) == Some(verified_account_id@),
        res.summary.verification_status@ == "已验证"@,
        res.summary.created_at == now,
        res.summary.updated_at == now,
{
    let mut id = chars_of("aliyun-");
    push_str(&mut id, uuid);
    let id_s = string_of(id.as_slice());
    let mut key = chars_of("cloud-account-");
    push_all(&mut key, id.as_slice());
    StoredCloudAccount {
        summary: CloudAccountSummary {
            id: id_s,
            provider: owned("aliyun"),
            display_name: string_of(trim_str(input.display_name.as_str()).as_slice()),
            auth_method: copy_string(&input.auth_method),
            access_key_hint: hint(input.access_key_id.as_str()),
            verified_account_id: Some(verified_account_id),
            verification_status: owned("已验证"),
            created_at: now,
            updated_at: now,
        },
        credential_key: string_of(key.as_slice()),
    }
}

/// `new_account` under a fresh random identifier: `aliyun-` and a random text, with the
/// keychain entry `cloud-account-` and that identifier.
pub fn fresh_account(input: &SaveCloudAccountInput, verified_account_id: String, now: u64) -> (res: StoredCloudAccount)
    requires
        hint_ok(input.access_key_id@),
    ensures
        exists|u: Seq<char>| uuid_text(u) && res.summary.id@ == #[trigger] ("aliyun-"@ + u),
        res.credential_key@ == "cloud-account-"@ + res.summary.id@,
        res.summary.provider@ == "aliyun"@,
        res.summary.display_name@ == trim(input.display_name@),
        res.summary.auth_method@ == input.auth_method@,
        res.summary.access_key_hint@ == hint_spec(input.access_key_id@),
        opt_str(res.summary.verified_account_id) == Some(verified_account_id@),
        res.summary.verification_status@ == "已验证"@,
        res.summary.created_at == now,
        res.summary.updated_at == now,
{
    let uuid = new_uuid();
    new_account(input, uuid.as_str(), verified_account_id, now)
}

/// Which account to delete: refused while a managed rule still belongs to it, or when it
/// does not exist.
pub fn delete_account_index(rules: &[ManagedRuleConfig], accounts: &[StoredCloudAccount], id: &str) -> (res: Result<usize, String>)
    ensures
        ({
            let linked = exists|k: int| 0 <= k < rules@.len() && (#[trigger] rules@[k]).account_id@ == id@;
            let i = account_index(stored_views(accounts@), id@);
            match res {
                Ok(j) => !linked && i == j,
                Err(e) => (linked && e@ == "该账号仍有关联的受管安全组规则，请先在安全组页面删除受管规则"@)
                    || (!linked && i == -1 && e@ == "云账号不存在"@),
            }
        }),
{
    let mut k: usize = 0;
    while k < rules.len()
        invariant
            k <= rules.len(),
            forall|j: int| 0 <= j < k ==> (#[trigger] rules@[j]).account_id@ != id@,
        decreases rules.len() - k,
    {
        if str_eq(rules[k].account_id.as_str(), id) {
            return Err(owned("该账号仍有关联的受管安全组规则，请先在安全组页面删除受管规则"));
        }
        k += 1;
    }
    match find_account(accounts, id) {
        Some(i) => Ok(i),
        None => Err(owned("云账号不存在")),
    }
}

// ---------------------------------------------------------------------------
// Managed-rule bookkeeping
// ---------------------------------------------------------------------------

/// The prefix of every managed rule's fixed description.
pub const MANAGED_RULE_PREFIX: &'static str = "DomainEgress:v1:";

/// Refusal of a managed rule that does not exist.
pub open spec fn msg_no_rule() -> Seq<char> {
    "受管规则配置不存在"@
}

/// The plain values of managed rules.
pub open spec fn rule_views(v: Seq<ManagedRuleConfig>) -> Seq<RuleConfigView> {
    v.map_values(|c: ManagedRuleConfig| c@)
}

/// The identifiers of managed rules.
pub open spec fn rule_ids(v: Seq<RuleConfigView>) -> Seq<Seq<char>> {
    v.map_values(|c: RuleConfigView| c.id)
}

/// Index of the first managed rule with identifier `id`, or -1.
pub open spec fn rule_index(v: Seq<RuleConfigView>, id: Seq<char>) -> int {
    crate::text::first_where(rule_ids(v), eq_to(id))
}

/// Index of the managed rule `id`.
pub fn find_managed_rule(configs: &[ManagedRuleConfig], id: &str) -> (res: Result<usize, String>)
    ensures
        match res {
            Ok(i) => rule_index(rule_views(configs@), id@) == i && i < configs@.len(),
            Err(e) => rule_index(rule_views(configs@), id@) == -1 && e@ == msg_no_rule(),
        },
{
    let ghost ids = rule_ids(rule_views(configs@));
    let mut i: usize = 0;
    while i < configs.len()
        invariant
            i <= configs.len(),
            ids == rule_ids(rule_views(configs@)),
            forall|j: int| 0 <= j < i ==> !(eq_to(id@))(#[trigger] ids[j]),
        decreases configs.len() - i,
    {
        assert(ids[i as int] == configs@[i as int].id@);
        if str_eq(configs[i].id.as_str(), id) {
            proof {
                crate::text::lemma_first_where_at(ids, eq_to(id@), i as int);
            }
            return Ok(i);
        }
        i += 1;
    }
    proof {
        crate::text::lemma_first_where_at(ids, eq_to(id@), ids.len() as int);
    }
    Err(owned("受管规则配置不存在"))
}

/// The rules with the one whose identifier is `c.id` replaced by `c`, or `None` when there
/// is none.
pub open spec fn update_spec(v: Seq<RuleConfigView>, c: RuleConfigView) -> Option<Seq<RuleConfigView>> {
    let i = rule_index(v, c.id);
    if i < 0 {
        None
    } else {
        Some(v.update(i, c))
    }
}

/// Replaces the stored settings of a managed rule by `config`.
pub fn update_managed_config(configs: &mut Vec<ManagedRuleConfig>, config: ManagedRuleConfig) -> (res: Result<(), String>)
    ensures
        match update_spec(rule_views(old(configs)@), config@) {
            Some(v) => res is Ok && rule_views(final(configs)@) == v,
            None => res matches Err(e) && e@ == msg_no_rule() && final(configs)@ == old(configs)@,
        },
{
    match find_managed_rule(configs.as_slice(), config.id.as_str()) {
        Ok(i) => {
            let ghost before = rule_views(configs@);
            let ghost cv = config@;
            configs[i] = config;
            assert(rule_views(configs@) == before.update(i as int, cv));
            Ok(())
        },
        Err(e) => Err(e),
    }
}

/// A managed-rule sync outcome as plain values.
pub struct SyncView {
    pub config: RuleConfigView,
    pub action: Seq<char>,
    pub rule_id: Seq<char>,
}

impl View for ManagedRuleSyncResult {
    type V = SyncView;

    open spec fn view(&self) -> SyncView {
        SyncView { config: self.config@, action: self.action@, rule_id: self.rule_id@ }
    }
}

/// A sync result or its error as plain values.
pub open spec fn sync_result_view(r: Result<ManagedRuleSyncResult, String>) -> Result<SyncView, Seq<char>> {
    match r {
        Ok(x) => Ok(x@),
        Err(e) => Err(e@),
    }
}

/// A managed rule with the error of its last sync recorded.
pub open spec fn failed_config(c: RuleConfigView, e: Seq<char>) -> RuleConfigView {
    RuleConfigView {
        id: c.id,
        account_id: c.account_id,
        region: c.region,
        security_group_id: c.security_group_id,
        protocol: c.protocol,
        port_range: c.port_range,
        priority: c.priority,
        description: c.description,
        enabled: c.enabled,
        last_source_cidr: c.last_source_cidr,
        last_synced_at: c.last_synced_at,
        last_error: Some(e),
    }
}

/// `sync_managed_rule` after the cloud was asked: a success stores the rule's new settings
/// and is returned; a failure stores the error on the rule and is returned. When the rule
/// has gone from the store meanwhile, that is the error and nothing changes.
pub open spec fn sync_outcome_spec(v: Seq<RuleConfigView>, c: RuleConfigView, outcome: Result<SyncView, Seq<char>>) -> (Seq<RuleConfigView>, Result<SyncView, Seq<char>>) {
    match outcome {
        Ok(r) => match update_spec(v, r.config) {
            None => (v, Err(msg_no_rule())),
            Some(v2) => (v2, Ok(r)),
        },
        Err(e) => match update_spec(v, failed_config(c, e)) {
            None => (v, Err(msg_no_rule())),
            Some(v2) => (v2, Err(e)),
        },
    }
}

/// Records the outcome of bringing the managed rule `config` up to date in the store.
pub fn sync_managed_rule(
    configs: &mut Vec<ManagedRuleConfig>,
    config: &ManagedRuleConfig,
    outcome: Result<ManagedRuleSyncResult, String>,
) -> (res: Result<ManagedRuleSyncResult, String>)
    ensures
        ({
            let (v, r) = sync_outcome_spec(
                rule_views(old(configs)@),
                config@,
                sync_result_view(outcome),
            );
            rule_views(final(configs)@) == v && sync_result_view(res) == r
        }),
{
    match outcome {
        Ok(result) => {
            let stored = copy_rule_config(&result.config);
            match update_managed_config(configs, stored) {
                Ok(()) => Ok(result),
                Err(e) => Err(e),
            }
        },
        Err(error) => {
            let mut failed = copy_rule_config(config);
            failed.last_error = Some(copy_string(&error));
            match update_managed_config(configs, failed) {
                Ok(()) => Err(error),
                Err(e) => Err(e),
            }
        },
    }
}

/// The texts of the failed syncs, each `description: error`, in order.
pub open spec fn sync_errors(o: Seq<(Seq<char>, Result<SyncView, Seq<char>>)>) -> Seq<Seq<char>>
    decreases o.len(),
{
    if o.len() == 0 {
        seq![]
    } else {
        let r = sync_errors(o.drop_last());
        match o.last().1 {
            Err(e) => r.push(o.last().0 + ": "@ + e),
            Ok(_) => r,
        }
    }
}

/// The successful syncs, in order.
pub open spec fn sync_successes(o: Seq<(Seq<char>, Result<SyncView, Seq<char>>)>) -> Seq<SyncView>
    decreases o.len(),
{
    if o.len() == 0 {
        seq![]
    } else {
        let r = sync_successes(o.drop_last());
        match o.last().1 {
            Ok(x) => r.push(x),
            Err(_) => r,
        }
    }
}

/// `sync_all_managed_rules`: every result when all syncs succeeded, else one error that
/// lists every failure.
pub open spec fn sync_all_spec(o: Seq<(Seq<char>, Result<SyncView, Seq<char>>)>) -> Result<Seq<SyncView>, Seq<char>> {
    if sync_errors(o).len() > 0 {
        Err("部分受管规则更新失败："@ + join(sync_errors(o), "；"@))
    } else {
        Ok(sync_successes(o))
    }
}

/// The outcomes of syncing several rules, each with the rule's description, as plain values.
pub open spec fn outcome_views(o: Seq<(String, Result<ManagedRuleSyncResult, String>)>) -> Seq<(Seq<char>, Result<SyncView, Seq<char>>)> {
    o.map_values(|x: (String, Result<ManagedRuleSyncResult, String>)| (x.0@, sync_result_view(x.1)))
}

/// The plain values of sync results.
pub open spec fn sync_views(v: Seq<ManagedRuleSyncResult>) -> Seq<SyncView> {
    v.map_values(|x: ManagedRuleSyncResult| x@)
}

/// Combines the outcomes of syncing every enabled rule, each given with the rule's
/// description.
pub fn sync_all_managed_rules(outcomes: Vec<(String, Result<ManagedRuleSyncResult, String>)>) -> (res: Result<Vec<ManagedRuleSyncResult>, String>)
    ensures
        match res {
            Ok(v) => sync_all_spec(outcome_views(outcomes@)) == Ok::<Seq<SyncView>, Seq<char>>(
                sync_views(v@),
            ),
            Err(e) => sync_all_spec(outcome_views(outcomes@)) == Err::<Seq<SyncView>, Seq<char>>(
                e@,
            ),
        },
{
    let ghost orig = outcome_views(outcomes@);
    let n = outcomes.len();
    let mut src = outcomes;
    let mut results: Vec<ManagedRuleSyncResult> = Vec::new();
    let mut errors: Vec<Vec<char>> = Vec::new();
    let mut k: usize = 0;
    assert(orig.take(0) =~= Seq::<(Seq<char>, Result<SyncView, Seq<char>>)>::empty());
    while src.len() > 0
        invariant
            k <= n,
            orig.len() == n,
            k + src@.len() == n,
            outcome_views(src@) == orig.skip(k as int),
            sync_views(results@) == sync_successes(orig.take(k as int)),
            views(errors@) == sync_errors(orig.take(k as int)),
        decreases src.len(),
    {
        let ghost old_src = src@;
        let (desc, outcome) = src.remove(0);
        assert(outcome_views(old_src)[0] == (desc@, sync_result_view(outcome)));
        assert(orig.skip(k as int)[0] == orig[k as int]);
        assert(outcome_views(src@) == outcome_views(old_src).skip(1));
        assert(orig.skip(k as int).skip(1) == orig.skip(k + 1));
        assert(orig.take(k + 1).drop_last() == orig.take(k as int));
        assert(orig.take(k + 1).last() == orig[k as int]);
        let ghost rs = sync_views(results@);
        match outcome {
            Ok(r) => {
                results.push(r);
                assert(sync_views(results@) == rs.push(orig[k as int].1->Ok_0));
            },
            Err(e) => {
                let mut t = chars_of(desc.as_str());
                push_str(&mut t, ": ");
                push_str(&mut t, e.as_str());
                push_view(&mut errors, t);
            },
        }
        k += 1;
    }
    assert(orig.take(n as int) == orig);
    if errors.len() > 0 {
        let sep = chars_of("；");
        let joined = join_chars(&errors, sep.as_slice());
        let mut msg = chars_of("部分受管规则更新失败：");
        push_all(&mut msg, joined.as_slice());
        return Err(string_of(msg.as_slice()));
    }
    Ok(results)
}

/// The enabled rules, in order.
pub fn enabled_rules(configs: &[ManagedRuleConfig]) -> (res: Vec<ManagedRuleConfig>)
    ensures
        rule_views(res@) == rule_views(configs@).filter(|c: RuleConfigView| c.enabled),
{
    let mut out: Vec<ManagedRuleConfig> = Vec::new();
    let mut i: usize = 0;
    while i < configs.len()
        invariant
            i <= configs.len(),
            rule_views(out@) == rule_views(configs@).take(i as int).filter(
                |c: RuleConfigView| c.enabled,
            ),
        decreases configs.len() - i,
    {
        proof {
            reveal(Seq::filter);
        }
        assert(rule_views(configs@).take(i + 1).drop_last() == rule_views(configs@).take(i as int));
        assert(rule_views(configs@).take(i + 1).last() == configs@[i as int]@);
        if configs[i].enabled {
            let ghost before = rule_views(out@);
            out.push(copy_rule_config(&configs[i]));
            assert(rule_views(out@) == before.push(configs@[i as int]@));
        }
        i += 1;
    }
    assert(rule_views(configs@).take(configs.len() as int) == rule_views(configs@));
    out
}

/// Removes the managed rule `id` (every rule with that identifier), keeping the others in
/// order.
pub fn remove_managed_rule(configs: &mut Vec<ManagedRuleConfig>, id: &str)
    ensures
        rule_views(final(configs)@) == rule_views(old(configs)@).filter(
            |c: RuleConfigView| c.id != id@,
        ),
{
    let ghost orig = rule_views(configs@);
    let n = configs.len();
    let mut src: Vec<ManagedRuleConfig> = Vec::new();
    std::mem::swap(&mut src, configs);
    let mut out: Vec<ManagedRuleConfig> = Vec::new();
    let mut k: usize = 0;
    assert(orig.skip(0) == orig);
    while src.len() > 0
        invariant
            k <= n,
            orig.len() == n,
            k + src@.len() == n,
            rule_views(src@) == orig.skip(k as int),
            rule_views(out@) == orig.take(k as int).filter(|c: RuleConfigView| c.id != id@),
        decreases src.len(),
    {
        let ghost old_src = src@;
        let c = src.remove(0);
        assert(rule_views(old_src)[0] == c@);
        assert(orig.skip(k as int)[0] == orig[k as int]);
        assert(rule_views(src@) == rule_views(old_src).skip(1));
        assert(orig.skip(k as int).skip(1) == orig.skip(k + 1));
        assert(orig.take(k + 1).drop_last() == orig.take(k as int));
        assert(orig.take(k + 1).last() == orig[k as int]);
        proof {
            reveal(Seq::filter);
        }
        let ghost before = rule_views(out@);
        let ghost cv = c@;
        if !str_eq(c.id.as_str(), id) {
            out.push(c);
            assert(rule_views(out@) == before.push(cv));
        }
        k += 1;
    }
    assert(orig.take(n as int) == orig);
    *configs = out;
}

/// A new managed rule for the checked protocol and port range, enabled and never synced,
/// with the fixed description `MANAGED_RULE_PREFIX` and its identifier.
pub fn new_managed_rule(input: &CreateManagedRuleInput, protocol: String, port_range: String, id: &str) -> (res: ManagedRuleConfig)
    ensures
        res@ == (RuleConfigView {
            id: id@,
            account_id: input.account_id@,
            region: input.region@,
            security_group_id: input.security_group_id@,
            protocol: protocol@,
            port_range: port_range@,
            priority: input.priority,
            description: "DomainEgress:v1:"@ + id@,
            enabled: true,
            last_source_cidr: None,
            last_synced_at: None,
            last_error: None,
        }),
{
    let mut d = chars_of(MANAGED_RULE_PREFIX);
    push_str(&mut d, id);
    ManagedRuleConfig {
        id: owned(id),
        account_id: copy_string(&input.account_id),
        region: copy_string(&input.region),
        security_group_id: copy_string(&input.security_group_id),
        protocol,
        port_range,
        priority: input.priority,
        description: string_of(d.as_slice()),
        enabled: true,
        last_source_cidr: None,
        last_synced_at: None,
        last_error: None,
    }
}

/// `new_managed_rule` under a fresh random identifier.
pub fn fresh_managed_rule(input: &CreateManagedRuleInput, protocol: String, port_range: String) -> (res: ManagedRuleConfig)
    ensures
        res@ == (RuleConfigView {
            id: res@.id,
            account_id: input.account_id@,
            region: input.region@,
            security_group_id: input.security_group_id@,
            protocol: protocol@,
            port_range: port_range@,
            priority: input.priority,
            description: "DomainEgress:v1:"@ + res@.id,
            enabled: true,
            last_source_cidr: None,
            last_synced_at: None,
            last_error: None,
        }),
        uuid_text(res@.id),
{
    let id = new_uuid();
    new_managed_rule(input, protocol, port_range, id.as_str())
}

// ---------------------------------------------------------------------------
// Regions, groups and rules read from ECS responses
// ---------------------------------------------------------------------------

/// A rule of a security group as plain values.
pub struct SecurityRuleView {
    pub id: Seq<char>,
    pub direction: Seq<char>,
    pub protocol: Seq<char>,
    pub port_range: Seq<char>,
    pub priority: i32,
    pub action: Seq<char>,
    pub source_cidr: Seq<char>,
    pub description: Seq<char>,
    pub managed: bool,
}

impl View for CloudSecurityRule {
    type V = SecurityRuleView;

    open spec fn view(&self) -> SecurityRuleView {
        SecurityRuleView {
            id: self.id@,
            direction: self.direction@,
            protocol: self.protocol@,
            port_range: self.port_range@,
            priority: self.priority,
            action: self.action@,
            source_cidr: self.source_cidr@,
            description: self.description@,
            managed: self.managed,
        }
    }
}

/// A region from the fields of its response entry: none without an identifier; named by
/// its local name, or by its identifier when that is empty.
pub fn region_from_fields(id: String, local_name: String, endpoint: String) -> (res: Option<CloudRegion>)
    ensures
        match res {
            Some(r) => id@.len() > 0 && r.id@ == id@ && r.name@ == (if local_name@.len() == 0 {
                id@
            } else {
                local_name@
            }) && r.endpoint@ == endpoint@,
            None => id@.len() == 0,
        },
{
    if id.as_str().is_empty() {
        return None;
    }
    let name = if local_name.as_str().is_empty() {
        copy_string(&id)
    } else {
        local_name
    };
    Some(CloudRegion { id, name, endpoint })
}

/// A security group from the fields of its response entry: none without an identifier.
pub fn group_from_fields(id: String, name: String, vpc_id: String, group_type: String) -> (res: Option<CloudSecurityGroup>)
    ensures
        match res {
            Some(g) => id@.len() > 0 && g.id@ == id@ && g.name@ == name@ && g.vpc_id@ == vpc_id@
                && g.group_type@ == group_type@,
            None => id@.len() == 0,
        },
{
    if id.as_str().is_empty() {
        return None;
    }
    Some(CloudSecurityGroup { id, name, vpc_id, group_type })
}

/// The first text unless it is empty, else the second.
pub open spec fn or_else(a: Seq<char>, b: Seq<char>) -> Seq<char> {
    if a.len() == 0 {
        b
    } else {
        a
    }
}

fn or_else_exec(a: String, b: String) -> (res: String)
    ensures
        res@ == or_else(a@, b@),
{
    if a.as_str().is_empty() {
        b
    } else {
        a
    }
}

/// The fields of a rule entry of a `DescribeSecurityGroupAttribute` response.
#[derive(Clone, Debug)]
pub struct RuleFields {
    pub rule_id: String,
    pub direction: String,
    pub ip_protocol: String,
    pub port_range: String,
    pub priority: i32,
    pub policy: String,
    pub source_cidr_ip: String,
    pub ipv6_source_cidr_ip: String,
    pub dest_cidr_ip: String,
    pub ipv6_dest_cidr_ip: String,
    pub description: String,
}

/// A rule from its response entry, read in a query for `queried_direction`: the entry's
/// direction or else the queried one; the peer address on the rule's far side (source for
/// ingress, destination otherwise; IPv4, else IPv6); the protocol upper-cased; managed
/// when the description begins with `MANAGED_RULE_PREFIX`.
pub fn rule_from_fields(queried_direction: &str, f: RuleFields) -> (res: CloudSecurityRule)
    ensures
        ({
            let direction = or_else(f.direction@, queried_direction@);
            res@ == (SecurityRuleView {
                id: f.rule_id@,
                direction,
                protocol: unicode_uppercase(f.ip_protocol@),
                port_range: f.port_range@,
                priority: f.priority,
                action: f.policy@,
                source_cidr: if direction == "ingress"@ {
                    or_else(f.source_cidr_ip@, f.ipv6_source_cidr_ip@)
                } else {
                    or_else(f.dest_cidr_ip@, f.ipv6_dest_cidr_ip@)
                },
                description: f.description@,
                managed: crate::text::starts_with(f.description@, "DomainEgress:v1:"@),
            })
        }),
{
    let direction = or_else_exec(f.direction, owned(queried_direction));
    let source_cidr = if str_eq(direction.as_str(), "ingress") {
        or_else_exec(f.source_cidr_ip, f.ipv6_source_cidr_ip)
    } else {
        or_else_exec(f.dest_cidr_ip, f.ipv6_dest_cidr_ip)
    };
    let d = chars_of(f.description.as_str());
    let prefix = chars_of(MANAGED_RULE_PREFIX);
    let managed = crate::text::starts_with_chars(d.as_slice(), prefix.as_slice());
    CloudSecurityRule {
        id: f.rule_id,
        direction,
        protocol: to_uppercase(f.ip_protocol.as_str()),
        port_range: f.port_range,
        priority: f.priority,
        action: f.policy,
        source_cidr,
        description: f.description,
        managed,
    }
}

/// `str::parse::<i64>`: an optional sign, then one or more digits denoting a value within
/// the range of `i64`.
pub open spec fn parse_i64(s: Seq<char>) -> Option<int> {
    if s.len() > 0 && s[0] == '-' {
        match uint_parse(s.skip(1), 9223372036854775808) {
            Ok(v) => if s.len() > 1 && s[1] != '+' {
                Some(-v)
            } else {
                None
            },
            Err(_) => None,
        }
    } else {
        match uint_parse(s, 9223372036854775807) {
            Ok(v) => Some(v as int),
            Err(_) => None,
        }
    }
}

/// The priority of a rule entry: its number, else its text read as a number, else 0;
/// then kept to its low 32 bits (`as i32`).
pub open spec fn priority_spec(number: Option<i64>, text: Option<Seq<char>>) -> i32 {
    let v: int = match number {
        Some(n) => n as int,
        None => match text {
            Some(t) => match parse_i64(t) {
                Some(x) => x,
                None => 0,
            },
            None => 0,
        },
    };
    v as i64 as i32
}

/// The priority of a rule entry from its JSON number or string.
pub fn priority_value(number: Option<i64>, text: Option<&str>) -> (res: i32)
    ensures
        res == priority_spec(number, match text {
            Some(t) => Some(t@),
            None => None,
        }),
{
    let v: i64 = match number {
        Some(n) => n,
        None => match text {
            Some(t) => {
                let cs = chars_of(t);
                if cs.len() > 0 && cs[0] == '-' {
                    let rest = slice_of(cs.as_slice(), 1, cs.len());
                    assert(rest@ == cs@.skip(1));
                    match parse_uint_result(rest.as_slice(), 9223372036854775808) {
                        Ok(m) => if cs.len() > 1 && cs[1] != '+' {
                            if m == 9223372036854775808 {
                                i64::MIN
                            } else {
                                -(m as i64)
                            }
                        } else {
                            0
                        },
                        Err(_) => 0,
                    }
                } else {
                    match parse_uint_result(cs.as_slice(), 9223372036854775807) {
                        Ok(m) => m as i64,
                        Err(_) => 0,
                    }
                }
            },
            None => 0,
        },
    };
    #[verifier::truncate]
    (v as i32)
}

/// The error text of a failed ECS call: the action, the HTTP status, and the response's
/// `Code`, `Message` and `RequestId` (`Unknown` or `未返回` when absent).
pub open spec fn ecs_error_spec(action: Seq<char>, status: Seq<char>, code: Seq<char>, message: Seq<char>, request_id: Seq<char>) -> Seq<char> {
    "阿里云 ECS "@ + action + " 失败（HTTP "@ + status + "，Code="@ + or_else(code, "Unknown"@)
        + "，Message="@ + or_else(message, "未返回"@) + "，RequestId="@ + or_else(
        request_id,
        "未返回"@,
    ) + "）"@
}

/// The error text of a failed ECS call.
pub fn ecs_error_message(action: &str, status: &str, code: &str, message: &str, request_id: &str) -> (res: String)
    ensures
        res@ == ecs_error_spec(action@, status@, code@, message@, request_id@),
{
    let mut e = chars_of("阿里云 ECS ");
    push_str(&mut e, action);
    push_str(&mut e, " 失败（HTTP ");
    push_str(&mut e, status);
    push_str(&mut e, "，Code=");
    push_str(&mut e, or_else_exec(owned(code), owned("Unknown")).as_str());
    push_str(&mut e, "，Message=");
    push_str(&mut e, or_else_exec(owned(message), owned("未返回")).as_str());
    push_str(&mut e, "，RequestId=");
    push_str(&mut e, or_else_exec(owned(request_id), owned("未返回")).as_str());
    push_str(&mut e, "）");
    string_of(e.as_slice())
}

/// What the STS identity reply comes to: an error status, a body that does not read as an
/// identity, or an identity without account or ARN is refused; otherwise the account.
pub open spec fn identity_reply_spec(status: u16, identity: Option<(Seq<char>, Seq<char>)>) -> Result<Seq<char>, Seq<char>> {
    if !(200 <= status <= 299) {
        Err("阿里云身份校验失败，请检查 RAM AccessKey、网络及 STS 权限。"@)
    } else {
        match identity {
            None => Err("阿里云身份校验返回无效，请检查账号与网络。"@),
            Some((account, arn)) => if account.len() == 0 || arn.len() == 0 {
                Err("阿里云身份校验未返回完整账号信息。"@)
            } else {
                Ok(account)
            },
        }
    }
}

/// Judges the STS identity reply from its status and, when its body reads as one, the
/// identity's `AccountId` and `Arn`.
pub fn identity_reply(status: u16, identity: Option<(String, String)>) -> (res: Result<String, String>)
    ensures
        match res {
            Ok(a) => identity_reply_spec(status, match identity { Some((a, r)) => Some((a@, r@)), None => None }) == Ok::<Seq<char>, Seq<char>>(a@),
            Err(e) => identity_reply_spec(status, match identity { Some((a, r)) => Some((a@, r@)), None => None }) == Err::<Seq<char>, Seq<char>>(e@),
        },
{
    if !crate::network::http_success(status) {
        return Err(owned("阿里云身份校验失败，请检查 RAM AccessKey、网络及 STS 权限。"));
    }
    match identity {
        None => Err(owned("阿里云身份校验返回无效，请检查账号与网络。")),
        Some((account, arn)) => {
            if chars_of(account.as_str()).len() == 0 || chars_of(arn.as_str()).len() == 0 {
                Err(owned("阿里云身份校验未返回完整账号信息。"))
            } else {
                Ok(account)
            }
        },
    }
}

/// Refusal of an ECS reply that is not JSON, on an HTTP error status.
pub open spec fn msg_ecs_not_json(action: Seq<char>, status: Seq<char>) -> Seq<char> {
    "阿里云 ECS "@ + action + " 失败（HTTP "@ + status + "，响应不是有效 JSON）"@
}

/// Refusal of an ECS reply that is not JSON, on a success status.
pub open spec fn msg_ecs_invalid(action: Seq<char>) -> Seq<char> {
    "阿里云 ECS "@ + action + " 返回无效，请稍后重试。"@
}

/// What an ECS reply comes to: a reply that is no JSON is refused, by the status; an error
/// status, or a body with a `Code`, gives the error text of a failed call; otherwise the
/// body is taken.
pub open spec fn ecs_reply_spec(
    action: Seq<char>,
    status: u16,
    status_text: Seq<char>,
    json: bool,
    code: Option<Seq<char>>,
    message: Seq<char>,
    request_id: Seq<char>,
) -> Result<(), Seq<char>> {
    let success = 200 <= status <= 299;
    if !json {
        if !success {
            Err(msg_ecs_not_json(action, status_text))
        } else {
            Err(msg_ecs_invalid(action))
        }
    } else if !success || code is Some {
        Err(
            ecs_error_spec(
                action,
                status_text,
                match code {
                    Some(c) => c,
                    None => seq![],
                },
                message,
                request_id,
            ),
        )
    } else {
        Ok(())
    }
}

/// The text of an optional text.
pub open spec fn opt_text(o: Option<&str>) -> Option<Seq<char>> {
    match o {
        Some(c) => Some(c@),
        None => None,
    }
}

/// Judges an ECS reply from its status (number and text), whether its body is JSON, the
/// body's `Code` when it has one (the text, or empty when it is no text), and its
/// `Message` and `RequestId` texts (empty when absent).
pub fn ecs_reply_check(
    action: &str,
    status: u16,
    status_text: &str,
    json: bool,
    code: Option<&str>,
    message: &str,
    request_id: &str,
) -> (res: Result<(), String>)
    ensures
        res is Ok == ecs_reply_spec(action@, status, status_text@, json, opt_text(code), message@, request_id@) is Ok,
        res matches Err(e) ==> ecs_reply_spec(action@, status, status_text@, json, opt_text(code), message@, request_id@) == Err::<(), Seq<char>>(e@),
{
    let success = crate::network::http_success(status);
    if !json {
        let mut e = chars_of("阿里云 ECS ");
        push_str(&mut e, action);
        if !success {
            push_str(&mut e, " 失败（HTTP ");
            push_str(&mut e, status_text);
            push_str(&mut e, "，响应不是有效 JSON）");
        } else {
            push_str(&mut e, " 返回无效，请稍后重试。");
        }
        return Err(string_of(e.as_slice()));
    }
    match code {
        Some(c) => {
            Err(ecs_error_message(action, status_text, c, message, request_id))
        },
        None => {
            if !success {
                proof {
                    reveal_strlit("");
                }
                Err(ecs_error_message(action, status_text, "", message, request_id))
            } else {
                Ok(())
            }
        },
    }
}

/// A region identifier: nonempty ASCII letters, digits and hyphens.
pub open spec fn region_id_ok(region: Seq<char>) -> bool {
    region.len() > 0 && is_ascii(region) && forall|k: int|
        0 <= k < region.len() ==> is_ascii_alnum(#[trigger] region[k]) || region[k] == '-'
}

/// Checks a region identifier before it is sent.
pub fn check_region_id(region: &str) -> (res: Result<(), String>)
    ensures
        match res {
            Ok(()) => region_id_ok(region@),
            Err(e) => !region_id_ok(region@) && e@ == "地域标识无效"@,
        },
{
    let r = chars_of(region);
    if r.len() == 0 || !is_ascii_chars(r.as_slice()) {
        return Err(owned("地域标识无效"));
    }
    let mut i: usize = 0;
    while i < r.len()
        invariant
            i <= r.len(),
            r@ == region@,
            forall|k: int| 0 <= k < i ==> is_ascii_alnum(#[trigger] r@[k]) || r@[k] == '-',
        decreases r.len() - i,
    {
        let c = r[i];
        if !(('a' <= c && c <= 'z') || ('A' <= c && c <= 'Z') || ('0' <= c && c <= '9') || c
            == '-') {
            return Err(owned("地域标识无效"));
        }
        i += 1;
    }
    Ok(())
}

/// The ECS endpoint of a region: the one it reports, else `ecs.<region>.aliyuncs.com`.
pub open spec fn endpoint_spec(region: Seq<char>, endpoint: Seq<char>) -> Seq<char> {
    or_else(endpoint, "ecs."@ + region + ".aliyuncs.com"@)
}

/// The ECS endpoint of a region.
pub fn ecs_endpoint(region: &str, endpoint: &str) -> (res: String)
    ensures
        res@ == endpoint_spec(region@, endpoint@),
{
    let mut d = chars_of("ecs.");
    push_str(&mut d, region);
    push_str(&mut d, ".aliyuncs.com");
    or_else_exec(owned(endpoint), string_of(d.as_slice()))
}

/// The ECS endpoint of a region, which must be a host under `.aliyuncs.com`.
pub fn region_endpoint(region: &str, endpoint: &str) -> (res: Result<String, String>)
    ensures
        ({
            let e = endpoint_spec(region@, endpoint@);
            match res {
                Ok(x) => x@ == e && ends_with(e, ".aliyuncs.com"@) && !e.contains('/'),
                Err(m) => !(ends_with(e, ".aliyuncs.com"@) && !e.contains('/')) && m@
                    == "阿里云返回的地域 Endpoint 无效"@,
            }
        }),
{
    let e = ecs_endpoint(region, endpoint);
    let cs = chars_of(e.as_str());
    let suffix = chars_of(".aliyuncs.com");
    if !ends_with_chars(cs.as_slice(), suffix.as_slice()) || crate::text::contains_char(
        cs.as_slice(),
        '/',
    ) {
        return Err(owned("阿里云返回的地域 Endpoint 无效"));
    }
    Ok(e)
}

/// Index of the region `region` among those the account can use.
pub fn find_region(regions: &[CloudRegion], region: &str) -> (res: Result<usize, String>)
    ensures
        match res {
            Ok(i) => i < regions@.len() && regions@[i as int].id@ == region@ && forall|j: int|
                0 <= j < i ==> (#[trigger] regions@[j]).id@ != region@,
            Err(e) => (forall|j: int| 0 <= j < regions@.len() ==> (#[trigger] regions@[j]).id@
                != region@) && e@ == "所选地域不在该账号可用地域列表中"@,
        },
{
    let mut i: usize = 0;
    while i < regions.len()
        invariant
            i <= regions.len(),
            forall|j: int| 0 <= j < i ==> (#[trigger] regions@[j]).id@ != region@,
        decreases regions.len() - i,
    {
        if str_eq(regions[i].id.as_str(), region) {
            return Ok(i);
        }
        i += 1;
    }
    Err(owned("所选地域不在该账号可用地域列表中"))
}

/// Index of the security group `id` among those of the account and region.
pub fn find_group(groups: &[CloudSecurityGroup], id: &str) -> (res: Result<usize, String>)
    ensures
        match res {
            Ok(i) => i < groups@.len() && groups@[i as int].id@ == id@ && forall|j: int|
                0 <= j < i ==> (#[trigger] groups@[j]).id@ != id@,
            Err(e) => (forall|j: int| 0 <= j < groups@.len() ==> (#[trigger] groups@[j]).id@
                != id@) && e@ == "所选安全组不在当前账号与地域中"@,
        },
{
    let mut i: usize = 0;
    while i < groups.len()
        invariant
            i <= groups.len(),
            forall|j: int| 0 <= j < i ==> (#[trigger] groups@[j]).id@ != id@,
        decreases groups.len() - i,
    {
        if str_eq(groups[i].id.as_str(), id) {
            return Ok(i);
        }
        i += 1;
    }
    Err(owned("所选安全组不在当前账号与地域中"))
}

// ---------------------------------------------------------------------------
// Bringing a managed rule up to date
// ---------------------------------------------------------------------------

/// A cloud rule is the managed one with this description: an ingress rule carrying it.
pub open spec fn is_managed_remote(r: SecurityRuleView, description: Seq<char>) -> bool {
    r.direction == "ingress"@ && r.description == description
}

/// How many cloud rules carry a managed rule's description.
#[derive(Clone, Debug)]
pub enum RemoteMatch {
    /// None: the rule has to be created.
    Absent,
    /// Exactly one, at this index: it is updated.
    One(usize),
    /// Two or more: nothing is changed automatically.
    Several,
}

/// Looks for the cloud rule that carries a managed rule's description.
pub fn managed_remote(rules: &[CloudSecurityRule], description: &str) -> (res: RemoteMatch)
    ensures
        match res {
            RemoteMatch::Absent => forall|k: int|
                0 <= k < rules@.len() ==> !is_managed_remote(#[trigger] rules@[k]@, description@),
            RemoteMatch::One(i) => i < rules@.len() && is_managed_remote(
                rules@[i as int]@,
                description@,
            ) && forall|k: int|
                0 <= k < rules@.len() && k != i ==> !is_managed_remote(
                    #[trigger] rules@[k]@,
                    description@,
                ),
            RemoteMatch::Several => exists|a: int, b: int|
                0 <= a < b < rules@.len() && is_managed_remote(#[trigger] rules@[a]@, description@)
                    && is_managed_remote(#[trigger] rules@[b]@, description@),
        },
{
    let mut found: Option<usize> = None;
    let mut i: usize = 0;
    while i < rules.len()
        invariant
            i <= rules.len(),
            match found {
                None => forall|k: int|
                    0 <= k < i ==> !is_managed_remote(#[trigger] rules@[k]@, description@),
                Some(f) => f < i && is_managed_remote(rules@[f as int]@, description@) && forall|
                    k: int,
                |
                    0 <= k < i && k != f ==> !is_managed_remote(
                        #[trigger] rules@[k]@,
                        description@,
                    ),
            },
        decreases rules.len() - i,
    {
        if str_eq(rules[i].direction.as_str(), "ingress") && str_eq(
            rules[i].description.as_str(),
            description,
        ) {
            match found {
                Some(f) => {
                    assert(is_managed_remote(rules@[f as int]@, description@));
                    assert(is_managed_remote(rules@[i as int]@, description@));
                    return RemoteMatch::Several;
                },
                None => {
                    found = Some(i);
                },
            }
        }
        i += 1;
    }
    match found {
        Some(f) => RemoteMatch::One(f),
        None => RemoteMatch::Absent,
    }
}

/// The parameters of the call that points a managed rule at `source_cidr`: it modifies the
/// existing cloud rule `existing` when there is one, else it authorizes a new rule with the
/// fixed description on the group's NIC type (`internet` for a classic group, `intranet`
/// for one in a VPC). The client token is `de-` and `token`.
pub open spec fn sync_request_spec(
    c: RuleConfigView,
    protocol: Seq<char>,
    port_range: Seq<char>,
    source_cidr: Seq<char>,
    existing: Option<Seq<char>>,
    vpc_id: Seq<char>,
    token: Seq<char>,
) -> (Seq<char>, Seq<ParamView>) {
    match existing {
        Some(rule_id) => (
            "ModifySecurityGroupRule"@,
            seq![
                ("RegionId"@, c.region),
                ("SecurityGroupId"@, c.security_group_id),
                ("SecurityGroupRuleId"@, rule_id),
                ("IpProtocol"@, protocol),
                ("PortRange"@, port_range),
                ("SourceCidrIp"@, source_cidr),
                ("Policy"@, "accept"@),
                ("Priority"@, crate::text::decimal_signed(c.priority as int)),
                ("ClientToken"@, "de-"@ + token),
            ],
        ),
        None => (
            "AuthorizeSecurityGroup"@,
            seq![
                ("RegionId"@, c.region),
                ("SecurityGroupId"@, c.security_group_id),
                ("IpProtocol"@, protocol),
                ("PortRange"@, port_range),
                ("SourceCidrIp"@, source_cidr),
                ("Policy"@, "accept"@),
                ("Priority"@, crate::text::decimal_signed(c.priority as int)),
                ("Description"@, c.description),
                ("NicType"@, if vpc_id.len() == 0 {
                    "internet"@
                } else {
                    "intranet"@
                }),
                ("ClientToken"@, "de-"@ + token),
            ],
        ),
    }
}

fn pair(name: &str, value: String) -> (res: (String, String))
    ensures
        res.0@ == name@,
        res.1@ == value@,
{
    (owned(name), value)
}

/// The ECS action and parameters that point a managed rule at `source_cidr`.
pub fn sync_request(
    config: &ManagedRuleConfig,
    protocol: &str,
    port_range: &str,
    source_cidr: &str,
    existing: Option<&str>,
    vpc_id: &str,
    token: &str,
) -> (res: (String, Vec<(String, String)>))
    ensures
        ({
            let (a, ps) = sync_request_spec(
                config@,
                protocol@,
                port_range@,
                source_cidr@,
                match existing {
                    Some(x) => Some(x@),
                    None => None,
                },
                vpc_id@,
                token@,
            );
            res.0@ == a && param_views(res.1@) == ps
        }),
{
    let priority = string_of(crate::text::decimal_signed_chars(config.priority as i64).as_slice());
    let mut t = chars_of("de-");
    push_str(&mut t, token);
    let client_token = string_of(t.as_slice());
    let mut ps: Vec<(String, String)> = Vec::new();
    ps.push(pair("RegionId", copy_string(&config.region)));
    ps.push(pair("SecurityGroupId", copy_string(&config.security_group_id)));
    match existing {
        Some(rule_id) => {
            ps.push(pair("SecurityGroupRuleId", owned(rule_id)));
            ps.push(pair("IpProtocol", owned(protocol)));
            ps.push(pair("PortRange", owned(port_range)));
            ps.push(pair("SourceCidrIp", owned(source_cidr)));
            ps.push(pair("Policy", owned("accept")));
            ps.push(pair("Priority", priority));
            ps.push(pair("ClientToken", client_token));
            (owned("ModifySecurityGroupRule"), ps)
        },
        None => {
            let nic = if vpc_id.is_empty() {
                owned("internet")
            } else {
                owned("intranet")
            };
            ps.push(pair("IpProtocol", owned(protocol)));
            ps.push(pair("PortRange", owned(port_range)));
            ps.push(pair("SourceCidrIp", owned(source_cidr)));
            ps.push(pair("Policy", owned("accept")));
            ps.push(pair("Priority", priority));
            ps.push(pair("Description", copy_string(&config.description)));
            ps.push(pair("NicType", nic));
            ps.push(pair("ClientToken", client_token));
            (owned("AuthorizeSecurityGroup"), ps)
        },
    }
}

/// The cloud rule read back after a change is the expected one: the managed ingress rule
/// now pointed at `source_cidr`.
pub open spec fn is_expected_rule(r: SecurityRuleView, description: Seq<char>, source_cidr: Seq<char>) -> bool {
    is_managed_remote(r, description) && r.source_cidr == source_cidr
}

/// A managed rule once pointed at `source_cidr` at time `now`, with no error.
pub open spec fn synced_config(c: RuleConfigView, source_cidr: Seq<char>, now: u64) -> RuleConfigView {
    RuleConfigView {
        id: c.id,
        account_id: c.account_id,
        region: c.region,
        security_group_id: c.security_group_id,
        protocol: c.protocol,
        port_range: c.port_range,
        priority: c.priority,
        description: c.description,
        enabled: c.enabled,
        last_source_cidr: Some(source_cidr),
        last_synced_at: Some(now),
        last_error: None,
    }
}

/// The outcome of a sync once the cloud accepted the change: the first read-back rule that
/// is the expected one confirms it; the result then records the source and the time,
/// says whether the rule was `updated` or `created`, and names the cloud rule (the one
/// modified, or the one read back when that has no identifier).
pub fn finish_sync(
    config: &ManagedRuleConfig,
    source_cidr: &str,
    existing: Option<&str>,
    readback: &[CloudSecurityRule],
    now: u64,
) -> (res: Result<ManagedRuleSyncResult, String>)
    ensures
        match res {
            Ok(r) => exists|k: int|
                0 <= k < readback@.len() && is_expected_rule(
                    #[trigger] readback@[k]@,
                    config.description@,
                    source_cidr@,
                ) && (forall|j: int|
                    0 <= j < k ==> !is_expected_rule(
                        #[trigger] readback@[j]@,
                        config.description@,
                        source_cidr@,
                    )) && r@ == (SyncView {
                    config: synced_config(config@, source_cidr@, now),
                    action: if existing is Some {
                        "updated"@
                    } else {
                        "created"@
                    },
                    rule_id: match existing {
                        Some(x) => or_else(x@, readback@[k].id@),
                        None => readback@[k].id@,
                    },
                }),
            Err(e) => (forall|j: int|
                0 <= j < readback@.len() ==> !is_expected_rule(
                    #[trigger] readback@[j]@,
                    config.description@,
                    source_cidr@,
                )) && e@ == "阿里云已接受请求，但回读未找到期望的受管规则"@,
        },
{
    let mut i: usize = 0;
    while i < readback.len()
        invariant
            i <= readback.len(),
            forall|j: int|
                0 <= j < i ==> !is_expected_rule(
                    #[trigger] readback@[j]@,
                    config.description@,
                    source_cidr@,
                ),
        decreases readback.len() - i,
    {
        let r = &readback[i];
        if str_eq(r.direction.as_str(), "ingress") && str_eq(
            r.description.as_str(),
            config.description.as_str(),
        ) && str_eq(r.source_cidr.as_str(), source_cidr) {
            let mut updated = copy_rule_config(config);
            updated.last_source_cidr = Some(owned(source_cidr));
            updated.last_synced_at = Some(now);
            updated.last_error = None;
            let action = if existing.is_some() {
                owned("updated")
            } else {
                owned("created")
            };
            let rule_id = match existing {
                Some(x) => or_else_exec(owned(x), copy_string(&r.id)),
                None => copy_string(&r.id),
            };
            assert(is_expected_rule(readback@[i as int]@, config.description@, source_cidr@));
            return Ok(ManagedRuleSyncResult { config: updated, action, rule_id });
        }
        i += 1;
    }
    Err(owned("阿里云已接受请求，但回读未找到期望的受管规则"))
}

/// The parameters of the call that revokes the cloud rule `rule_id` of a managed rule.
pub open spec fn revoke_request_spec(c: RuleConfigView, rule_id: Seq<char>, token: Seq<char>) -> Seq<ParamView> {
    seq![
        ("RegionId"@, c.region),
        ("SecurityGroupId"@, c.security_group_id),
        ("SecurityGroupRuleId.1"@, rule_id),
        ("ClientToken"@, "de-"@ + token),
    ]
}

/// The parameters of the call that revokes the cloud rule `rule_id` of a managed rule.
pub fn revoke_request(config: &ManagedRuleConfig, rule_id: &str, token: &str) -> (res: Vec<(String, String)>)
    ensures
        param_views(res@) == revoke_request_spec(config@, rule_id@, token@),
{
    let mut t = chars_of("de-");
    push_str(&mut t, token);
    let mut ps: Vec<(String, String)> = Vec::new();
    ps.push(pair("RegionId", copy_string(&config.region)));
    ps.push(pair("SecurityGroupId", copy_string(&config.security_group_id)));
    ps.push(pair("SecurityGroupRuleId.1", owned(rule_id)));
    ps.push(pair("ClientToken", string_of(t.as_slice())));
    ps
}

/// `revoke_request` with a fresh random client token, a UUID text.
pub fn revoke_call(config: &ManagedRuleConfig, rule_id: &str) -> (res: Vec<(String, String)>)
    ensures
        exists|token: Seq<char>|
            uuid_text(token) && param_views(res@) == #[trigger] revoke_request_spec(config@, rule_id@, token),
{
    let token = new_uuid();
    revoke_request(config, rule_id, token.as_str())
}

/// `sync_request` with a fresh random client token, a UUID text.
pub fn sync_call(
    config: &ManagedRuleConfig,
    protocol: &str,
    port_range: &str,
    source_cidr: &str,
    existing: Option<&str>,
    vpc_id: &str,
) -> (res: (String, Vec<(String, String)>))
    ensures
        exists|token: Seq<char>|
            #![trigger sync_request_spec(config@, protocol@, port_range@, source_cidr@, str_opt(existing), vpc_id@, token)]
            uuid_text(token) && res.0@ == sync_request_spec(
                config@,
                protocol@,
                port_range@,
                source_cidr@,
                str_opt(existing),
                vpc_id@,
                token,
            ).0 && param_views(res.1@) == sync_request_spec(
                config@,
                protocol@,
                port_range@,
                source_cidr@,
                str_opt(existing),
                vpc_id@,
                token,
            ).1,
{
    let token = new_uuid();
    let res = sync_request(config, protocol, port_range, source_cidr, existing, vpc_id, token.as_str());
    proof {
        let sp = sync_request_spec(
            config@,
            protocol@,
            port_range@,
            source_cidr@,
            str_opt(existing),
            vpc_id@,
            token@,
        );
        assert(res.0@ == sp.0 && param_views(res.1@) == sp.1);
    }
    res
}

/// The text an optional string slice holds.
pub open spec fn str_opt(o: Option<&str>) -> Option<Seq<char>> {
    match o {
        Some(x) => Some(x@),
        None => None,
    }
}

/// After a revocation, no cloud rule may still carry the managed description.
pub fn check_revoked(rules: &[CloudSecurityRule], description: &str) -> (res: Result<(), String>)
    ensures
        match res {
            Ok(()) => forall|k: int|
                0 <= k < rules@.len() ==> (#[trigger] rules@[k]).description@ != description@,
            Err(e) => (exists|k: int|
                0 <= k < rules@.len() && (#[trigger] rules@[k]).description@ == description@)
                && e@ == "阿里云已接受删除请求，但回读仍发现受管规则"@,
        },
{
    let mut i: usize = 0;
    while i < rules.len()
        invariant
            i <= rules.len(),
            forall|k: int| 0 <= k < i ==> (#[trigger] rules@[k]).description@ != description@,
        decreases rules.len() - i,
    {
        if str_eq(rules[i].description.as_str(), description) {
            return Err(owned("阿里云已接受删除请求，但回读仍发现受管规则"));
        }
        i += 1;
    }
    Ok(())
}


// ---------------------------------------------------------------------------
// Paging through security groups and their rules
// ---------------------------------------------------------------------------

/// Refusal of a rule listing without a security group.
pub open spec fn msg_no_group_selected() -> Seq<char> {
    "请选择安全组"@
}

/// A security group must be chosen (not blank) before its rules are listed.
pub fn check_group_selected(security_group_id: &str) -> (res: Result<(), String>)
    ensures
        match res {
            Ok(()) => trim(security_group_id@).len() > 0,
            Err(e) => trim(security_group_id@).len() == 0 && e@ == msg_no_group_selected(),
        },
{
    if trim_str(security_group_id).len() == 0 {
        return Err(owned("请选择安全组"));
    }
    Ok(())
}

/// The direction and NIC type of each rule listing of a group: for a classic group (no
/// VPC) ingress and egress on the internet and intranet NICs; for a VPC group intranet
/// ingress and egress without a NIC type.
pub open spec fn rule_queries_spec(vpc_id: Seq<char>) -> Seq<(Seq<char>, Option<Seq<char>>)> {
    if vpc_id.len() == 0 {
        seq![
            ("ingress"@, Some("internet"@)),
            ("ingress"@, Some("intranet"@)),
            ("egress"@, Some("internet"@)),
            ("egress"@, Some("intranet"@)),
        ]
    } else {
        seq![("ingress"@, Some("intranet"@)), ("egress"@, None)]
    }
}

/// The rule listings of a group as plain values.
pub open spec fn query_views(v: Seq<(String, Option<String>)>) -> Seq<(Seq<char>, Option<Seq<char>>)> {
    v.map_values(|q: (String, Option<String>)| (q.0@, opt_str(q.1)))
}

fn query(direction: &str, nic: Option<&str>) -> (res: (String, Option<String>))
    ensures
        res.0@ == direction@,
        opt_str(res.1) == match nic {
            Some(n) => Some(n@),
            None => None,
        },
{
    (owned(direction), match nic {
        Some(n) => Some(owned(n)),
        None => None,
    })
}

/// The rule listings of a group with VPC `vpc_id` (empty for a classic group).
pub fn rule_queries(vpc_id: &str) -> (res: Vec<(String, Option<String>)>)
    ensures
        query_views(res@) == rule_queries_spec(vpc_id@),
{
    let mut v: Vec<(String, Option<String>)> = Vec::new();
    if vpc_id.unicode_len() == 0 {
        v.push(query("ingress", Some("internet")));
        v.push(query("ingress", Some("intranet")));
        v.push(query("egress", Some("internet")));
        v.push(query("egress", Some("intranet")));
    } else {
        v.push(query("ingress", Some("intranet")));
        v.push(query("egress", None));
    }
    assert(query_views(v@) =~= rule_queries_spec(vpc_id@));
    v
}

/// The parameters of one page of a rule listing: region, group, direction, 100 results,
/// the NIC type when there is one, and the page token when it is not the first page.
pub open spec fn rule_page_params_spec(
    region: Seq<char>,
    group: Seq<char>,
    direction: Seq<char>,
    nic: Option<Seq<char>>,
    token: Seq<char>,
) -> Seq<ParamView> {
    let base = seq![
        ("RegionId"@, region),
        ("SecurityGroupId"@, group),
        ("Direction"@, direction),
        ("MaxResults"@, "100"@),
    ];
    let with_nic = match nic {
        Some(n) => base.push(("NicType"@, n)),
        None => base,
    };
    if token.len() == 0 {
        with_nic
    } else {
        with_nic.push(("NextToken"@, token))
    }
}

/// The parameters of one page of a rule listing.
pub fn rule_page_params(region: &str, group: &str, direction: &str, nic: Option<&str>, token: &str) -> (res: Vec<(String, String)>)
    ensures
        param_views(res@) == rule_page_params_spec(
            region@,
            group@,
            direction@,
            match nic {
                Some(n) => Some(n@),
                None => None,
            },
            token@,
        ),
{
    let mut ps: Vec<(String, String)> = Vec::new();
    ps.push(pair("RegionId", owned(region)));
    ps.push(pair("SecurityGroupId", owned(group)));
    ps.push(pair("Direction", owned(direction)));
    ps.push(pair("MaxResults", owned("100")));
    match nic {
        Some(n) => ps.push(pair("NicType", owned(n))),
        None => {},
    }
    if token.unicode_len() > 0 {
        ps.push(pair("NextToken", owned(token)));
    }
    assert(param_views(ps@) =~= rule_page_params_spec(
        region@,
        group@,
        direction@,
        match nic {
            Some(n) => Some(n@),
            None => None,
        },
        token@,
    ));
    ps
}

/// The parameters of one page of the group listing: region, 100 results, and the page
/// token when it is not the first page.
pub open spec fn group_page_params_spec(region: Seq<char>, token: Seq<char>) -> Seq<ParamView> {
    let base = seq![("RegionId"@, region), ("MaxResults"@, "100"@)];
    if token.len() == 0 {
        base
    } else {
        base.push(("NextToken"@, token))
    }
}

/// The parameters of one page of the group listing.
pub fn group_page_params(region: &str, token: &str) -> (res: Vec<(String, String)>)
    ensures
        param_views(res@) == group_page_params_spec(region@, token@),
{
    let mut ps: Vec<(String, String)> = Vec::new();
    ps.push(pair("RegionId", owned(region)));
    ps.push(pair("MaxResults", owned("100")));
    if token.unicode_len() > 0 {
        ps.push(pair("NextToken", owned(token)));
    }
    assert(param_views(ps@) =~= group_page_params_spec(region@, token@));
    ps
}

/// Refusal of a listing whose pages repeat a page token.
pub open spec fn msg_repeated_token(rules: bool) -> Seq<char> {
    if rules {
        "阿里云安全组规则分页返回了重复 NextToken，已停止读取"@
    } else {
        "阿里云安全组分页返回了重复 NextToken，已停止读取"@
    }
}

/// After a page: no token ends the listing (`None`); a token seen before is refused (for
/// the rule listing when `rules`, else for the group listing); a new token is remembered
/// and asks for the next page.
pub fn next_page(seen: &mut Vec<String>, token: String, rules: bool) -> (res: Result<Option<String>, String>)
    ensures
        token@.len() == 0 ==> (res matches Ok(None) && final(seen)@ == old(seen)@),
        token@.len() > 0 && crate::text::strs(old(seen)@).contains(token@) ==> (res matches Err(e)
            && e@ == msg_repeated_token(rules) && final(seen)@ == old(seen)@),
        token@.len() > 0 && !crate::text::strs(old(seen)@).contains(token@) ==> (res matches Ok(
            Some(t),
        ) && t@ == token@ && crate::text::strs(final(seen)@) == crate::text::strs(old(seen)@).push(
            token@,
        )),
{
    if token.as_str().unicode_len() == 0 {
        return Ok(None);
    }
    let mut i: usize = 0;
    while i < seen.len()
        invariant
            i <= seen.len(),
            forall|j: int| 0 <= j < i ==> seen@[j]@ != token@,
            token@.len() > 0,
            seen@ == old(seen)@,
        decreases seen.len() - i,
    {
        if str_eq(seen[i].as_str(), token.as_str()) {
            assert(crate::text::strs(seen@)[i as int] == token@);
            return Err(if rules {
                owned("阿里云安全组规则分页返回了重复 NextToken，已停止读取")
            } else {
                owned("阿里云安全组分页返回了重复 NextToken，已停止读取")
            });
        }
        i += 1;
    }
    assert(!crate::text::strs(seen@).contains(token@)) by {
        if crate::text::strs(seen@).contains(token@) {
            let k = choose|k: int| 0 <= k < crate::text::strs(seen@).len() && crate::text::strs(seen@)[k] == token@;
            assert(seen@[k]@ == token@);
        }
    }
    let ghost before = crate::text::strs(seen@);
    seen.push(owned(token.as_str()));
    assert(crate::text::strs(seen@) == before.push(token@));
    Ok(Some(token))
}

} // verus!
