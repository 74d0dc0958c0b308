//! IP addresses in text: reading the notations `IpAddr`, `Ipv4Addr` and `Ipv6Addr` accept,
//! and writing the canonical text of an address.
use crate::text::{all_digits, all_hex, chars_of, decimal, decimal_chars, digits_value, hex_lower, hex_lower_chars, hex_value, is_digit, join, join_chars, parse_digits, parse_hex4, push_all, push_view, slice_of, split_char, split_of, string_of, views};
use vstd::prelude::*;

verus! {

/// An IP address: four octets, or eight 16-bit groups.
#[derive(Clone, Debug, PartialEq, Eq)]
pub enum IpAddress {
    V4(Vec<u8>),
    V6(Vec<u16>),
}

/// An IP address as plain values.
pub enum IpValue {
    V4(Seq<u8>),
    V6(Seq<u16>),
}

impl View for IpAddress {
    type V = IpValue;

    open spec fn view(&self) -> IpValue {
        match self {
            IpAddress::V4(o) => IpValue::V4(o@),
            IpAddress::V6(g) => IpValue::V6(g@),
        }
    }
}

// ---------------------------------------------------------------------------
// Reading
// ---------------------------------------------------------------------------

/// One decimal octet of an IPv4 address: one to three digits, at most 255, and no leading
/// zero unless it is `"0"`.
pub open spec fn octet_value(p: Seq<char>) -> Option<u8> {
    if 1 <= p.len() <= 3 && all_digits(p) && digits_value(p) <= 255 && (p.len() == 1 || p[0]
        != '0') {
        Some(digits_value(p) as u8)
    } else {
        None
    }
}

/// Dotted-quad notation (`Ipv4Addr::from_str`): exactly four octets separated by `'.'`.
pub open spec fn ipv4_parse(s: Seq<char>) -> Option<Seq<u8>> {
    let parts = split_char(s, '.');
    if parts.len() == 4 && octet_value(parts[0]) is Some && octet_value(parts[1]) is Some
        && octet_value(parts[2]) is Some && octet_value(parts[3]) is Some {
        Some(
            seq![
                octet_value(parts[0])->0,
                octet_value(parts[1])->0,
                octet_value(parts[2])->0,
                octet_value(parts[3])->0,
            ],
        )
    } else {
        None
    }
}

/// One group of an IPv6 address: one to four hexadecimal digits.
pub open spec fn group_value(p: Seq<char>) -> Option<u16> {
    if 1 <= p.len() <= 4 && all_hex(p) {
        Some(hex_value(p) as u16)
    } else {
        None
    }
}

/// Every piece is a group.
pub open spec fn all_groups(parts: Seq<Seq<char>>) -> bool {
    forall|i: int| 0 <= i < parts.len() ==> (#[trigger] group_value(parts[i])) is Some
}

/// The values of pieces that are all groups.
pub open spec fn group_values(parts: Seq<Seq<char>>) -> Seq<u16> {
    parts.map_values(|p: Seq<char>| group_value(p)->0)
}

/// The two groups an IPv4 address embedded at the end of an IPv6 address stands for.
pub open spec fn v4_groups(o: Seq<u8>) -> Seq<u16> {
    seq![(o[0] as int * 256 + o[1] as int) as u16, (o[2] as int * 256 + o[3] as int) as u16]
}

/// Groups separated by single `':'`; when `v4_tail` holds, the last piece may instead be an
/// embedded IPv4 address, which stands for two groups. The empty text has no groups.
pub open spec fn groups_of(p: Seq<char>, v4_tail: bool) -> Option<Seq<u16>> {
    if p.len() == 0 {
        Some(seq![])
    } else {
        let parts = split_char(p, ':');
        let init = parts.drop_last();
        let last = parts.last();
        if !all_groups(init) {
            None
        } else if group_value(last) is Some {
            Some(group_values(init).push(group_value(last)->0))
        } else if v4_tail && ipv4_parse(last) is Some {
            Some(group_values(init) + v4_groups(ipv4_parse(last)->0))
        } else {
            None
        }
    }
}

/// Index of the first `"::"` in `s`, or -1.
pub open spec fn find_double_colon(s: Seq<char>) -> int
    decreases s.len(),
{
    if s.len() < 2 {
        -1
    } else if s[0] == ':' && s[1] == ':' {
        0
    } else {
        let r = find_double_colon(s.skip(1));
        if r < 0 {
            -1
        } else {
            r + 1
        }
    }
}

/// `n` zero groups.
pub open spec fn zeros(n: nat) -> Seq<u16> {
    Seq::new(n, |i: int| 0u16)
}

/// IPv6 notation (`Ipv6Addr::from_str`): eight groups, or a `"::"` standing for one or more
/// zero groups between the groups before it and the groups after it; the last two groups
/// may be written as an IPv4 address, though not before the `"::"`.
pub open spec fn ipv6_parse(s: Seq<char>) -> Option<Seq<u16>> {
    let k = find_double_colon(s);
    if k >= 0 {
        match (groups_of(s.take(k), false), groups_of(s.skip(k + 2), true)) {
            (Some(h), Some(t)) => if h.len() + t.len() <= 7 {
                Some(h + zeros((8 - h.len() - t.len()) as nat) + t)
            } else {
                None
            },
            _ => None,
        }
    } else {
        match groups_of(s, true) {
            Some(g) => if g.len() == 8 {
                Some(g)
            } else {
                None
            },
            None => None,
        }
    }
}

/// IP notation (`IpAddr::from_str`): an IPv4 address, else an IPv6 address.
pub open spec fn ip_parse(s: Seq<char>) -> Option<IpValue> {
    match ipv4_parse(s) {
        Some(o) => Some(IpValue::V4(o)),
        None => match ipv6_parse(s) {
            Some(g) => Some(IpValue::V6(g)),
            None => None,
        },
    }
}

// ---------------------------------------------------------------------------
// Writing
// ---------------------------------------------------------------------------

/// Dotted decimal text of four octets.
pub open spec fn ipv4_text(o: Seq<u8>) -> Seq<char> {
    decimal(o[0] as nat) + seq!['.'] + decimal(o[1] as nat) + seq!['.'] + decimal(o[2] as nat)
        + seq!['.'] + decimal(o[3] as nat)
}

/// Groups in lower-case hexadecimal, separated by `':'`.
pub open spec fn hex_list(g: Seq<u16>) -> Seq<char> {
    join(g.map_values(|x: u16| hex_lower(x as nat)), seq![':'])
}

/// Number of consecutive zero groups starting at `i`.
pub open spec fn zero_run(g: Seq<u16>, i: int) -> nat
    decreases g.len() - i,
{
    if 0 <= i < g.len() && g[i] == 0 {
        1 + zero_run(g, i + 1)
    } else {
        0
    }
}

/// `i` starts the first of the longest runs of zero groups.
pub open spec fn is_longest_run(g: Seq<u16>, i: int) -> bool {
    &&& 0 <= i < g.len()
    &&& forall|j: int| 0 <= j < g.len() ==> zero_run(g, j) <= zero_run(g, i)
    &&& forall|j: int| 0 <= j < i ==> zero_run(g, j) < zero_run(g, i)
}

/// An IPv4-mapped address (`::ffff:a.b.c.d`).
pub open spec fn is_v4_mapped(g: Seq<u16>) -> bool {
    g[0] == 0 && g[1] == 0 && g[2] == 0 && g[3] == 0 && g[4] == 0 && g[5] == 0xffff
}

/// The four octets of the two last groups.
pub open spec fn last_v4(g: Seq<u16>) -> Seq<u8> {
    seq![(g[6] / 256) as u8, (g[6] % 256) as u8, (g[7] / 256) as u8, (g[7] % 256) as u8]
}

/// Canonical IPv6 text as `Display` writes it: an IPv4-mapped address as `::ffff:` and
/// dotted decimal; otherwise the first longest run of two or more zero groups replaced by
/// `"::"`, every group in lower-case hexadecimal without leading zeros.
pub open spec fn ipv6_text(g: Seq<u16>) -> Seq<char> {
    if is_v4_mapped(g) {
        seq![':', ':', 'f', 'f', 'f', 'f', ':'] + ipv4_text(last_v4(g))
    } else {
        let i = choose|i: int| is_longest_run(g, i);
        let n = zero_run(g, i);
        if n > 1 {
            hex_list(g.take(i)) + seq![':', ':'] + hex_list(g.skip(i + n))
        } else {
            hex_list(g)
        }
    }
}

/// The canonical text of an IP address.
pub open spec fn ip_text(a: IpValue) -> Seq<char> {
    match a {
        IpValue::V4(o) => ipv4_text(o),
        IpValue::V6(g) => ipv6_text(g),
    }
}

/// The address is well formed: four octets, or eight groups.
pub open spec fn ip_wf(a: IpValue) -> bool {
    match a {
        IpValue::V4(o) => o.len() == 4,
        IpValue::V6(g) => g.len() == 8,
    }
}

// ---------------------------------------------------------------------------
// Lemmas
// ---------------------------------------------------------------------------

/// What `find_double_colon` returns: the first position of `"::"`, or -1.
pub proof fn lemma_find_double_colon(s: Seq<char>)
    ensures
        -1 <= find_double_colon(s) <= s.len() - 2 || find_double_colon(s) == -1,
        find_double_colon(s) >= 0 ==> s[find_double_colon(s)] == ':' && s[find_double_colon(s)
            + 1] == ':',
        forall|j: int|
            #![trigger s[j]]
            0 <= j < s.len() - 1 && (find_double_colon(s) < 0 || j < find_double_colon(s))
                ==> !(s[j] == ':' && s[j + 1] == ':'),
    decreases s.len(),
{
    if s.len() >= 2 && !(s[0] == ':' && s[1] == ':') {
        lemma_find_double_colon(s.skip(1));
        assert forall|j: int|
            #![trigger s[j]]
            0 <= j < s.len() - 1 && (find_double_colon(s) < 0 || j < find_double_colon(s))
                implies !(s[j] == ':' && s[j + 1] == ':') by {
            if j > 0 {
                assert(s[j] == s.skip(1)[j - 1]);
                assert(s[j + 1] == s.skip(1)[j]);
            }
        }
    }
}

/// The first `"::"` is determined by the characters before it.
pub proof fn lemma_find_double_colon_at(s: Seq<char>, i: int)
    requires
        0 <= i <= s.len(),
        forall|j: int|
            #![trigger s[j]]
            0 <= j < i && j + 1 < s.len() ==> !(s[j] == ':' && s[j + 1] == ':'),
        (i + 1 < s.len() && s[i] == ':' && s[i + 1] == ':') || i + 1 >= s.len(),
    ensures
        find_double_colon(s) == (if i + 1 < s.len() {
            i
        } else {
            -1
        }),
{
    lemma_find_double_colon(s);
    let f = find_double_colon(s);
    if f >= 0 && f < i {
        assert(!(s[f] == ':' && s[f + 1] == ':'));
    }
    if i + 1 < s.len() && (f < 0 || f > i) {
        assert(!(s[i] == ':' && s[i + 1] == ':'));
    }
}

// ---------------------------------------------------------------------------
// Executable reading
// ---------------------------------------------------------------------------

/// One decimal octet, or `None` when the text is not one.
pub fn parse_octet(p: &[char]) -> (res: Option<u8>)
    ensures
        match res {
            Some(v) => octet_value(p@) == Some(v),
            None => octet_value(p@) is None,
        },
{
    if p.len() == 0 || p.len() > 3 {
        return None;
    }
    let mut i: usize = 0;
    while i < p.len()
        invariant
            i <= p.len(),
            forall|j: int| 0 <= j < i ==> is_digit(#[trigger] p@[j]),
        decreases p.len() - i,
    {
        if !('0' <= p[i] && p[i] <= '9') {
            assert(!is_digit(p@[i as int]));
            return None;
        }
        i += 1;
    }
    if p.len() > 1 && p[0] == '0' {
        return None;
    }
    match parse_digits(p, 255) {
        Some(v) => Some(v as u8),
        None => None,
    }
}

/// Reads dotted-quad notation.
pub fn parse_ipv4_chars(s: &[char]) -> (res: Option<Vec<u8>>)
    ensures
        match res {
            Some(o) => ipv4_parse(s@) == Some(o@) && o@.len() == 4,
            None => ipv4_parse(s@) is None,
        },
{
    let parts = split_of(s, '.');
    if parts.len() != 4 {
        return None;
    }
    assert(views(parts@)[0] == parts@[0]@);
    assert(views(parts@)[1] == parts@[1]@);
    assert(views(parts@)[2] == parts@[2]@);
    assert(views(parts@)[3] == parts@[3]@);
    let a = parse_octet(parts[0].as_slice());
    let b = parse_octet(parts[1].as_slice());
    let c = parse_octet(parts[2].as_slice());
    let d = parse_octet(parts[3].as_slice());
    match (a, b, c, d) {
        (Some(a), Some(b), Some(c), Some(d)) => {
            let mut o: Vec<u8> = Vec::new();
            o.push(a);
            o.push(b);
            o.push(c);
            o.push(d);
            assert(o@ == seq![a, b, c, d]);
            Some(o)
        },
        _ => None,
    }
}

/// Reads colon-separated groups (see `groups_of`).
pub fn parse_groups(p: &[char], v4_tail: bool) -> (res: Option<Vec<u16>>)
    ensures
        match res {
            Some(g) => groups_of(p@, v4_tail) == Some(g@),
            None => groups_of(p@, v4_tail) is None,
        },
{
    if p.len() == 0 {
        let out: Vec<u16> = Vec::new();
        assert(out@ == Seq::<u16>::empty());
        return Some(out);
    }
    let parts = split_of(p, ':');
    let ghost pv = views(parts@);
    let n = parts.len();
    let mut out: Vec<u16> = Vec::new();
    let mut i: usize = 0;
    while i + 1 < n
        invariant
            n == parts@.len() >= 1,
            pv == views(parts@),
            pv == split_char(p@, ':'),
            p@.len() > 0,
            i + 1 <= n,
            forall|j: int| 0 <= j < i ==> (#[trigger] group_value(pv[j])) is Some,
            out@ == group_values(pv.take(i as int)),
        decreases n - i,
    {
        assert(pv[i as int] == parts@[i as int]@);
        match parse_hex4(parts[i].as_slice()) {
            Some(v) => {
                assert(group_value(pv[i as int]) == Some(v));
                out.push(v);
                assert(group_values(pv.take(i + 1)) == group_values(pv.take(i as int)).push(v));
            },
            None => {
                assert(group_value(pv[i as int]) is None);
                assert(pv.drop_last()[i as int] == pv[i as int]);
                assert(!all_groups(pv.drop_last()));
                return None;
            },
        }
        i += 1;
    }
    assert(pv.take(i as int) == pv.drop_last());
    assert(all_groups(pv.drop_last()));
    assert(pv.last() == parts@[n - 1]@);
    let last = &parts[n - 1];
    match parse_hex4(last.as_slice()) {
        Some(v) => {
            out.push(v);
            Some(out)
        },
        None => {
            assert(group_value(pv.last()) is None);
            if !v4_tail {
                return None;
            }
            match parse_ipv4_chars(last.as_slice()) {
                Some(o) => {
                    let g1: u16 = (o[0] as u16) * 256 + (o[1] as u16);
                    let g2: u16 = (o[2] as u16) * 256 + (o[3] as u16);
                    let ghost before = out@;
                    out.push(g1);
                    out.push(g2);
                    assert(out@ == before + v4_groups(o@));
                    Some(out)
                },
                None => None,
            }
        },
    }
}

/// Position of the first `"::"`, or `None`.
pub fn find_double_colon_index(s: &[char]) -> (res: Option<usize>)
    ensures
        match res {
            Some(i) => find_double_colon(s@) == i as int && i + 1 < s.len(),
            None => find_double_colon(s@) == -1,
        },
{
    let mut i: usize = 0;
    while s.len() >= 2 && i < s.len() - 1
        invariant
            i <= s.len(),
            forall|j: int|
                #![trigger s@[j]]
                0 <= j < i && j + 1 < s.len() ==> !(s@[j] == ':' && s@[j + 1] == ':'),
        decreases s.len() - i,
    {
        if s[i] == ':' && s[i + 1] == ':' {
            proof {
                lemma_find_double_colon_at(s@, i as int);
            }
            return Some(i);
        }
        i += 1;
    }
    proof {
        lemma_find_double_colon_at(s@, i as int);
    }
    None
}

/// Reads IPv6 notation.
pub fn parse_ipv6_chars(s: &[char]) -> (res: Option<Vec<u16>>)
    ensures
        match res {
            Some(g) => ipv6_parse(s@) == Some(g@) && g@.len() == 8,
            None => ipv6_parse(s@) is None,
        },
{
    match find_double_colon_index(s) {
        Some(k) => {
            let head = slice_of(s, 0, k);
            let tail = slice_of(s, k + 2, s.len());
            assert(head@ == s@.take(k as int));
            assert(tail@ == s@.skip(k + 2));
            match (parse_groups(head.as_slice(), false), parse_groups(tail.as_slice(), true)) {
                (Some(h), Some(t)) => {
                    if h.len() > 7 || t.len() > 7 - h.len() {
                        return None;
                    }
                    let mut out = h;
                    let ghost hv = out@;
                    let fill = 8 - out.len() - t.len();
                    let mut z: usize = 0;
                    while z < fill
                        invariant
                            z <= fill,
                            out@ == hv + zeros(z as nat),
                        decreases fill - z,
                    {
                        out.push(0);
                        z += 1;
                        assert(out@ == hv + zeros(z as nat));
                    }
                    let mut j: usize = 0;
                    while j < t.len()
                        invariant
                            j <= t.len(),
                            out@ == hv + zeros(fill as nat) + t@.take(j as int),
                        decreases t.len() - j,
                    {
                        out.push(t[j]);
                        j += 1;
                        assert(t@.take(j as int) == t@.take(j - 1).push(t@[j - 1]));
                    }
                    assert(t@.take(t.len() as int) == t@);
                    Some(out)
                },
                _ => None,
            }
        },
        None => {
            match parse_groups(s, true) {
                Some(g) => {
                    if g.len() == 8 {
                        Some(g)
                    } else {
                        None
                    }
                },
                None => None,
            }
        },
    }
}

/// Reads IP notation.
pub fn parse_ip_chars(s: &[char]) -> (res: Option<IpAddress>)
    ensures
        match res {
            Some(a) => ip_parse(s@) == Some(a@) && ip_wf(a@),
            None => ip_parse(s@) is None,
        },
{
    match parse_ipv4_chars(s) {
        Some(o) => Some(IpAddress::V4(o)),
        None => match parse_ipv6_chars(s) {
            Some(g) => Some(IpAddress::V6(g)),
            None => None,
        },
    }
}

/// Reads IP notation from a string slice (`s.parse::<IpAddr>()`).
pub fn parse_ip(s: &str) -> (res: Option<IpAddress>)
    ensures
        match res {
            Some(a) => ip_parse(s@) == Some(a@) && ip_wf(a@),
            None => ip_parse(s@) is None,
        },
{
    let cs = chars_of(s);
    parse_ip_chars(cs.as_slice())
}

// ---------------------------------------------------------------------------
// Executable writing
// ---------------------------------------------------------------------------

/// Dotted decimal text of four octets.
pub fn ipv4_text_chars(o: &[u8]) -> (res: Vec<char>)
    requires
        o@.len() == 4,
    ensures
        res@ == ipv4_text(o@),
{
    let mut out = decimal_chars(o[0] as u64);
    out.push('.');
    let b = decimal_chars(o[1] as u64);
    push_all(&mut out, b.as_slice());
    out.push('.');
    let c = decimal_chars(o[2] as u64);
    push_all(&mut out, c.as_slice());
    out.push('.');
    let d = decimal_chars(o[3] as u64);
    push_all(&mut out, d.as_slice());
    out
}

/// Groups in lower-case hexadecimal separated by `':'`.
pub fn hex_list_chars(g: &[u16]) -> (res: Vec<char>)
    ensures
        res@ == hex_list(g@),
{
    let mut parts: Vec<Vec<char>> = Vec::new();
    let mut i: usize = 0;
    while i < g.len()
        invariant
            i <= g.len(),
            views(parts@) == g@.take(i as int).map_values(|x: u16| hex_lower(x as nat)),
        decreases g.len() - i,
    {
        let h = hex_lower_chars(g[i] as u64);
        push_view(&mut parts, h);
        i += 1;
        assert(g@.take(i as int).map_values(|x: u16| hex_lower(x as nat)) == g@.take(
            i - 1,
        ).map_values(|x: u16| hex_lower(x as nat)).push(hex_lower(g@[i - 1] as nat)));
    }
    assert(g@.take(g.len() as int) == g@);
    let mut sep: Vec<char> = Vec::new();
    sep.push(':');
    assert(sep@ == seq![':']);
    join_chars(&parts, sep.as_slice())
}

/// Length of the run of zero groups starting at `i`.
pub fn zero_run_at(g: &[u16], i: usize) -> (res: usize)
    requires
        i <= g.len(),
    ensures
        res == zero_run(g@, i as int),
        i + res <= g.len(),
{
    let mut j = i;
    while j < g.len() && g[j] == 0
        invariant
            i <= j <= g.len(),
            zero_run(g@, i as int) == (j - i) + zero_run(g@, j as int),
        decreases g.len() - j,
    {
        j += 1;
    }
    j - i
}

/// Canonical IPv6 text of eight groups.
pub fn ipv6_text_chars(g: &[u16]) -> (res: Vec<char>)
    requires
        g@.len() == 8,
    ensures
        res@ == ipv6_text(g@),
{
    if g[0] == 0 && g[1] == 0 && g[2] == 0 && g[3] == 0 && g[4] == 0 && g[5] == 0xffff {
        let mut o: Vec<u8> = Vec::new();
        o.push((g[6] / 256) as u8);
        o.push((g[6] % 256) as u8);
        o.push((g[7] / 256) as u8);
        o.push((g[7] % 256) as u8);
        assert(o@ == last_v4(g@));
        let mut out: Vec<char> = Vec::new();
        out.push(':');
        out.push(':');
        out.push('f');
        out.push('f');
        out.push('f');
        out.push('f');
        out.push(':');
        let t = ipv4_text_chars(o.as_slice());
        push_all(&mut out, t.as_slice());
        return out;
    }
    let mut best: usize = 0;
    let mut best_len: usize = zero_run_at(g, 0);
    let mut i: usize = 1;
    while i < 8
        invariant
            1 <= i <= 8,
            g@.len() == 8,
            best < i,
            best_len == zero_run(g@, best as int),
            best + best_len <= 8,
            forall|j: int| 0 <= j < i ==> zero_run(g@, j) <= best_len,
            forall|j: int| 0 <= j < best ==> zero_run(g@, j) < best_len,
        decreases 8 - i,
    {
        let r = zero_run_at(g, i);
        if r > best_len {
            best = i;
            best_len = r;
        }
        i += 1;
    }
    assert(is_longest_run(g@, best as int));
    proof {
        lemma_longest_run_unique(g@, best as int);
    }
    if best_len > 1 {
        let head = hex_list_chars(&g[0..best]);
        let tail = hex_list_chars(&g[best + best_len..8]);
        assert(g@.subrange(0, best as int) == g@.take(best as int));
        assert(g@.subrange(best + best_len, 8) == g@.skip(best + best_len));
        let mut out = head;
        out.push(':');
        out.push(':');
        push_all(&mut out, tail.as_slice());
        assert(out@ == hex_list(g@.take(best as int)) + seq![':', ':'] + hex_list(
            g@.skip(best + best_len),
        ));
        out
    } else {
        hex_list_chars(g)
    }
}

/// The first longest run is unique, so `choose` picks it.
pub proof fn lemma_longest_run_unique(g: Seq<u16>, i: int)
    requires
        is_longest_run(g, i),
    ensures
        (choose|k: int| is_longest_run(g, k)) == i,
{
    let k = choose|k: int| is_longest_run(g, k);
    assert(is_longest_run(g, k));
    if k < i {
        assert(zero_run(g, k) < zero_run(g, i));
    }
    if k > i {
        assert(zero_run(g, i) < zero_run(g, k));
    }
}

/// The canonical text of an IP address (`IpAddr::to_string`).
pub fn ip_text_string(a: &IpAddress) -> (res: String)
    requires
        ip_wf(a@),
    ensures
        res@ == ip_text(a@),
{
    let cs = match a {
        IpAddress::V4(o) => ipv4_text_chars(o.as_slice()),
        IpAddress::V6(g) => ipv6_text_chars(g.as_slice()),
    };
    string_of(cs.as_slice())
}

} // verus!
