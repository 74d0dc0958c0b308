//! The canonical text of an IP address reads back as the same address.
use crate::ip::{
    all_groups, find_double_colon, group_value, group_values, groups_of, hex_list, ip_parse,
    ip_text, ip_wf, ipv4_parse, ipv4_text, ipv6_parse, ipv6_text, is_longest_run, is_v4_mapped,
    last_v4, lemma_find_double_colon_at, octet_value, v4_groups, zero_run, zeros, IpValue,
};
use crate::text::{
    all_digits, all_hex, decimal, digit_value, digits_value, find_char, hex_char_value,
    hex_digit_char, hex_lower, hex_value, is_digit, is_hex_char, join, lemma_find_char,
    lemma_find_char_at, split_char,
};
use vstd::prelude::*;

verus! {

// ---------------------------------------------------------------------------
// Numbers in text
// ---------------------------------------------------------------------------

/// The decimal digits of `n` read back as `n`: one to three digits below a thousand, and
/// no leading zero.
pub proof fn lemma_decimal(n: nat)
    ensures
        decimal(n).len() >= 1,
        all_digits(decimal(n)),
        digits_value(decimal(n)) == n,
        n >= 10 ==> decimal(n)[0] != '0',
        n < 10 ==> decimal(n).len() == 1,
        n < 100 ==> decimal(n).len() <= 2,
        n < 1000 ==> decimal(n).len() <= 3,
    decreases n,
{
    if n < 10 {
        let s = decimal(n);
        assert(s.drop_last() == Seq::<char>::empty());
        assert(digits_value(Seq::<char>::empty()) == 0);
    } else {
        lemma_decimal(n / 10);
        let r = decimal(n / 10);
        let s = decimal(n);
        let c = (('0' as u32) + n % 10) as char;
        assert(s == r.push(c));
        assert(s.drop_last() == r);
        assert(digit_value(c) == n % 10);
        assert(digits_value(s) == digits_value(r) * 10 + digit_value(c));
        assert(all_digits(s)) by {
            assert forall|i: int| 0 <= i < s.len() implies is_digit(#[trigger] s[i]) by {
                if i < r.len() {
                    assert(s[i] == r[i]);
                }
            }
        }
        assert(s[0] == r[0]);
    }
}

/// The lower-case hexadecimal digits of `n` read back as `n`: one to four digits below
/// 65536.
pub proof fn lemma_hex_lower(n: nat)
    ensures
        hex_lower(n).len() >= 1,
        all_hex(hex_lower(n)),
        hex_value(hex_lower(n)) == n,
        n < 16 ==> hex_lower(n).len() == 1,
        n < 256 ==> hex_lower(n).len() <= 2,
        n < 4096 ==> hex_lower(n).len() <= 3,
        n < 65536 ==> hex_lower(n).len() <= 4,
    decreases n,
{
    if n < 16 {
        let s = hex_lower(n);
        assert(s.drop_last() == Seq::<char>::empty());
        assert(hex_value(Seq::<char>::empty()) == 0);
        assert(is_hex_char(hex_digit_char(n)));
        assert(hex_char_value(hex_digit_char(n)) == n);
    } else {
        lemma_hex_lower(n / 16);
        let r = hex_lower(n / 16);
        let s = hex_lower(n);
        let c = hex_digit_char(n % 16);
        assert(s == r.push(c));
        assert(s.drop_last() == r);
        assert(is_hex_char(c));
        assert(hex_char_value(c) == n % 16);
        assert(hex_value(s) == hex_value(r) * 16 + hex_char_value(c));
        assert(all_hex(s)) by {
            assert forall|i: int| 0 <= i < s.len() implies is_hex_char(#[trigger] s[i]) by {
                if i < r.len() {
                    assert(s[i] == r[i]);
                }
            }
        }
    }
}

// ---------------------------------------------------------------------------
// Splitting what was joined
// ---------------------------------------------------------------------------

/// Splitting a join at its one-character separator gives the pieces back, when no piece
/// holds that character.
pub proof fn lemma_split_join(ps: Seq<Seq<char>>, c: char)
    requires
        ps.len() >= 1,
        forall|i: int| 0 <= i < ps.len() ==> !(#[trigger] ps[i]).contains(c),
    ensures
        split_char(join(ps, seq![c]), c) == ps,
    decreases ps.len(),
{
    let p = ps[0];
    assert(!p.contains(c));
    if ps.len() == 1 {
        assert(join(ps, seq![c]) == p);
        assert forall|j: int| 0 <= j < p.len() implies p[j] != c by {
            if p[j] == c {
                assert(p.contains(c));
            }
        }
        lemma_find_char_at(p, c, p.len() as int);
        assert(split_char(p, c) == seq![p]);
        assert(seq![p] == ps);
    } else {
        let rest = ps.skip(1);
        assert forall|i: int| 0 <= i < rest.len() implies !(#[trigger] rest[i]).contains(c) by {
            assert(rest[i] == ps[i + 1]);
        }
        lemma_split_join(rest, c);
        let jr = join(rest, seq![c]);
        let s = p + seq![c] + jr;
        assert(join(ps, seq![c]) == s);
        assert forall|j: int| 0 <= j < p.len() implies s[j] != c by {
            assert(s[j] == p[j]);
            if p[j] == c {
                assert(p.contains(c));
            }
        }
        assert(s[p.len() as int] == c);
        lemma_find_char_at(s, c, p.len() as int);
        assert(s.take(p.len() as int) == p);
        assert(s.skip(p.len() as int + 1) == jr);
        assert(seq![p] + rest == ps);
    }
}


// ---------------------------------------------------------------------------
// IPv4
// ---------------------------------------------------------------------------

/// The dotted decimal pieces of four octets.
pub open spec fn octet_texts(o: Seq<u8>) -> Seq<Seq<char>> {
    seq![decimal(o[0] as nat), decimal(o[1] as nat), decimal(o[2] as nat), decimal(o[3] as nat)]
}

/// A decimal octet is read back as itself.
pub proof fn lemma_octet_text(x: u8)
    ensures
        octet_value(decimal(x as nat)) == Some(x),
        !decimal(x as nat).contains('.'),
        !decimal(x as nat).contains(':'),
{
    lemma_decimal(x as nat);
    let d = decimal(x as nat);
    if d.contains('.') {
        let k = choose|k: int| 0 <= k < d.len() && d[k] == '.';
        assert(is_digit(d[k]));
    }
    if d.contains(':') {
        let k = choose|k: int| 0 <= k < d.len() && d[k] == ':';
        assert(is_digit(d[k]));
    }
}

/// The dotted decimal text is the join of the octets' digits.
pub proof fn lemma_ipv4_text_join(o: Seq<u8>)
    requires
        o.len() == 4,
    ensures
        ipv4_text(o) == join(octet_texts(o), seq!['.']),
{
    let t = octet_texts(o);
    let sep = seq!['.'];
    crate::text::lemma_join_push(seq![t[0]], t[1], sep);
    crate::text::lemma_join_push(seq![t[0], t[1]], t[2], sep);
    crate::text::lemma_join_push(seq![t[0], t[1], t[2]], t[3], sep);
    assert(seq![t[0]].push(t[1]) == seq![t[0], t[1]]);
    assert(seq![t[0], t[1]].push(t[2]) == seq![t[0], t[1], t[2]]);
    assert(seq![t[0], t[1], t[2]].push(t[3]) == t);
    assert(join(seq![t[0]], sep) == t[0]);
}

/// Dotted decimal text reads back as the same four octets; it is made of digits and dots.
pub proof fn lemma_ipv4_round_trip(o: Seq<u8>)
    requires
        o.len() == 4,
    ensures
        ipv4_parse(ipv4_text(o)) == Some(o),
        ipv4_text(o).len() >= 7,
        forall|k: int|
            0 <= k < ipv4_text(o).len() ==> is_digit(#[trigger] ipv4_text(o)[k]) || ipv4_text(o)[k]
                == '.',
{
    let t = octet_texts(o);
    lemma_octet_text(o[0]);
    lemma_octet_text(o[1]);
    lemma_octet_text(o[2]);
    lemma_octet_text(o[3]);
    lemma_decimal(o[0] as nat);
    lemma_decimal(o[1] as nat);
    lemma_decimal(o[2] as nat);
    lemma_decimal(o[3] as nat);
    assert forall|i: int| 0 <= i < t.len() implies !(#[trigger] t[i]).contains('.') by {
        assert(t[i] == decimal(o[i] as nat));
    }
    lemma_ipv4_text_join(o);
    lemma_split_join(t, '.');
    assert(seq![o[0], o[1], o[2], o[3]] == o);
    let p = |c: char| is_digit(c) || c == '.';
    assert forall|i: int, k: int| 0 <= i < t.len() && 0 <= k < t[i].len() implies p(
        #[trigger] t[i][k],
    ) by {
        assert(t[i] == decimal(o[i] as nat));
        assert(all_digits(t[i]));
    }
    crate::hosts_laws::lemma_join_all(t, seq!['.'], p);
}


// ---------------------------------------------------------------------------
// IPv6
// ---------------------------------------------------------------------------

/// A group written in lower-case hexadecimal is read back as itself.
pub proof fn lemma_hex_group(x: u16)
    ensures
        group_value(hex_lower(x as nat)) == Some(x),
        hex_lower(x as nat).len() >= 1,
        all_hex(hex_lower(x as nat)),
        !hex_lower(x as nat).contains(':'),
{
    lemma_hex_lower(x as nat);
    let d = hex_lower(x as nat);
    if d.contains(':') {
        let k = choose|k: int| 0 <= k < d.len() && d[k] == ':';
        assert(is_hex_char(d[k]));
    }
}

/// A join of nonempty pieces without the separator character begins and ends with a piece
/// character and never holds the separator twice in a row.
pub proof fn lemma_join_single_separators(ps: Seq<Seq<char>>, c: char)
    requires
        ps.len() >= 1,
        forall|i: int| 0 <= i < ps.len() ==> (#[trigger] ps[i]).len() > 0 && !ps[i].contains(c),
    ensures
        join(ps, seq![c]).len() > 0,
        join(ps, seq![c])[0] != c,
        join(ps, seq![c]).last() != c,
        forall|k: int|
            0 <= k < join(ps, seq![c]).len() - 1 ==> !(#[trigger] join(ps, seq![c])[k] == c
                && join(ps, seq![c])[k + 1] == c),
    decreases ps.len(),
{
    let a = ps[0];
    assert(a.len() > 0 && !a.contains(c));
    assert forall|j: int| 0 <= j < a.len() implies a[j] != c by {
        if a[j] == c {
            assert(a.contains(c));
        }
    }
    if ps.len() == 1 {
        assert(join(ps, seq![c]) == a);
    } else {
        let rest = ps.skip(1);
        assert forall|i: int| 0 <= i < rest.len() implies (#[trigger] rest[i]).len() > 0
            && !rest[i].contains(c) by {
            assert(rest[i] == ps[i + 1]);
        }
        lemma_join_single_separators(rest, c);
        let jr = join(rest, seq![c]);
        let s = a + seq![c] + jr;
        assert(join(ps, seq![c]) == s);
        assert(s[0] == a[0]);
        assert(s.last() == jr.last());
        assert forall|k: int| 0 <= k < s.len() - 1 implies !(#[trigger] s[k] == c && s[k + 1]
            == c) by {
            if k < a.len() {
                assert(s[k] == a[k]);
            } else if k == a.len() {
                assert(s[k + 1] == jr[0]);
            } else {
                assert(s[k] == jr[k - a.len() - 1]);
                assert(s[k + 1] == jr[k - a.len()]);
            }
        }
    }
}

/// The hexadecimal pieces of groups.
pub open spec fn group_texts(h: Seq<u16>) -> Seq<Seq<char>> {
    h.map_values(|x: u16| hex_lower(x as nat))
}

/// Groups written in hexadecimal and separated by single colons read back as the same
/// groups; the text is made of hexadecimal digits and colons, never two colons in a row,
/// and does not begin or end with a colon.
pub proof fn lemma_hex_list(h: Seq<u16>, v4_tail: bool)
    ensures
        groups_of(hex_list(h), v4_tail) == Some(h),
        h.len() == 0 ==> hex_list(h).len() == 0,
        h.len() > 0 ==> hex_list(h).len() > 0 && hex_list(h)[0] != ':' && hex_list(h).last()
            != ':',
        forall|k: int|
            0 <= k < hex_list(h).len() - 1 ==> !(#[trigger] hex_list(h)[k] == ':' && hex_list(
                h,
            )[k + 1] == ':'),
        forall|k: int|
            0 <= k < hex_list(h).len() ==> is_hex_char(#[trigger] hex_list(h)[k]) || hex_list(
                h,
            )[k] == ':',
{
    let ps = group_texts(h);
    let s = hex_list(h);
    assert(s == join(ps, seq![':']));
    assert forall|i: int| 0 <= i < ps.len() implies (#[trigger] ps[i]).len() > 0 && !ps[i].contains(
        ':',
    ) by {
        lemma_hex_group(h[i]);
    }
    let p = |ch: char| is_hex_char(ch) || ch == ':';
    assert forall|i: int, k: int| 0 <= i < ps.len() && 0 <= k < ps[i].len() implies p(
        #[trigger] ps[i][k],
    ) by {
        lemma_hex_group(h[i]);
    }
    crate::hosts_laws::lemma_join_all(ps, seq![':'], p);
    if h.len() == 0 {
        assert(s == Seq::<char>::empty());
        assert(h == Seq::<u16>::empty());
    } else {
        lemma_join_single_separators(ps, ':');
        lemma_split_join(ps, ':');
        let parts = split_char(s, ':');
        assert(parts == ps);
        let init = parts.drop_last();
        let last = parts.last();
        assert forall|i: int| 0 <= i < init.len() implies (#[trigger] group_value(init[i])) is Some by {
            assert(init[i] == hex_lower(h[i] as nat));
            lemma_hex_group(h[i]);
        }
        assert(all_groups(init));
        assert(last == hex_lower(h.last() as nat));
        lemma_hex_group(h.last());
        assert forall|i: int| 0 <= i < init.len() implies group_values(init)[i] == h.drop_last()[i] by {
            assert(init[i] == hex_lower(h[i] as nat));
            lemma_hex_group(h[i]);
        }
        assert(group_values(init) == h.drop_last());
        assert(h.drop_last().push(h.last()) == h);
    }
}

/// Each zero run stays inside the groups and holds only zeros.
pub proof fn lemma_zero_run(g: Seq<u16>, i: int)
    requires
        0 <= i <= g.len(),
    ensures
        i + zero_run(g, i) <= g.len(),
        forall|k: int| i <= k < i + zero_run(g, i) ==> g[k] == 0,
    decreases g.len() - i,
{
    if i < g.len() && g[i] == 0 {
        lemma_zero_run(g, i + 1);
    }
}

/// Among the first `m` positions, one where the first of the longest zero runs starts.
pub proof fn lemma_best_run(g: Seq<u16>, m: int) -> (b: int)
    requires
        1 <= m <= g.len(),
    ensures
        0 <= b < m,
        forall|j: int| 0 <= j < m ==> zero_run(g, j) <= zero_run(g, b),
        forall|j: int| 0 <= j < b ==> zero_run(g, j) < zero_run(g, b),
    decreases m,
{
    if m == 1 {
        0
    } else {
        let b0 = lemma_best_run(g, m - 1);
        if zero_run(g, m - 1) > zero_run(g, b0) {
            m - 1
        } else {
            b0
        }
    }
}


/// `"ffff"` is the group 0xffff.
pub proof fn lemma_ffff()
    ensures
        group_value(seq!['f', 'f', 'f', 'f']) == Some(0xffffu16),
{
    let f = seq!['f', 'f', 'f', 'f'];
    assert(f.drop_last() == seq!['f', 'f', 'f']);
    assert(seq!['f', 'f', 'f'].drop_last() == seq!['f', 'f']);
    assert(seq!['f', 'f'].drop_last() == seq!['f']);
    assert(seq!['f'].drop_last() == Seq::<char>::empty());
    assert(hex_char_value('f') == 15);
    assert(seq!['f'].last() == 'f');
    assert(seq!['f', 'f'].last() == 'f');
    assert(seq!['f', 'f', 'f'].last() == 'f');
    assert(f.last() == 'f');
    assert(hex_value(Seq::<char>::empty()) == 0);
    assert(hex_value(seq!['f']) == hex_value(Seq::<char>::empty()) * 16 + hex_char_value('f'));
    assert(hex_value(seq!['f']) == 15);
    assert(hex_value(seq!['f', 'f']) == 255);
    assert(hex_value(seq!['f', 'f', 'f']) == 4095);
    assert(hex_value(f) == 65535);
    assert(all_hex(f));
}

/// The IPv4-mapped form reads back as the same groups.
pub proof fn lemma_ipv6_mapped_round_trip(g: Seq<u16>)
    requires
        g.len() == 8,
        is_v4_mapped(g),
    ensures
        ipv6_parse(ipv6_text(g)) == Some(g),
{
    let o = last_v4(g);
    let v = ipv4_text(o);
    lemma_ipv4_round_trip(o);
    let s = seq![':', ':', 'f', 'f', 'f', 'f', ':'] + v;
    assert(ipv6_text(g) == s);
    lemma_find_double_colon_at(s, 0);
    assert(find_double_colon(s) == 0);
    assert(s.take(0) == Seq::<char>::empty());
    let r = s.skip(2);
    let ffff = seq!['f', 'f', 'f', 'f'];
    assert(r == ffff + seq![':'] + v);
    assert forall|j: int| 0 <= j < v.len() implies v[j] != ':' by {
        assert(is_digit(v[j]) || v[j] == '.');
    }
    lemma_find_char_at(v, ':', v.len() as int);
    assert(split_char(v, ':') == seq![v]);
    lemma_find_char_at(r, ':', 4);
    assert(r.take(4) == ffff);
    assert(r.skip(5) == v);
    let parts = split_char(r, ':');
    assert(parts == seq![ffff] + seq![v]);
    assert(parts == seq![ffff, v]);
    lemma_ffff();
    assert(parts.drop_last() == seq![ffff]);
    assert(all_groups(seq![ffff]));
    assert(group_value(v) is None);
    assert(group_values(seq![ffff]) == seq![0xffffu16]);
    assert(v4_groups(o) == seq![g[6], g[7]]);
    let t = seq![0xffffu16] + v4_groups(o);
    assert(groups_of(r, true) == Some(t));
    assert(Seq::<u16>::empty() + zeros(5) + t == g);
}

/// Without an IPv4-mapped form and with a zero run of two or more, the text with `"::"`
/// reads back as the same groups.
pub proof fn lemma_ipv6_compressed_round_trip(g: Seq<u16>, b: int)
    requires
        g.len() == 8,
        !is_v4_mapped(g),
        is_longest_run(g, b),
        zero_run(g, b) > 1,
    ensures
        ipv6_parse(ipv6_text(g)) == Some(g),
        forall|k: int|
            0 <= k < ipv6_text(g).len() ==> is_hex_char(#[trigger] ipv6_text(g)[k])
                || ipv6_text(g)[k] == ':',
{
    let s = ipv6_text(g);
    crate::ip::lemma_longest_run_unique(g, b);
    let n = zero_run(g, b);
    lemma_zero_run(g, b);
    let h = g.take(b);
    let t = g.skip(b + n);
    let hs = hex_list(h);
    let ts = hex_list(t);
    lemma_hex_list(h, false);
    lemma_hex_list(t, true);
    assert(s == hs + seq![':', ':'] + ts);
    let l = hs.len() as int;
    assert forall|j: int| 0 <= j < l && j + 1 < s.len() implies !(#[trigger] s[j] == ':' && s[j
        + 1] == ':') by {
        assert(s[j] == hs[j]);
        if j + 1 < l {
            assert(s[j + 1] == hs[j + 1]);
        } else {
            assert(hs[j] == hs.last());
        }
    }
    lemma_find_double_colon_at(s, l);
    assert(s.take(l) == hs);
    assert(s.skip(l + 2) == ts);
    assert(h + zeros((8 - h.len() - t.len()) as nat) + t == g);
    assert forall|k: int| 0 <= k < s.len() implies is_hex_char(#[trigger] s[k]) || s[k] == ':' by {
        if k < l {
            assert(s[k] == hs[k]);
        } else if k >= l + 2 {
            assert(s[k] == ts[k - l - 2]);
        }
    }
}

/// Without an IPv4-mapped form and with no zero run of two or more, the eight groups
/// written out read back as themselves.
pub proof fn lemma_ipv6_full_round_trip(g: Seq<u16>, b: int)
    requires
        g.len() == 8,
        !is_v4_mapped(g),
        is_longest_run(g, b),
        zero_run(g, b) <= 1,
    ensures
        ipv6_parse(ipv6_text(g)) == Some(g),
        forall|k: int|
            0 <= k < ipv6_text(g).len() ==> is_hex_char(#[trigger] ipv6_text(g)[k])
                || ipv6_text(g)[k] == ':',
{
    let s = ipv6_text(g);
    crate::ip::lemma_longest_run_unique(g, b);
    lemma_hex_list(g, true);
    assert(s == hex_list(g));
    lemma_find_double_colon_at(s, s.len() as int);
}

/// The canonical IPv6 text reads back as the same eight groups, and is no IPv4 address.
pub proof fn lemma_ipv6_round_trip(g: Seq<u16>)
    requires
        g.len() == 8,
    ensures
        ipv6_parse(ipv6_text(g)) == Some(g),
        ipv4_parse(ipv6_text(g)) is None,
        ipv6_text(g).len() > 0,
        forall|k: int|
            0 <= k < ipv6_text(g).len() ==> is_hex_char(#[trigger] ipv6_text(g)[k])
                || ipv6_text(g)[k] == ':' || ipv6_text(g)[k] == '.',
{
    let s = ipv6_text(g);
    if is_v4_mapped(g) {
        lemma_ipv6_mapped_round_trip(g);
        let v = ipv4_text(last_v4(g));
        lemma_ipv4_round_trip(last_v4(g));
        assert(s == seq![':', ':', 'f', 'f', 'f', 'f', ':'] + v);
        assert forall|k: int| 0 <= k < s.len() implies is_hex_char(#[trigger] s[k]) || s[k]
            == ':' || s[k] == '.' by {
            if k >= 7 {
                assert(s[k] == v[k - 7]);
            }
        }
        lemma_find_char(s, '.');
        let f = find_char(s, '.');
        if f >= 0 {
            assert(f != 0);
            let parts = split_char(s, '.');
            assert(parts[0] == s.take(f));
            assert(parts[0][0] == ':');
            assert(!all_digits(parts[0]));
        }
    } else {
        let b = lemma_best_run(g, 8);
        assert(is_longest_run(g, b));
        if zero_run(g, b) > 1 {
            lemma_ipv6_compressed_round_trip(g, b);
        } else {
            lemma_ipv6_full_round_trip(g, b);
        }
        assert forall|j: int| 0 <= j < s.len() implies s[j] != '.' by {
            assert(is_hex_char(s[j]) || s[j] == ':');
        }
        lemma_find_char_at(s, '.', s.len() as int);
        assert(split_char(s, '.') == seq![s]);
        if s.len() == 0 {
            crate::ip::lemma_longest_run_unique(g, b);
            lemma_hex_list(g, true);
        }
    }
}

// ---------------------------------------------------------------------------
// The law
// ---------------------------------------------------------------------------

/// The canonical text of an address reads back as the same address (`IpAddr`'s `Display`
/// and `FromStr` agree); it is a nonempty run of hexadecimal digits, dots and colons.
pub proof fn law_ip_text_round_trip(a: IpValue)
    requires
        ip_wf(a),
    ensures
        ip_parse(ip_text(a)) == Some(a),
        ip_text(a).len() > 0,
        forall|k: int|
            0 <= k < ip_text(a).len() ==> is_hex_char(#[trigger] ip_text(a)[k]) || ip_text(a)[k]
                == ':' || ip_text(a)[k] == '.',
{
    match a {
        IpValue::V4(o) => {
            lemma_ipv4_round_trip(o);
            assert forall|k: int| 0 <= k < ip_text(a).len() implies is_hex_char(
                #[trigger] ip_text(a)[k],
            ) || ip_text(a)[k] == ':' || ip_text(a)[k] == '.' by {
                assert(is_digit(ipv4_text(o)[k]) || ipv4_text(o)[k] == '.');
            }
        },
        IpValue::V6(g) => {
            lemma_ipv6_round_trip(g);
        },
    }
}

} // verus!
