//! What listing the hosts file gives after a mapping is added, changed or removed.
use crate::hosts::{
    add_spec, begin_marker, check_domains, domain_check, end_marker, group_check, hosts_parse,
    parse_lines, parse_step, remove_spec, update_spec, valid_label, MappingView, ParseState,
};
use crate::hosts_laws::{
    law_render_then_parse_lines, lemma_join_all, lemma_join_first, lemma_join_last,
    lemma_trim_end_plain, lemma_trim_start_plain, outside_line_ok, outside_lines, read_back,
    word_ok, writable_mapping,
};
use crate::ip::{ip_parse, ip_text, ip_wf, ipv4_parse, zeros, IpValue};
use crate::ip_laws::law_ip_text_round_trip;
use crate::text::{
    ascii_lower, ascii_lower_char, find_char, is_ascii_alnum, is_hex_char, is_ws, join,
    lemma_find_char, lemma_trim_end, lemma_trim_start, lines, split_char, trim, trim_end,
    trim_end_char, trim_start, words,
};
use vstd::prelude::*;

verus! {

// ---------------------------------------------------------------------------
// Text
// ---------------------------------------------------------------------------

/// Joining the pieces of a split with the character it split at gives the text back.
pub proof fn lemma_join_split(s: Seq<char>, c: char)
    ensures
        split_char(s, c).len() >= 1,
        join(split_char(s, c), seq![c]) == s,
    decreases s.len(),
{
    lemma_find_char(s, c);
    let i = find_char(s, c);
    if i >= 0 {
        let rest = s.skip(i + 1);
        lemma_join_split(rest, c);
        let parts = split_char(s, c);
        assert(parts == seq![s.take(i)] + split_char(rest, c));
        assert(parts[0] == s.take(i));
        assert(parts.skip(1) == split_char(rest, c));
        assert(join(parts, seq![c]) == s.take(i) + seq![c] + rest);
        assert(s.take(i) + seq![c] + rest == s);
    }
}

/// Trimming twice is trimming once.
pub proof fn lemma_trim_twice(v: Seq<char>)
    ensures
        trim(trim(v)) == trim(v),
{
    let a = trim_start(v);
    lemma_trim_start(v);
    let t = trim_end(a);
    lemma_trim_end(a);
    if t.len() > 0 {
        assert(t[0] == a[0]);
    }
    lemma_trim_start_plain(t);
    lemma_trim_end_plain(t);
}

// ---------------------------------------------------------------------------
// Checked values are in checked form
// ---------------------------------------------------------------------------

/// A checked group name passes the check unchanged.
pub proof fn lemma_group_canonical(v: Seq<char>)
    requires
        group_check(v) is Ok,
    ensures
        group_check(group_check(v)->Ok_0) == group_check(v),
{
    lemma_trim_twice(v);
}

/// A checked domain passes the check unchanged, and is a plain word.
pub proof fn lemma_domain_canonical(v: Seq<char>)
    requires
        domain_check(v) is Ok,
    ensures
        domain_check(domain_check(v)->Ok_0) == domain_check(v),
        word_ok(domain_check(v)->Ok_0),
{
    let x = trim_end_char(trim(v), '.');
    let d = ascii_lower(x);
    assert(domain_check(v) == Ok::<Seq<char>, Seq<char>>(d));
    let parts = split_char(d, '.');
    lemma_join_split(d, '.');
    assert forall|i: int| 0 <= i < parts.len() implies valid_label(#[trigger] parts[i]) by {}
    let p = |ch: char| is_ascii_alnum(ch) || ch == '-' || ch == '.';
    assert forall|i: int, k: int| 0 <= i < parts.len() && 0 <= k < parts[i].len() implies p(
        #[trigger] parts[i][k],
    ) by {
        assert(valid_label(parts[i]));
    }
    lemma_join_all(parts, seq!['.'], p);
    assert forall|k: int| 0 <= k < d.len() implies p(#[trigger] d[k]) by {}
    assert(valid_label(parts[0]));
    lemma_join_first(parts, seq!['.']);
    assert(valid_label(parts[parts.len() - 1]));
    lemma_join_last(parts, seq!['.']);
    assert(!is_ws(d[0]));
    assert(d.last() != '.' && !is_ws(d.last())) by {
        let l = parts.last();
        assert(p(l[l.len() - 1]));
        assert(l.last() != '-');
    }
    lemma_trim_start_plain(d);
    lemma_trim_end_plain(d);
    assert(trim(d) == d);
    assert(trim_end_char(d, '.') == d);
    assert(ascii_lower(d) == d) by {
        assert forall|k: int| 0 <= k < d.len() implies ascii_lower(d)[k] == d[k] by {
            assert(d[k] == ascii_lower_char(x[k]));
        }
    }
    assert forall|k: int| 0 <= k < d.len() implies !is_ws(#[trigger] d[k]) && d[k] != '#' by {
        assert(p(d[k]));
    }
}

/// Each checked domain comes from the domain at the same position.
pub proof fn lemma_check_domains_each(xs: Seq<Seq<char>>)
    requires
        check_domains(xs) is Ok,
    ensures
        check_domains(xs)->Ok_0.len() == xs.len(),
        forall|i: int|
            0 <= i < xs.len() ==> domain_check(#[trigger] xs[i]) == Ok::<Seq<char>, Seq<char>>(
                check_domains(xs)->Ok_0[i],
            ),
    decreases xs.len(),
{
    if xs.len() > 0 {
        let init = xs.drop_last();
        lemma_check_domains_each(init);
        let r = check_domains(init)->Ok_0;
        let ds = check_domains(xs)->Ok_0;
        assert(ds == r.push(domain_check(xs.last())->Ok_0));
        assert forall|i: int| 0 <= i < xs.len() implies domain_check(#[trigger] xs[i]) == Ok::<
            Seq<char>,
            Seq<char>,
        >(ds[i]) by {
            if i < init.len() {
                assert(xs[i] == init[i]);
            }
        }
    }
}

/// Domains that passed the check are all in checked form and plain words.
pub proof fn lemma_checked_domains_canonical(xs: Seq<Seq<char>>)
    requires
        check_domains(xs) is Ok,
    ensures
        forall|i: int|
            0 <= i < check_domains(xs)->Ok_0.len() ==> domain_check(
                #[trigger] check_domains(xs)->Ok_0[i],
            ) == Ok::<Seq<char>, Seq<char>>(check_domains(xs)->Ok_0[i]) && word_ok(
                check_domains(xs)->Ok_0[i],
            ),
{
    lemma_check_domains_each(xs);
    let ds = check_domains(xs)->Ok_0;
    assert forall|i: int| 0 <= i < ds.len() implies domain_check(#[trigger] ds[i]) == Ok::<
        Seq<char>,
        Seq<char>,
    >(ds[i]) && word_ok(ds[i]) by {
        assert(domain_check(xs[i]) == Ok::<Seq<char>, Seq<char>>(ds[i]));
        lemma_domain_canonical(xs[i]);
    }
}

/// What reading an address gives is well formed.
pub proof fn lemma_ip_parse_wf(s: Seq<char>)
    requires
        ip_parse(s) is Some,
    ensures
        ip_wf(ip_parse(s)->0),
{
    if ipv4_parse(s) is None {
        let k = crate::ip::find_double_colon(s);
        if k >= 0 {
            let h = crate::ip::groups_of(s.take(k), false)->0;
            let t = crate::ip::groups_of(s.skip(k + 2), true)->0;
            assert(zeros((8 - h.len() - t.len()) as nat).len() == 8 - h.len() - t.len());
        }
    }
}

/// The canonical text of an address that was read is a plain word that reads as an address.
pub proof fn lemma_canonical_ip_word(a: IpValue)
    requires
        ip_wf(a),
    ensures
        ip_parse(ip_text(a)) is Some,
        word_ok(ip_text(a)),
{
    law_ip_text_round_trip(a);
    let t = ip_text(a);
    assert forall|k: int| 0 <= k < t.len() implies !is_ws(#[trigger] t[k]) && t[k] != '#' by {
        assert(is_hex_char(t[k]) || t[k] == ':' || t[k] == '.');
    }
}


// ---------------------------------------------------------------------------
// What reading a file gives can be written again
// ---------------------------------------------------------------------------

/// No line that splitting a text gives holds a line break.
pub proof fn lemma_lines_whole(s: Seq<char>)
    ensures
        forall|i: int| 0 <= i < lines(s).len() ==> !(#[trigger] lines(s)[i]).contains('\n'),
    decreases s.len(),
{
    if s.len() > 0 {
        lemma_find_char(s, '\n');
        let i = find_char(s, '\n');
        if i < 0 {
            assert(lines(s) == seq![s]);
            if s.contains('\n') {
                let k = choose|k: int| 0 <= k < s.len() && s[k] == '\n';
                assert(s[k] != '\n');
            }
        } else {
            let rest = s.skip(i + 1);
            lemma_lines_whole(rest);
            let head = crate::text::line_body(s.take(i), true);
            assert(lines(s) == seq![head] + lines(rest));
            if head.contains('\n') {
                let k = choose|k: int| 0 <= k < head.len() && head[k] == '\n';
                assert(head[k] == s[k]);
            }
            assert forall|j: int| 0 <= j < lines(s).len() implies !(#[trigger] lines(s)[j]).contains(
                '\n',
            ) by {
                if j > 0 {
                    assert(lines(s)[j] == lines(rest)[j - 1]);
                }
            }
        }
    }
}

/// The characters of a text with no `'#'` and its words: every word is nonempty, without
/// whitespace or `'#'`.
pub proof fn lemma_words_plain(s: Seq<char>)
    requires
        !s.contains('#'),
    ensures
        forall|i: int| 0 <= i < words(s).len() ==> word_ok(#[trigger] words(s)[i]),
    decreases s.len(),
{
    let t = trim_start(s);
    lemma_trim_start(s);
    if t.len() > 0 {
        let n = crate::text::word_len(t);
        crate::text::lemma_word_len(t);
        let w = t.take(n as int);
        let rest = t.skip(n as int);
        assert(!t.contains('#')) by {
            if t.contains('#') {
                let k = choose|k: int| 0 <= k < t.len() && t[k] == '#';
                assert(s[s.len() - t.len() + k] == '#');
            }
        }
        assert(!rest.contains('#')) by {
            if rest.contains('#') {
                let k = choose|k: int| 0 <= k < rest.len() && rest[k] == '#';
                assert(t[n + k] == '#');
            }
        }
        lemma_words_plain(rest);
        assert(word_ok(w)) by {
            assert forall|k: int| 0 <= k < w.len() implies !is_ws(#[trigger] w[k]) && w[k] != '#' by {
                assert(w[k] == t[k]);
                if t[k] == '#' {
                    assert(t.contains('#'));
                }
            }
        }
        assert(words(s) == seq![w] + words(rest));
        assert forall|i: int| 0 <= i < words(s).len() implies word_ok(#[trigger] words(s)[i]) by {
            if i > 0 {
                assert(words(s)[i] == words(rest)[i - 1]);
            }
        }
    }
}

/// The text of a line before its first `'#'` holds no `'#'`.
pub proof fn lemma_before_comment(line: Seq<char>)
    ensures
        !crate::hosts::before_comment(line).contains('#'),
{
    lemma_find_char(line, '#');
    let b = crate::hosts::before_comment(line);
    if b.contains('#') {
        let k = choose|k: int| 0 <= k < b.len() && b[k] == '#';
        let i = find_char(line, '#');
        if i < 0 {
            assert(b == line);
        } else {
            assert(b == line.take(i));
            assert(line[k] == '#');
        }
    }
}

/// A reading state whose lines and mappings can all be written again.
pub open spec fn writable_state(st: ParseState) -> bool {
    &&& forall|i: int| 0 <= i < st.before.len() ==> outside_line_ok(#[trigger] st.before[i])
    &&& forall|i: int| 0 <= i < st.managed.len() ==> writable_mapping(#[trigger] st.managed[i])
    &&& group_check(st.group) == Ok::<Seq<char>, Seq<char>>(st.group)
}

/// Reading one whole line keeps what was read writable.
pub proof fn lemma_step_writable(st: ParseState, line: Seq<char>)
    requires
        writable_state(st),
        !line.contains('\n'),
        parse_step(st, line) is Ok,
    ensures
        writable_state(parse_step(st, line)->Ok_0),
{
    let tl = trim(line);
    let nx = parse_step(st, line)->Ok_0;
    if tl == begin_marker() || tl == end_marker() {
    } else if st.in_block {
        if crate::text::starts_with(tl, crate::hosts::group_prefix()) {
            lemma_group_canonical(tl.skip(crate::hosts::group_prefix().len() as int));
        } else {
            let ws = words(crate::hosts::before_comment(line));
            lemma_before_comment(line);
            lemma_words_plain(crate::hosts::before_comment(line));
            if ws.len() > 0 && ip_parse(ws[0]) is Some {
                lemma_checked_domains_canonical(ws.skip(1));
                let ds = check_domains(ws.skip(1))->Ok_0;
                if ds.len() > 0 {
                    let m = MappingView { ip: ws[0], domains: ds, group: st.group };
                    assert(word_ok(ws[0]));
                    assert(writable_mapping(m));
                    assert(nx.managed == st.managed.push(m));
                    assert forall|i: int| 0 <= i < nx.managed.len() implies writable_mapping(
                        #[trigger] nx.managed[i],
                    ) by {
                        if i < st.managed.len() {
                            assert(nx.managed[i] == st.managed[i]);
                        }
                    }
                }
            }
        }
    } else {
        assert(nx.before == st.before.push(line));
        assert forall|i: int| 0 <= i < nx.before.len() implies outside_line_ok(
            #[trigger] nx.before[i],
        ) by {
            if i < st.before.len() {
                assert(nx.before[i] == st.before[i]);
            }
        }
    }
}

/// Reading whole lines gives lines and mappings that can all be written again.
pub proof fn lemma_lines_writable(ls: Seq<Seq<char>>)
    requires
        forall|i: int| 0 <= i < ls.len() ==> !(#[trigger] ls[i]).contains('\n'),
        parse_lines(ls) is Ok,
    ensures
        writable_state(parse_lines(ls)->Ok_0),
    decreases ls.len(),
{
    if ls.len() == 0 {
        assert(trim(Seq::<char>::empty()) == Seq::<char>::empty());
        assert(crate::text::utf8_len(Seq::<char>::empty()) == 0);
    } else {
        let init = ls.drop_last();
        assert forall|i: int| 0 <= i < init.len() implies !(#[trigger] init[i]).contains('\n') by {
            assert(init[i] == ls[i]);
        }
        assert(parse_lines(init) is Ok);
        lemma_lines_writable(init);
        assert(!ls[ls.len() - 1].contains('\n'));
        lemma_step_writable(parse_lines(init)->Ok_0, ls.last());
    }
}

/// What reading a hosts file gives can be written again.
pub proof fn lemma_parsed_writable(content: Seq<char>)
    requires
        hosts_parse(content) is Ok,
    ensures
        forall|i: int|
            0 <= i < hosts_parse(content)->Ok_0.0.len() ==> outside_line_ok(
                #[trigger] hosts_parse(content)->Ok_0.0[i],
            ),
        forall|i: int|
            0 <= i < hosts_parse(content)->Ok_0.1.len() ==> writable_mapping(
                #[trigger] hosts_parse(content)->Ok_0.1[i],
            ),
{
    lemma_lines_whole(content);
    lemma_lines_writable(lines(content));
}


// ---------------------------------------------------------------------------
// The laws
// ---------------------------------------------------------------------------

/// A new mapping of checked values can be written.
pub proof fn lemma_new_mapping_writable(ip: Seq<char>, domains: Seq<Seq<char>>, group: Seq<char>)
    requires
        crate::hosts::canonical_ip(ip) is Some,
        check_domains(domains) is Ok,
        check_domains(domains)->Ok_0.len() > 0,
        group_check(group) is Ok,
    ensures
        writable_mapping(
            MappingView {
                ip: crate::hosts::canonical_ip(ip)->0,
                domains: check_domains(domains)->Ok_0,
                group: group_check(group)->Ok_0,
            },
        ),
{
    lemma_ip_parse_wf(trim(ip));
    lemma_canonical_ip_word(ip_parse(trim(ip))->0);
    lemma_checked_domains_canonical(domains);
    lemma_group_canonical(group);
}

/// Listing the file that adding a mapping wrote gives the mappings that adding returned,
/// the new one last; the lines outside the block read back as they were kept.
pub proof fn law_add_then_list(hosts: Seq<char>, ip: Seq<char>, domains: Seq<Seq<char>>, group: Seq<char>)
    requires
        add_spec(hosts, ip, domains, group) is Ok,
    ensures
        hosts_parse(add_spec(hosts, ip, domains, group)->Ok_0.1) == Ok::<
            (Seq<Seq<char>>, Seq<MappingView>),
            Seq<char>,
        >((read_back(outside_lines(hosts_parse(hosts)->Ok_0.0)), add_spec(hosts, ip, domains, group)->Ok_0.0)),
{
    lemma_new_mapping_writable(ip, domains, group);
    lemma_parsed_writable(hosts);
    let b = hosts_parse(hosts)->Ok_0.0;
    let ms = hosts_parse(hosts)->Ok_0.1;
    let m = MappingView {
        ip: crate::hosts::canonical_ip(ip)->0,
        domains: check_domains(domains)->Ok_0,
        group: group_check(group)->Ok_0,
    };
    let ms2 = ms.push(m);
    assert forall|i: int| 0 <= i < ms2.len() implies writable_mapping(#[trigger] ms2[i]) by {
        if i < ms.len() {
            assert(ms2[i] == ms[i]);
        }
    }
    law_render_then_parse_lines(b, ms2);
}

/// Listing the file that changing a mapping wrote gives the mappings that changing
/// returned, the changed one in its place; the lines outside the block read back as they
/// were kept.
pub proof fn law_update_then_list(
    hosts: Seq<char>,
    old_ip: Seq<char>,
    old_domains: Seq<Seq<char>>,
    ip: Seq<char>,
    domains: Seq<Seq<char>>,
    group: Seq<char>,
)
    requires
        update_spec(hosts, old_ip, old_domains, ip, domains, group) is Ok,
    ensures
        hosts_parse(update_spec(hosts, old_ip, old_domains, ip, domains, group)->Ok_0.1) == Ok::<
            (Seq<Seq<char>>, Seq<MappingView>),
            Seq<char>,
        >(
            (
                read_back(outside_lines(hosts_parse(hosts)->Ok_0.0)),
                update_spec(hosts, old_ip, old_domains, ip, domains, group)->Ok_0.0,
            ),
        ),
{
    lemma_new_mapping_writable(ip, domains, group);
    lemma_parsed_writable(hosts);
    let b = hosts_parse(hosts)->Ok_0.0;
    let ms = hosts_parse(hosts)->Ok_0.1;
    let oip = crate::hosts::canonical_ip(old_ip)->0;
    let ods = check_domains(old_domains)->Ok_0;
    let k = crate::text::first_where(ms, crate::hosts::mapping_is(oip, ods));
    crate::text::lemma_first_where(ms, crate::hosts::mapping_is(oip, ods));
    let m = MappingView {
        ip: crate::hosts::canonical_ip(ip)->0,
        domains: check_domains(domains)->Ok_0,
        group: group_check(group)->Ok_0,
    };
    let ms2 = ms.update(k, m);
    assert forall|i: int| 0 <= i < ms2.len() implies writable_mapping(#[trigger] ms2[i]) by {
        if i != k {
            assert(ms2[i] == ms[i]);
        }
    }
    law_render_then_parse_lines(b, ms2);
}

/// The mappings a filter keeps can all be written when all of them can.
pub proof fn lemma_filter_writable(ms: Seq<MappingView>, keep: spec_fn(MappingView) -> bool)
    requires
        forall|i: int| 0 <= i < ms.len() ==> writable_mapping(#[trigger] ms[i]),
    ensures
        forall|i: int| 0 <= i < ms.filter(keep).len() ==> writable_mapping(#[trigger] ms.filter(keep)[i]),
    decreases ms.len(),
{
    reveal(Seq::filter);
    if ms.len() > 0 {
        let init = ms.drop_last();
        assert forall|i: int| 0 <= i < init.len() implies writable_mapping(#[trigger] init[i]) by {
            assert(init[i] == ms[i]);
        }
        lemma_filter_writable(init, keep);
        let r = init.filter(keep);
        assert(writable_mapping(ms[ms.len() - 1]));
        assert forall|i: int| 0 <= i < ms.filter(keep).len() implies writable_mapping(
            #[trigger] ms.filter(keep)[i],
        ) by {
            if keep(ms.last()) {
                assert(ms.filter(keep) == r.push(ms.last()));
                if i < r.len() {
                    assert(ms.filter(keep)[i] == r[i]);
                }
            } else {
                assert(ms.filter(keep) == r);
            }
        }
    }
}

/// Listing the file that removing mappings wrote gives the mappings that removing
/// returned; the lines outside the block read back as they were kept.
pub proof fn law_remove_then_list(hosts: Seq<char>, ip: Seq<char>, domains: Seq<Seq<char>>)
    requires
        remove_spec(hosts, ip, domains) is Ok,
    ensures
        hosts_parse(remove_spec(hosts, ip, domains)->Ok_0.1) == Ok::<
            (Seq<Seq<char>>, Seq<MappingView>),
            Seq<char>,
        >((read_back(outside_lines(hosts_parse(hosts)->Ok_0.0)), remove_spec(hosts, ip, domains)->Ok_0.0)),
{
    lemma_parsed_writable(hosts);
    let b = hosts_parse(hosts)->Ok_0.0;
    let ms = hosts_parse(hosts)->Ok_0.1;
    let keep = crate::hosts::kept_by_remove(ip, domains);
    lemma_filter_writable(ms, keep);
    law_render_then_parse_lines(b, ms.filter(keep));
}


// ---------------------------------------------------------------------------
// Every text that reads as an address is a plain word
// ---------------------------------------------------------------------------

/// A character of IP address text: a hexadecimal digit, a colon or a dot.
pub open spec fn ip_char(c: char) -> bool {
    is_hex_char(c) || c == ':' || c == '.'
}

/// Every character of a split's pieces is an address character, so is every character
/// of the text.
proof fn lemma_split_ip_chars(x: Seq<char>, c: char)
    requires
        ip_char(c),
        forall|i: int, k: int|
            0 <= i < split_char(x, c).len() && 0 <= k < split_char(x, c)[i].len() ==> ip_char(
                #[trigger] split_char(x, c)[i][k],
            ),
    ensures
        forall|k: int| 0 <= k < x.len() ==> ip_char(#[trigger] x[k]),
{
    lemma_join_split(x, c);
    let p = |ch: char| ip_char(ch);
    let parts = split_char(x, c);
    assert forall|i: int, k: int| 0 <= i < parts.len() && 0 <= k < parts[i].len() implies p(
        #[trigger] parts[i][k],
    ) by {}
    lemma_join_all(parts, seq![c], p);
}

/// Dotted decimal text is made of address characters.
proof fn lemma_ipv4_chars(x: Seq<char>)
    requires
        ipv4_parse(x) is Some,
    ensures
        x.len() > 0,
        forall|k: int| 0 <= k < x.len() ==> ip_char(#[trigger] x[k]),
{
    let parts = split_char(x, '.');
    assert forall|i: int, k: int| 0 <= i < parts.len() && 0 <= k < parts[i].len() implies ip_char(
        #[trigger] parts[i][k],
    ) by {
        assert(crate::ip::octet_value(parts[i]) is Some);
        assert(crate::text::is_digit(parts[i][k]));
    }
    lemma_split_ip_chars(x, '.');
    lemma_join_split(x, '.');
    assert(crate::ip::octet_value(parts[0]) is Some);
    lemma_join_first(parts, seq!['.']);
}

/// Groups (with an IPv4 tail when allowed) are made of address characters.
proof fn lemma_groups_chars(x: Seq<char>, v4_tail: bool)
    requires
        crate::ip::groups_of(x, v4_tail) is Some,
    ensures
        forall|k: int| 0 <= k < x.len() ==> ip_char(#[trigger] x[k]),
{
    if x.len() > 0 {
        let parts = split_char(x, ':');
        lemma_join_split(x, ':');
        let init = parts.drop_last();
        let last = parts.last();
        if crate::ip::group_value(last) is None {
            lemma_ipv4_chars(last);
        }
        assert forall|i: int, k: int| 0 <= i < parts.len() && 0 <= k < parts[i].len() implies ip_char(
            #[trigger] parts[i][k],
        ) by {
            if i < parts.len() - 1 {
                assert(parts[i] == init[i]);
                assert(crate::ip::group_value(init[i]) is Some);
                assert(is_hex_char(parts[i][k]));
            } else {
                assert(parts[i] == last);
                if crate::ip::group_value(last) is Some {
                    assert(is_hex_char(last[k]));
                }
            }
        }
        lemma_split_ip_chars(x, ':');
    }
}

/// A text that reads as an IP address is a nonempty run of hexadecimal digits, colons and
/// dots, so a plain word of a hosts line.
pub proof fn lemma_ip_text_is_word(s: Seq<char>)
    requires
        ip_parse(s) is Some,
    ensures
        word_ok(s),
        forall|k: int| 0 <= k < s.len() ==> ip_char(#[trigger] s[k]),
{
    if ipv4_parse(s) is Some {
        lemma_ipv4_chars(s);
    } else {
        let k = crate::ip::find_double_colon(s);
        crate::ip::lemma_find_double_colon(s);
        if k >= 0 {
            let a = s.take(k);
            let b = s.skip(k + 2);
            lemma_groups_chars(a, false);
            lemma_groups_chars(b, true);
            assert forall|j: int| 0 <= j < s.len() implies ip_char(#[trigger] s[j]) by {
                if j < k {
                    assert(s[j] == a[j]);
                } else if j >= k + 2 {
                    assert(s[j] == b[j - k - 2]);
                }
            }
        } else {
            lemma_groups_chars(s, true);
            if s.len() == 0 {
                assert(crate::ip::groups_of(s, true) == Some(Seq::<u16>::empty()));
            }
        }
    }
    assert forall|j: int| 0 <= j < s.len() implies !is_ws(#[trigger] s[j]) && s[j] != '#' by {
        assert(ip_char(s[j]));
    }
}

/// A mapping whose address reads as an IP address, with at least one domain, every domain
/// and the group in checked form, can be written and read back.
pub proof fn lemma_checked_mapping_writable(m: MappingView)
    requires
        ip_parse(m.ip) is Some,
        m.domains.len() > 0,
        forall|i: int| 0 <= i < m.domains.len() ==> domain_check(#[trigger] m.domains[i]) == Ok::<Seq<char>, Seq<char>>(m.domains[i]),
        group_check(m.group) == Ok::<Seq<char>, Seq<char>>(m.group),
    ensures
        writable_mapping(m),
{
    lemma_ip_text_is_word(m.ip);
    assert forall|i: int| 0 <= i < m.domains.len() implies word_ok(#[trigger] m.domains[i]) by {
        lemma_domain_canonical(m.domains[i]);
    }
}

/// Reading back what was written gives the mappings exactly, for every mapping whose
/// address reads as an IP address and whose domains and group are in checked form, and
/// the kept lines as `law_render_then_parse_lines` says: when none of them ends in a
/// carriage return or is a block marker, those lines without their trailing empty ones, plus the
/// one empty line written before the block.
pub proof fn law_render_then_parse_checked(before: Seq<Seq<char>>, ms: Seq<MappingView>)
    requires
        forall|i: int| 0 <= i < before.len() ==> outside_line_ok(#[trigger] before[i]),
        forall|i: int| 0 <= i < ms.len() ==> ip_parse((#[trigger] ms[i]).ip) is Some && ms[i].domains.len() > 0
            && group_check(ms[i].group) == Ok::<Seq<char>, Seq<char>>(ms[i].group) && forall|j: int|
            0 <= j < ms[i].domains.len() ==> domain_check(#[trigger] ms[i].domains[j]) == Ok::<
                Seq<char>,
                Seq<char>,
            >(ms[i].domains[j]),
    ensures
        hosts_parse(crate::hosts::render_text(before, ms)) == Ok::<(Seq<Seq<char>>, Seq<MappingView>), Seq<char>>(
            (read_back(outside_lines(before)), ms),
        ),
        (forall|i: int| 0 <= i < before.len() ==> crate::hosts_laws::kept_line_ok(#[trigger] before[i]))
            ==> hosts_parse(crate::hosts::render_text(before, ms)) == Ok::<
            (Seq<Seq<char>>, Seq<MappingView>),
            Seq<char>,
        >((crate::hosts::trim_trailing_empty(before).push(seq![]), ms)),
{
    assert forall|i: int| 0 <= i < ms.len() implies writable_mapping(#[trigger] ms[i]) by {
        lemma_checked_mapping_writable(ms[i]);
    }
    law_render_then_parse_lines(before, ms);
    if forall|i: int| 0 <= i < before.len() ==> crate::hosts_laws::kept_line_ok(#[trigger] before[i]) {
        crate::hosts_laws::lemma_kept_read_back(before);
    }
}


// ---------------------------------------------------------------------------
// No domain in two mappings
// ---------------------------------------------------------------------------

/// No domain belongs to two different mappings.
pub open spec fn domains_unique(ms: Seq<MappingView>) -> bool {
    forall|a: int, b: int, i: int, j: int|
        0 <= a < b < ms.len() && 0 <= i < ms[a].domains.len() && 0 <= j < ms[b].domains.len()
            ==> #[trigger] ms[a].domains[i] != #[trigger] ms[b].domains[j]
}

/// Adding a mapping keeps every domain in at most one mapping.
pub proof fn law_add_keeps_domains_unique(hosts: Seq<char>, ip: Seq<char>, domains: Seq<Seq<char>>, group: Seq<char>)
    requires
        add_spec(hosts, ip, domains, group) is Ok,
        domains_unique(hosts_parse(hosts)->Ok_0.1),
    ensures
        domains_unique(add_spec(hosts, ip, domains, group)->Ok_0.0),
{
    let ms = hosts_parse(hosts)->Ok_0.1;
    let ds = check_domains(domains)->Ok_0;
    let m2 = add_spec(hosts, ip, domains, group)->Ok_0.0;
    assert(!crate::hosts::domain_used(ds, ms, -1));
    assert forall|a: int, b: int, i: int, j: int|
        0 <= a < b < m2.len() && 0 <= i < m2[a].domains.len() && 0 <= j < m2[b].domains.len()
            implies #[trigger] m2[a].domains[i] != #[trigger] m2[b].domains[j] by {
        assert(m2[a] == ms[a]);
        if b < ms.len() {
            assert(m2[b] == ms[b]);
        } else {
            assert(m2[b].domains == ds);
            if ms[a].domains[i] == ds[j] {
                assert(ms[a].domains.contains(ds[j]));
            }
        }
    }
}

/// Changing a mapping keeps every domain in at most one mapping.
pub proof fn law_update_keeps_domains_unique(
    hosts: Seq<char>,
    old_ip: Seq<char>,
    old_domains: Seq<Seq<char>>,
    ip: Seq<char>,
    domains: Seq<Seq<char>>,
    group: Seq<char>,
)
    requires
        update_spec(hosts, old_ip, old_domains, ip, domains, group) is Ok,
        domains_unique(hosts_parse(hosts)->Ok_0.1),
    ensures
        domains_unique(update_spec(hosts, old_ip, old_domains, ip, domains, group)->Ok_0.0),
{
    let ms = hosts_parse(hosts)->Ok_0.1;
    let ds = check_domains(domains)->Ok_0;
    let oip = crate::hosts::canonical_ip(old_ip)->0;
    let ods = check_domains(old_domains)->Ok_0;
    let k = crate::text::first_where(ms, crate::hosts::mapping_is(oip, ods));
    crate::text::lemma_first_where(ms, crate::hosts::mapping_is(oip, ods));
    let m2 = update_spec(hosts, old_ip, old_domains, ip, domains, group)->Ok_0.0;
    assert(!crate::hosts::domain_used(ds, ms, k));
    assert forall|a: int, b: int, i: int, j: int|
        0 <= a < b < m2.len() && 0 <= i < m2[a].domains.len() && 0 <= j < m2[b].domains.len()
            implies #[trigger] m2[a].domains[i] != #[trigger] m2[b].domains[j] by {
        if a == k {
            assert(m2[a].domains == ds);
            assert(m2[b] == ms[b]);
            if ds[i] == ms[b].domains[j] {
                assert(ms[b].domains.contains(ds[i]));
            }
        } else if b == k {
            assert(m2[b].domains == ds);
            assert(m2[a] == ms[a]);
            if ms[a].domains[i] == ds[j] {
                assert(ms[a].domains.contains(ds[j]));
            }
        } else {
            assert(m2[a] == ms[a]);
            assert(m2[b] == ms[b]);
        }
    }
}

/// Adding a mapping to a file whose block reads: it succeeds exactly when the address
/// reads as an IP address, every domain and the group are valid, there are 1 to 64
/// domains without repeats, and none is in a mapping already. Then the mappings are the
/// old ones and the new one last (the address in canonical form, the checked domains, the
/// trimmed group), the file written holds them after the kept lines, reading it back gives
/// them, and no domain is in two mappings when none was before.
pub proof fn law_add(hosts: Seq<char>, ip: Seq<char>, domains: Seq<Seq<char>>, group: Seq<char>)
    requires
        hosts_parse(hosts) is Ok,
        domains_unique(hosts_parse(hosts)->Ok_0.1),
    ensures
        add_spec(hosts, ip, domains, group) is Ok <==> {
            &&& crate::hosts::canonical_ip(ip) is Some
            &&& check_domains(domains) is Ok
            &&& 0 < check_domains(domains)->Ok_0.len() <= 64
            &&& !crate::hosts::has_duplicate(check_domains(domains)->Ok_0)
            &&& group_check(group) is Ok
            &&& !crate::hosts::domain_used(check_domains(domains)->Ok_0, hosts_parse(hosts)->Ok_0.1, -1)
        },
        add_spec(hosts, ip, domains, group) is Ok ==> {
            let ms = hosts_parse(hosts)->Ok_0.1;
            let r = add_spec(hosts, ip, domains, group)->Ok_0.0;
            &&& r == ms.push(
                MappingView {
                    ip: crate::hosts::canonical_ip(ip)->0,
                    domains: check_domains(domains)->Ok_0,
                    group: trim(group),
                },
            )
            &&& add_spec(hosts, ip, domains, group)->Ok_0.1 == crate::hosts::render_text(
                hosts_parse(hosts)->Ok_0.0,
                r,
            )
            &&& hosts_parse(add_spec(hosts, ip, domains, group)->Ok_0.1) == Ok::<
                (Seq<Seq<char>>, Seq<MappingView>),
                Seq<char>,
            >((read_back(outside_lines(hosts_parse(hosts)->Ok_0.0)), r))
            &&& domains_unique(r)
        },
{
    if add_spec(hosts, ip, domains, group) is Ok {
        law_add_then_list(hosts, ip, domains, group);
        law_add_keeps_domains_unique(hosts, ip, domains, group);
    }
}

/// Removing mappings from a file whose block reads keeps exactly the mappings that do not
/// have both the given IP text and, when domains are given, exactly those domains: every
/// mapping with another IP text, or with other domains when some are given, is still
/// there; every mapping left was there before and is not one of those named; at least one
/// is gone.
pub proof fn law_remove(hosts: Seq<char>, ip: Seq<char>, domains: Seq<Seq<char>>)
    requires
        remove_spec(hosts, ip, domains) is Ok,
    ensures
        ({
            let ms = hosts_parse(hosts)->Ok_0.1;
            let r = remove_spec(hosts, ip, domains)->Ok_0.0;
            &&& forall|k: int|
                0 <= k < ms.len() && ((#[trigger] ms[k]).ip != ip || (domains.len() > 0 && ms[k].domains
                    != domains)) ==> r.contains(ms[k])
            &&& forall|j: int|
                0 <= j < r.len() ==> ms.contains(#[trigger] r[j]) && (r[j].ip != ip || (domains.len() > 0
                    && r[j].domains != domains))
            &&& r.len() < ms.len()
        }),
{
    let ms = hosts_parse(hosts)->Ok_0.1;
    let keep = crate::hosts::kept_by_remove(ip, domains);
    let r = ms.filter(keep);
    assert(r == remove_spec(hosts, ip, domains)->Ok_0.0);
    ms.lemma_filter_len(keep);
    assert forall|k: int|
        0 <= k < ms.len() && ((#[trigger] ms[k]).ip != ip || (domains.len() > 0 && ms[k].domains
            != domains)) implies r.contains(ms[k]) by {
        assert(keep(ms[k]));
        ms.lemma_filter_contains(keep, k);
    }
    assert forall|j: int| 0 <= j < r.len() implies ms.contains(#[trigger] r[j]) && (r[j].ip != ip || (
    domains.len() > 0 && r[j].domains != domains)) by {
        ms.lemma_filter_pred(keep, j);
        assert(r.contains(r[j]));
        ms.lemma_filter_contains_rev(keep, r[j]);
    }
}

/// Removing from a file whose block reads is refused exactly when no mapping has the given
/// IP text and, when domains are given, exactly those domains.
pub proof fn law_remove_refused(hosts: Seq<char>, ip: Seq<char>, domains: Seq<Seq<char>>)
    requires
        hosts_parse(hosts) is Ok,
    ensures
        remove_spec(hosts, ip, domains) is Ok <==> exists|k: int|
            0 <= k < hosts_parse(hosts)->Ok_0.1.len() && (#[trigger] hosts_parse(hosts)->Ok_0.1[k]).ip == ip
                && (domains.len() == 0 || hosts_parse(hosts)->Ok_0.1[k].domains == domains),
{
    let ms = hosts_parse(hosts)->Ok_0.1;
    let keep = crate::hosts::kept_by_remove(ip, domains);
    let r = ms.filter(keep);
    if exists|k: int| 0 <= k < ms.len() && (#[trigger] ms[k]).ip == ip && (domains.len() == 0
        || ms[k].domains == domains) {
        let k = choose|k: int| 0 <= k < ms.len() && (#[trigger] ms[k]).ip == ip && (domains.len()
            == 0 || ms[k].domains == domains);
        lemma_filter_drops(ms, keep, k);
    } else {
        assert forall|k: int| 0 <= k < ms.len() implies keep(#[trigger] ms[k]) by {}
        lemma_filter_all(ms, keep);
    }
}

/// Filtering out an element that fails the test shortens the sequence.
proof fn lemma_filter_drops(s: Seq<MappingView>, keep: spec_fn(MappingView) -> bool, k: int)
    requires
        0 <= k < s.len(),
        !keep(s[k]),
    ensures
        s.filter(keep).len() < s.len(),
    decreases s.len(),
{
    reveal(Seq::filter);
    s.drop_last().lemma_filter_len(keep);
    if k < s.len() - 1 {
        assert(s.drop_last()[k] == s[k]);
        lemma_filter_drops(s.drop_last(), keep, k);
    }
}

/// Filtering with a test every element passes keeps them all.
proof fn lemma_filter_all(s: Seq<MappingView>, keep: spec_fn(MappingView) -> bool)
    requires
        forall|k: int| 0 <= k < s.len() ==> keep(#[trigger] s[k]),
    ensures
        s.filter(keep).len() == s.len(),
    decreases s.len(),
{
    reveal(Seq::filter);
    if s.len() > 0 {
        assert forall|k: int| 0 <= k < s.drop_last().len() implies keep(#[trigger] s.drop_last()[k]) by {
            assert(s.drop_last()[k] == s[k]);
        }
        lemma_filter_all(s.drop_last(), keep);
        assert(keep(s[s.len() - 1]));
    }
}

} // verus!
