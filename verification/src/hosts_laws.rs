//! What reading the hosts file gives back of what writing it wrote.
use crate::hosts::{
    begin_marker, check_domains, domain_check, end_marker, group_check, group_heading, group_prefix,
    hosts_parse, last_group, mapping_line, mapping_lines, parse_lines, parse_start, parse_step,
    render_lines, render_text, trim_trailing_empty, MappingView, ParseState,
};
use crate::ip::ip_parse;
use crate::text::{
    is_ws, join, line_body, lines, split_char, trim, trim_end, trim_start, word_len, words,
};
use vstd::prelude::*;

verus! {

// ---------------------------------------------------------------------------
// What may be written
// ---------------------------------------------------------------------------

/// A line the file can hold and give back as it is: no line break inside, no carriage
/// return at its end.
pub open spec fn line_ok(l: Seq<char>) -> bool {
    !l.contains('\n') && (l.len() == 0 || l.last() != '\r')
}

/// A line outside the managed block that reads back as such: a whole line that is no
/// block marker.
pub open spec fn kept_line_ok(l: Seq<char>) -> bool {
    line_ok(l) && trim(l) != begin_marker() && trim(l) != end_marker()
}

/// A line outside the managed block that stays outside when read again: no line break,
/// and no block marker once trimmed. (Unlike `kept_line_ok`, it may end with a carriage
/// return, which a line break after it takes away.)
pub open spec fn outside_line_ok(l: Seq<char>) -> bool {
    !l.contains('\n') && trim(l) != begin_marker() && trim(l) != end_marker()
}

/// A line as it reads back once a line break follows it: a final carriage return dropped.
pub open spec fn read_back(ls: Seq<Seq<char>>) -> Seq<Seq<char>> {
    ls.map_values(|l: Seq<char>| line_body(l, true))
}

/// A word of a mapping line: nonempty, without whitespace or `#`.
pub open spec fn word_ok(w: Seq<char>) -> bool {
    w.len() > 0 && forall|k: int| 0 <= k < w.len() ==> !is_ws(#[trigger] w[k]) && w[k] != '#'
}

/// A mapping that reads back as it is: an IP address and at least one domain, each a
/// plain word, every domain already in the form `validate_domain` gives, and a group name
/// already in the form `validate_group` gives.
pub open spec fn writable_mapping(m: MappingView) -> bool {
    &&& ip_parse(m.ip) is Some
    &&& word_ok(m.ip)
    &&& m.domains.len() > 0
    &&& forall|i: int|
        0 <= i < m.domains.len() ==> word_ok(#[trigger] m.domains[i]) && domain_check(
            m.domains[i],
        ) == Ok::<Seq<char>, Seq<char>>(m.domains[i])
    &&& group_check(m.group) == Ok::<Seq<char>, Seq<char>>(m.group)
}

// ---------------------------------------------------------------------------
// Lines
// ---------------------------------------------------------------------------

/// Joining lines with line breaks and a final one, then splitting, gives the lines back,
/// each without a final carriage return.
pub proof fn lemma_lines_join(ls: Seq<Seq<char>>)
    requires
        forall|i: int| 0 <= i < ls.len() ==> !(#[trigger] ls[i]).contains('\n'),
    ensures
        lines(join(ls.push(seq![]), seq!['\n'])) == read_back(ls),
    decreases ls.len(),
{
    if ls.len() == 0 {
        assert(ls.push(seq![]) == seq![Seq::<char>::empty()]);
        assert(join(seq![Seq::<char>::empty()], seq!['\n']) == Seq::<char>::empty());
        assert(lines(Seq::<char>::empty()) == Seq::<Seq<char>>::empty());
        assert(read_back(ls) == Seq::<Seq<char>>::empty());
    } else {
        let l = ls[0];
        let rest = ls.skip(1);
        assert forall|i: int| 0 <= i < rest.len() implies !(#[trigger] rest[i]).contains('\n') by {
            assert(rest[i] == ls[i + 1]);
        }
        lemma_lines_join(rest);
        let parts = ls.push(seq![]);
        assert(parts.skip(1) == rest.push(seq![]));
        assert(parts[0] == l);
        let j = join(rest.push(seq![]), seq!['\n']);
        let s = l + seq!['\n'] + j;
        assert(join(parts, seq!['\n']) == s);
        assert(!ls[0].contains('\n'));
        assert forall|k: int| 0 <= k < l.len() implies s[k] != '\n' by {
            assert(s[k] == l[k]);
            if l[k] == '\n' {
                assert(l.contains('\n'));
            }
        }
        assert(s[l.len() as int] == '\n');
        crate::text::lemma_find_char_at(s, '\n', l.len() as int);
        assert(s.take(l.len() as int) == l);
        assert(s.skip(l.len() as int + 1) == j);
        assert(lines(s) == seq![line_body(l, true)] + lines(j));
        assert(seq![line_body(l, true)] + read_back(rest) == read_back(ls));
    }
}

/// Whole lines read back as they are.
pub proof fn lemma_read_back_whole(ls: Seq<Seq<char>>)
    requires
        forall|i: int| 0 <= i < ls.len() ==> line_ok(#[trigger] ls[i]),
    ensures
        read_back(ls) == ls,
{
    assert forall|i: int| 0 <= i < ls.len() implies read_back(ls)[i] == ls[i] by {
        assert(line_ok(ls[i]));
    }
    assert(read_back(ls) =~= ls);
}

/// Dropping a final carriage return changes neither the trimmed text nor the absence of
/// line breaks.
pub proof fn lemma_read_back_line(l: Seq<char>)
    ensures
        trim(line_body(l, true)) == trim(l),
        !l.contains('\n') ==> !line_body(l, true).contains('\n'),
{
    if l.len() > 0 && l.last() == '\r' {
        let d = l.drop_last();
        assert(line_body(l, true) == d);
        if d.contains('\n') {
            let k = choose|k: int| 0 <= k < d.len() && d[k] == '\n';
            assert(l[k] == '\n');
            assert(l.contains('\n'));
        }
        crate::text::lemma_trim_start(l);
        crate::text::lemma_trim_start(d);
        let a = trim_start(l);
        let t = trim_start(d);
        let ka = l.len() - a.len();
        let kt = d.len() - t.len();
        if t.len() > 0 {
            assert(t[0] == d[kt]);
            assert(d[kt] == l[kt]);
            if ka <= kt {
                if ka < kt {
                    assert(a[0] == l[ka]);
                    assert(d[ka] == l[ka]);
                }
            } else {
                assert(is_ws(l[kt]));
            }
            assert(ka == kt);
            assert(t == a.drop_last());
            assert(a.last() == '\r');
            assert(trim_end(a) == trim_end(a.drop_last()));
        } else {
            if a.len() > 0 {
                assert(a[0] == l[ka]);
                if ka < l.len() - 1 {
                    assert(d[ka] == l[ka]);
                    assert(is_ws(d[ka]));
                }
                assert(false);
            }
            assert(trim_end(t) == t);
            assert(trim_end(a) == a);
        }
    }
}

/// A text starting with a non-whitespace character has no leading whitespace to trim.
pub proof fn lemma_trim_start_plain(s: Seq<char>)
    requires
        s.len() == 0 || !is_ws(s[0]),
    ensures
        trim_start(s) == s,
{
}

/// A text ending with a non-whitespace character has no trailing whitespace to trim.
pub proof fn lemma_trim_end_plain(s: Seq<char>)
    requires
        s.len() == 0 || !is_ws(s.last()),
    ensures
        trim_end(s) == s,
{
}

/// A trimmed text begins and ends with non-whitespace.
pub proof fn lemma_trimmed(g: Seq<char>)
    requires
        trim(g) == g,
    ensures
        trim_start(g) == g,
        g.len() > 0 ==> !is_ws(g[0]) && !is_ws(g.last()),
{
    crate::text::lemma_trim_start(g);
    crate::text::lemma_trim_end(trim_start(g));
    assert(trim_start(g).len() == g.len());
    assert(g.skip(0) == g);
}

// ---------------------------------------------------------------------------
// Words
// ---------------------------------------------------------------------------

/// A word followed by whitespace is read up to that whitespace.
pub proof fn lemma_word_len_prefix(w: Seq<char>, rest: Seq<char>)
    requires
        forall|k: int| 0 <= k < w.len() ==> !is_ws(#[trigger] w[k]),
        rest.len() == 0 || is_ws(rest[0]),
    ensures
        word_len(w + rest) == w.len(),
    decreases w.len(),
{
    if w.len() > 0 {
        let s = w + rest;
        assert(s[0] == w[0]);
        assert(s.skip(1) == w.skip(1) + rest);
        assert forall|k: int| 0 <= k < w.skip(1).len() implies !is_ws(#[trigger] w.skip(1)[k]) by {
            assert(w.skip(1)[k] == w[k + 1]);
        }
        lemma_word_len_prefix(w.skip(1), rest);
    } else {
        assert(w + rest == rest);
    }
}

/// Plain words joined by spaces are read back as those words.
pub proof fn lemma_words_join(ws: Seq<Seq<char>>)
    requires
        forall|i: int| 0 <= i < ws.len() ==> word_ok(#[trigger] ws[i]),
    ensures
        words(join(ws, seq![' '])) == ws,
    decreases ws.len(),
{
    if ws.len() == 0 {
        assert(words(Seq::<char>::empty()) == Seq::<Seq<char>>::empty());
    } else {
        let w = ws[0];
        assert(word_ok(ws[0]));
        let rest = ws.skip(1);
        assert forall|i: int| 0 <= i < rest.len() implies word_ok(#[trigger] rest[i]) by {
            assert(rest[i] == ws[i + 1]);
        }
        lemma_words_join(rest);
        if ws.len() == 1 {
            assert(join(ws, seq![' ']) == w);
            lemma_trim_start_plain(w);
            assert(w + Seq::<char>::empty() == w);
            lemma_word_len_prefix(w, Seq::<char>::empty());
            assert(w.take(w.len() as int) == w);
            assert(w.skip(w.len() as int) == Seq::<char>::empty());
            assert(words(Seq::<char>::empty()) == Seq::<Seq<char>>::empty());
            assert(words(w) == seq![w] + words(Seq::<char>::empty()));
            assert(seq![w] == ws);
        } else {
            let j = join(rest, seq![' ']);
            let s = w + (seq![' '] + j);
            assert(join(ws, seq![' ']) == w + seq![' '] + j);
            assert(w + seq![' '] + j == s);
            assert(s[0] == w[0]);
            lemma_trim_start_plain(s);
            assert((seq![' '] + j)[0] == ' ');
            lemma_word_len_prefix(w, seq![' '] + j);
            assert(s.take(w.len() as int) == w);
            assert(s.skip(w.len() as int) == seq![' '] + j);
            let t = seq![' '] + j;
            assert(t.skip(1) == j);
            assert(word_ok(rest[0]));
            lemma_join_first(rest, seq![' ']);
            assert(j[0] == rest[0][0]);
            lemma_trim_start_plain(j);
            assert(trim_start(t) == trim_start(j));
            assert(words(t) == words(j));
            assert(words(s) == seq![w] + words(t));
            assert(seq![w] + rest == ws);
        }
    }
}

/// A join of nonempty pieces begins with the first piece.
pub proof fn lemma_join_first(ps: Seq<Seq<char>>, sep: Seq<char>)
    requires
        ps.len() > 0,
        ps[0].len() > 0,
    ensures
        join(ps, sep).len() > 0,
        join(ps, sep)[0] == ps[0][0],
{
    if ps.len() == 1 {
    } else {
        assert((ps[0] + sep + join(ps.skip(1), sep))[0] == ps[0][0]);
    }
}

/// Every character of a join satisfies what every character of its pieces and separator
/// satisfies.
pub proof fn lemma_join_all(ps: Seq<Seq<char>>, sep: Seq<char>, p: spec_fn(char) -> bool)
    requires
        forall|i: int, k: int| 0 <= i < ps.len() && 0 <= k < ps[i].len() ==> p(#[trigger] ps[i][k]),
        forall|k: int| 0 <= k < sep.len() ==> p(#[trigger] sep[k]),
    ensures
        forall|k: int| 0 <= k < join(ps, sep).len() ==> p(#[trigger] join(ps, sep)[k]),
    decreases ps.len(),
{
    if ps.len() == 0 {
    } else if ps.len() == 1 {
        assert forall|k: int| 0 <= k < join(ps, sep).len() implies p(#[trigger] join(ps, sep)[k]) by {
            assert(join(ps, sep)[k] == ps[0][k]);
        }
    } else {
        let r = ps.skip(1);
        assert forall|i: int, k: int| 0 <= i < r.len() && 0 <= k < r[i].len() implies p(
            #[trigger] r[i][k],
        ) by {
            assert(r[i] == ps[i + 1]);
        }
        lemma_join_all(r, sep, p);
        let a = ps[0];
        let jr = join(r, sep);
        assert forall|k: int| 0 <= k < join(ps, sep).len() implies p(#[trigger] join(ps, sep)[k]) by {
            assert(join(ps, sep) == a + sep + jr);
            if k < a.len() {
                assert(join(ps, sep)[k] == a[k]);
            } else if k < a.len() + sep.len() {
                assert(join(ps, sep)[k] == sep[k - a.len()]);
            } else {
                assert(join(ps, sep)[k] == jr[k - a.len() - sep.len()]);
            }
        }
    }
}

// ---------------------------------------------------------------------------
// Reading line by line
// ---------------------------------------------------------------------------

/// Reading more lines on from a state (or a refusal).
pub open spec fn parse_more(r: Result<ParseState, Seq<char>>, ls: Seq<Seq<char>>) -> Result<ParseState, Seq<char>>
    decreases ls.len(),
{
    if ls.len() == 0 {
        r
    } else {
        match parse_more(r, ls.drop_last()) {
            Ok(st) => parse_step(st, ls.last()),
            Err(e) => Err(e),
        }
    }
}

/// Reading lines from the start is reading them on from the start state.
pub proof fn lemma_parse_lines_more(ls: Seq<Seq<char>>)
    ensures
        parse_lines(ls) == parse_more(Ok(parse_start()), ls),
    decreases ls.len(),
{
    if ls.len() > 0 {
        lemma_parse_lines_more(ls.drop_last());
    }
}

/// Reading two runs of lines is reading the first, then the second on from there.
pub proof fn lemma_parse_more_concat(r: Result<ParseState, Seq<char>>, a: Seq<Seq<char>>, c: Seq<Seq<char>>)
    ensures
        parse_more(r, a + c) == parse_more(parse_more(r, a), c),
    decreases c.len(),
{
    if c.len() == 0 {
        assert(a + c == a);
    } else {
        lemma_parse_more_concat(r, a, c.drop_last());
        assert((a + c).drop_last() == a + c.drop_last());
        assert((a + c).last() == c.last());
    }
}

/// Lines outside the block that are no markers are kept in order.
pub proof fn lemma_parse_outside(st: ParseState, xs: Seq<Seq<char>>)
    requires
        !st.in_block,
        forall|i: int| 0 <= i < xs.len() ==> outside_line_ok(#[trigger] xs[i]),
    ensures
        parse_more(Ok(st), xs) == Ok::<ParseState, Seq<char>>(
            ParseState { before: st.before + xs, managed: st.managed, in_block: false, group: st.group },
        ),
    decreases xs.len(),
{
    if xs.len() == 0 {
        assert(st.before + xs == st.before);
    } else {
        let init = xs.drop_last();
        assert forall|i: int| 0 <= i < init.len() implies outside_line_ok(#[trigger] init[i]) by {
            assert(init[i] == xs[i]);
        }
        lemma_parse_outside(st, init);
        assert(outside_line_ok(xs[xs.len() - 1]));
        assert((st.before + init).push(xs.last()) == st.before + xs);
    }
}

/// A group heading inside the block switches to its group.
pub proof fn lemma_heading_step(st: ParseState, g: Seq<char>)
    requires
        st.in_block,
        group_check(g) == Ok::<Seq<char>, Seq<char>>(g),
    ensures
        parse_step(st, group_heading(g)) == Ok::<ParseState, Seq<char>>(
            ParseState { before: st.before, managed: st.managed, in_block: true, group: g },
        ),
{
    reveal_strlit("# DomainEgress Group:");
    reveal_strlit("# BEGIN DOMAIN-EGRESS HOSTS");
    reveal_strlit("# END DOMAIN-EGRESS HOSTS");
    let p = group_prefix();
    let h = group_heading(g);
    assert(trim(g) == g);
    lemma_trimmed(g);
    assert(h[0] == '#');
    lemma_trim_start_plain(h);
    let x = if g.len() == 0 {
        Seq::<char>::empty()
    } else {
        seq![' '] + g
    };
    if g.len() == 0 {
        assert(h == p.push(' '));
        assert(h.drop_last() == p);
        lemma_trim_end_plain(p);
        assert(trim_end(h) == p);
        assert(p + x == p);
    } else {
        assert(h.last() == g.last());
        lemma_trim_end_plain(h);
        assert(h == p + x);
    }
    let tl = trim(h);
    assert(tl == p + x);
    assert(tl[2] == 'D');
    assert(begin_marker()[2] == 'B');
    assert(end_marker()[2] == 'E');
    assert(tl.take(p.len() as int) == p);
    assert(tl.skip(p.len() as int) == x);
    if g.len() > 0 {
        assert(x.skip(1) == g);
        assert(trim_start(x) == trim_start(g));
    }
    assert(trim(x) == g);
    assert(group_check(x) == group_check(g));
}

/// The shape of a mapping line: it begins with the IP address, holds no `#`, needs no
/// trimming, and its words are the address and the domains.
pub proof fn lemma_mapping_line_shape(m: MappingView)
    requires
        writable_mapping(m),
    ensures
        mapping_line(m).len() > 0,
        mapping_line(m)[0] == m.ip[0],
        !mapping_line(m).contains('#'),
        trim(mapping_line(m)) == mapping_line(m),
        words(mapping_line(m)) == seq![m.ip] + m.domains,
{
    let line = mapping_line(m);
    let ws = seq![m.ip] + m.domains;
    assert(ws[0] == m.ip);
    assert(ws.skip(1) == m.domains);
    assert forall|i: int| 0 <= i < ws.len() implies word_ok(#[trigger] ws[i]) by {
        if i > 0 {
            assert(ws[i] == m.domains[i - 1]);
        }
    }
    assert(join(ws, seq![' ']) == m.ip + seq![' '] + join(ws.skip(1), seq![' ']));
    assert(line == join(ws, seq![' ']));
    let nh = |c: char| c != '#';
    assert forall|i: int, k: int| 0 <= i < ws.len() && 0 <= k < ws[i].len() implies nh(
        #[trigger] ws[i][k],
    ) by {
        assert(word_ok(ws[i]));
    }
    lemma_join_all(ws, seq![' '], nh);
    assert(!line.contains('#')) by {
        if line.contains('#') {
            let k = choose|k: int| 0 <= k < line.len() && line[k] == '#';
            assert(nh(line[k]));
        }
    }
    lemma_words_join(ws);
    assert(line[0] == m.ip[0]);
    let last_d = m.domains.last();
    assert(word_ok(m.domains[m.domains.len() - 1]));
    lemma_join_last(ws, seq![' ']);
    assert(ws.last() == last_d);
    assert(!is_ws(last_d[last_d.len() - 1]));
    lemma_trim_start_plain(line);
    lemma_trim_end_plain(line);
}

/// A mapping line inside the block adds its mapping to the current group.
pub proof fn lemma_mapping_step(st: ParseState, m: MappingView)
    requires
        st.in_block,
        writable_mapping(m),
        st.group == m.group,
    ensures
        parse_step(st, mapping_line(m)) == Ok::<ParseState, Seq<char>>(
            ParseState {
                before: st.before,
                managed: st.managed.push(m),
                in_block: true,
                group: st.group,
            },
        ),
{
    reveal_strlit("# DomainEgress Group:");
    reveal_strlit("# BEGIN DOMAIN-EGRESS HOSTS");
    reveal_strlit("# END DOMAIN-EGRESS HOSTS");
    let line = mapping_line(m);
    lemma_mapping_line_shape(m);
    assert(word_ok(m.ip));
    assert(line[0] != '#');
    assert(line != begin_marker());
    assert(line != end_marker());
    if line.len() >= group_prefix().len() {
        assert(line.take(group_prefix().len() as int)[0] == line[0]);
        assert(group_prefix()[0] == '#');
    }
    assert(!crate::text::starts_with(line, group_prefix()));
    crate::text::lemma_find_char_contains(line, '#');
    assert(split_char(line, '#') == seq![line]);
    assert(crate::hosts::before_comment(line) == line);
    let ws = seq![m.ip] + m.domains;
    assert(ws[0] == m.ip);
    assert(ws.skip(1) == m.domains);
    lemma_check_domains_plain(m.domains);
    assert(MappingView { ip: ws[0], domains: m.domains, group: st.group } == m);
}

/// Reading one line on.
pub proof fn lemma_parse_more_one(r: Result<ParseState, Seq<char>>, x: Seq<char>)
    ensures
        parse_more(r, seq![x]) == (match r {
            Ok(st) => parse_step(st, x),
            Err(e) => Err(e),
        }),
{
    assert(seq![x].drop_last() == Seq::<Seq<char>>::empty());
    assert(seq![x].last() == x);
    assert(parse_more(r, Seq::<Seq<char>>::empty()) == r);
}

/// A join of nonempty pieces ends with the last piece.
pub proof fn lemma_join_last(ps: Seq<Seq<char>>, sep: Seq<char>)
    requires
        ps.len() > 0,
        ps.last().len() > 0,
    ensures
        join(ps, sep).len() > 0,
        join(ps, sep).last() == ps.last().last(),
    decreases ps.len(),
{
    if ps.len() > 1 {
        assert(ps.skip(1).last() == ps.last());
        lemma_join_last(ps.skip(1), sep);
    }
}

/// Domains already in checked form pass the check unchanged.
pub proof fn lemma_check_domains_plain(ds: Seq<Seq<char>>)
    requires
        forall|i: int|
            0 <= i < ds.len() ==> domain_check(#[trigger] ds[i]) == Ok::<Seq<char>, Seq<char>>(
                ds[i],
            ),
    ensures
        check_domains(ds) == Ok::<Seq<Seq<char>>, Seq<char>>(ds),
    decreases ds.len(),
{
    if ds.len() > 0 {
        let init = ds.drop_last();
        assert forall|i: int| 0 <= i < init.len() implies domain_check(#[trigger] init[i])
            == Ok::<Seq<char>, Seq<char>>(init[i]) by {
            assert(init[i] == ds[i]);
        }
        lemma_check_domains_plain(init);
        assert(check_domains(init) == Ok::<Seq<Seq<char>>, Seq<char>>(init));
        assert(domain_check(ds[ds.len() - 1]) == Ok::<Seq<char>, Seq<char>>(ds.last()));
        assert(init.push(ds.last()) == ds);
        assert(check_domains(ds) == Ok::<Seq<Seq<char>>, Seq<char>>(init.push(ds.last())));
    } else {
        assert(ds =~= Seq::<Seq<char>>::empty());
    }
}

/// The lines of the mappings read inside the block give the mappings back.
#[verifier::spinoff_prover]
pub proof fn lemma_parse_mappings(st: ParseState, ms: Seq<MappingView>)
    requires
        st.in_block,
        st.group == Seq::<char>::empty(),
        forall|i: int| 0 <= i < ms.len() ==> writable_mapping(#[trigger] ms[i]),
    ensures
        parse_more(Ok(st), mapping_lines(ms)) == Ok::<ParseState, Seq<char>>(
            ParseState {
                before: st.before,
                managed: st.managed + ms,
                in_block: true,
                group: last_group(ms),
            },
        ),
    decreases ms.len(),
{
    if ms.len() == 0 {
        assert(st.managed + ms == st.managed);
    } else {
        let init = ms.drop_last();
        let m = ms.last();
        assert forall|i: int| 0 <= i < init.len() implies writable_mapping(#[trigger] init[i]) by {
            assert(init[i] == ms[i]);
        }
        assert(writable_mapping(ms[ms.len() - 1]));
        lemma_parse_mappings(st, init);
        let a = mapping_lines(init);
        let h = if m.group != last_group(init) {
            seq![group_heading(m.group)]
        } else {
            Seq::<Seq<char>>::empty()
        };
        let l = seq![mapping_line(m)];
        assert(mapping_lines(ms) == a + h + l);
        lemma_parse_more_concat(Ok(st), a + h, l);
        lemma_parse_more_concat(Ok(st), a, h);
        let s1 = ParseState {
            before: st.before,
            managed: st.managed + init,
            in_block: true,
            group: last_group(init),
        };
        let s2 = ParseState { before: st.before, managed: st.managed + init, in_block: true, group: m.group };
        if m.group != last_group(init) {
            lemma_heading_step(s1, m.group);
            lemma_parse_more_one(Ok(s1), group_heading(m.group));
            assert(parse_more(Ok(s1), h) == Ok::<ParseState, Seq<char>>(s2));
        } else {
            assert(s1 == s2);
            assert(parse_more(Ok(s1), h) == Ok::<ParseState, Seq<char>>(s2));
        }
        lemma_mapping_step(s2, m);
        lemma_parse_more_one(Ok(s2), mapping_line(m));
        assert((st.managed + init).push(m) == st.managed + ms);
    }
}

// ---------------------------------------------------------------------------
// The law
// ---------------------------------------------------------------------------

/// The lines written before the block: the kept lines without trailing empty ones, then
/// one empty line.
pub open spec fn outside_lines(before: Seq<Seq<char>>) -> Seq<Seq<char>> {
    trim_trailing_empty(before).push(seq![])
}

/// The lines of the written file, without the empty piece after its final line break.
pub open spec fn written_lines(before: Seq<Seq<char>>, ms: Seq<MappingView>) -> Seq<Seq<char>> {
    outside_lines(before) + seq![begin_marker()] + mapping_lines(ms) + seq![end_marker()]
}

/// The lines before the block read back as lines outside it.
pub proof fn lemma_outside_lines_ok(before: Seq<Seq<char>>)
    requires
        forall|i: int| 0 <= i < before.len() ==> outside_line_ok(#[trigger] before[i]),
    ensures
        forall|i: int| 0 <= i < outside_lines(before).len() ==> outside_line_ok(
            #[trigger] outside_lines(before)[i],
        ),
        forall|i: int| 0 <= i < outside_lines(before).len() ==> outside_line_ok(
            #[trigger] read_back(outside_lines(before))[i],
        ),
{
    reveal_strlit("# BEGIN DOMAIN-EGRESS HOSTS");
    reveal_strlit("# END DOMAIN-EGRESS HOSTS");
    let kept = trim_trailing_empty(before);
    lemma_trim_trailing_empty_prefix(before);
    let outside = outside_lines(before);
    assert forall|i: int| 0 <= i < outside.len() implies outside_line_ok(#[trigger] outside[i]) by {
        if i < kept.len() {
            assert(outside[i] == kept[i]);
            assert(kept[i] == before[i]);
        } else {
            assert(outside[i] == Seq::<char>::empty());
            assert(trim(Seq::<char>::empty()) == Seq::<char>::empty());
        }
    }
    assert forall|i: int| 0 <= i < outside.len() implies outside_line_ok(
        #[trigger] read_back(outside)[i],
    ) by {
        assert(outside_line_ok(outside[i]));
        lemma_read_back_line(outside[i]);
    }
}

/// Splitting the written text gives the written lines, those before the block without a
/// final carriage return.
pub proof fn lemma_written_lines(before: Seq<Seq<char>>, ms: Seq<MappingView>)
    requires
        forall|i: int| 0 <= i < before.len() ==> outside_line_ok(#[trigger] before[i]),
        forall|i: int| 0 <= i < ms.len() ==> writable_mapping(#[trigger] ms[i]),
    ensures
        lines(render_text(before, ms)) == read_back(outside_lines(before)) + seq![begin_marker()]
            + mapping_lines(ms) + seq![end_marker()],
{
    reveal_strlit("# BEGIN DOMAIN-EGRESS HOSTS");
    reveal_strlit("# END DOMAIN-EGRESS HOSTS");
    let outside = outside_lines(before);
    lemma_outside_lines_ok(before);
    let body = mapping_lines(ms);
    lemma_mapping_lines_ok(ms);
    let x = written_lines(before, ms);
    assert(render_lines(before, ms) == x.push(seq![]));
    assert forall|i: int| 0 <= i < x.len() implies !(#[trigger] x[i]).contains('\n') by {
        if i < outside.len() {
            assert(x[i] == outside[i]);
            assert(outside_line_ok(outside[i]));
        } else if i == outside.len() {
            assert(x[i] == begin_marker());
        } else if i < outside.len() + 1 + body.len() {
            assert(x[i] == body[i - outside.len() - 1]);
            assert(line_ok(body[i - outside.len() - 1]));
        } else {
            assert(x[i] == end_marker());
        }
    }
    lemma_lines_join(x);
    let rest = seq![begin_marker()] + body + seq![end_marker()];
    assert forall|i: int| 0 <= i < rest.len() implies line_ok(#[trigger] rest[i]) by {
        if 0 < i < rest.len() - 1 {
            assert(rest[i] == body[i - 1]);
        }
    }
    lemma_read_back_whole(rest);
    assert(x == outside + rest);
    assert(read_back(x) == read_back(outside) + read_back(rest));
}

/// Reading the written lines gives the lines before the block and the mappings, with the
/// block closed.
pub proof fn lemma_parse_written(before: Seq<Seq<char>>, ms: Seq<MappingView>)
    requires
        forall|i: int| 0 <= i < before.len() ==> outside_line_ok(#[trigger] before[i]),
        forall|i: int| 0 <= i < ms.len() ==> writable_mapping(#[trigger] ms[i]),
    ensures
        parse_lines(
            read_back(outside_lines(before)) + seq![begin_marker()] + mapping_lines(ms) + seq![
                end_marker(),
            ],
        ) == Ok::<ParseState, Seq<char>>(
            ParseState {
                before: read_back(outside_lines(before)),
                managed: ms,
                in_block: false,
                group: last_group(ms),
            },
        ),
{
    reveal_strlit("# BEGIN DOMAIN-EGRESS HOSTS");
    reveal_strlit("# END DOMAIN-EGRESS HOSTS");
    let outside = read_back(outside_lines(before));
    lemma_outside_lines_ok(before);
    let body = mapping_lines(ms);
    let x = outside + seq![begin_marker()] + body + seq![end_marker()];
    lemma_parse_lines_more(x);
    let r0: Result<ParseState, Seq<char>> = Ok(parse_start());
    lemma_parse_more_concat(r0, outside + seq![begin_marker()] + body, seq![end_marker()]);
    lemma_parse_more_concat(r0, outside + seq![begin_marker()], body);
    lemma_parse_more_concat(r0, outside, seq![begin_marker()]);
    lemma_parse_outside(parse_start(), outside);
    let s1 = ParseState { before: outside, managed: seq![], in_block: false, group: seq![] };
    assert(parse_start().before + outside == outside);
    assert(parse_more(r0, outside) == Ok::<ParseState, Seq<char>>(s1));
    lemma_trim_start_plain(begin_marker());
    lemma_trim_end_plain(begin_marker());
    let s2 = ParseState { before: outside, managed: seq![], in_block: true, group: seq![] };
    lemma_parse_more_one(Ok(s1), begin_marker());
    assert(parse_more(Ok(s1), seq![begin_marker()]) == Ok::<ParseState, Seq<char>>(s2));
    lemma_parse_mappings(s2, ms);
    let s3 = ParseState { before: outside, managed: ms, in_block: true, group: last_group(ms) };
    assert(Seq::<MappingView>::empty() + ms == ms);
    lemma_trim_start_plain(end_marker());
    lemma_trim_end_plain(end_marker());
    assert(end_marker()[2] != begin_marker()[2]);
    let s4 = ParseState { before: outside, managed: ms, in_block: false, group: last_group(ms) };
    lemma_parse_more_one(Ok(s3), end_marker());
    assert(parse_more(Ok(s3), seq![end_marker()]) == Ok::<ParseState, Seq<char>>(s4));
}

/// Reading back what was written gives the mappings exactly, and the lines kept before
/// the block without their trailing empty ones, each without a final carriage return,
/// plus the one empty line written before the block.
pub proof fn law_render_then_parse_lines(before: Seq<Seq<char>>, ms: Seq<MappingView>)
    requires
        forall|i: int| 0 <= i < before.len() ==> outside_line_ok(#[trigger] before[i]),
        forall|i: int| 0 <= i < ms.len() ==> writable_mapping(#[trigger] ms[i]),
    ensures
        hosts_parse(render_text(before, ms)) == Ok::<(Seq<Seq<char>>, Seq<MappingView>), Seq<char>>(
            (read_back(outside_lines(before)), ms),
        ),
{
    lemma_written_lines(before, ms);
    lemma_parse_written(before, ms);
}

/// Reading back what was written gives the mappings exactly, and the kept lines without
/// their trailing empty ones plus the one empty line written before the block.
pub proof fn law_render_then_parse(before: Seq<Seq<char>>, ms: Seq<MappingView>)
    requires
        forall|i: int| 0 <= i < before.len() ==> kept_line_ok(#[trigger] before[i]),
        forall|i: int| 0 <= i < ms.len() ==> writable_mapping(#[trigger] ms[i]),
    ensures
        hosts_parse(render_text(before, ms)) == Ok::<(Seq<Seq<char>>, Seq<MappingView>), Seq<char>>(
            (trim_trailing_empty(before).push(seq![]), ms),
        ),
{
    assert forall|i: int| 0 <= i < before.len() implies outside_line_ok(#[trigger] before[i]) by {
        assert(kept_line_ok(before[i]));
    }
    law_render_then_parse_lines(before, ms);
    lemma_kept_read_back(before);
}

/// Lines kept outside the block that end in no carriage return read back as they are.
pub proof fn lemma_kept_read_back(before: Seq<Seq<char>>)
    requires
        forall|i: int| 0 <= i < before.len() ==> kept_line_ok(#[trigger] before[i]),
    ensures
        read_back(outside_lines(before)) == outside_lines(before),
{
    let kept = trim_trailing_empty(before);
    lemma_trim_trailing_empty_prefix(before);
    let outside = outside_lines(before);
    assert forall|i: int| 0 <= i < outside.len() implies line_ok(#[trigger] outside[i]) by {
        if i < kept.len() {
            assert(outside[i] == kept[i]);
            assert(kept[i] == before[i]);
            assert(kept_line_ok(before[i]));
        } else {
            assert(outside[i] == Seq::<char>::empty());
        }
    }
    lemma_read_back_whole(outside);
}

/// The kept lines without trailing empty ones are a prefix of the lines.
pub proof fn lemma_trim_trailing_empty_prefix(ls: Seq<Seq<char>>)
    ensures
        trim_trailing_empty(ls).len() <= ls.len(),
        forall|i: int| 0 <= i < trim_trailing_empty(ls).len() ==> #[trigger] trim_trailing_empty(ls)[i] == ls[i],
    decreases ls.len(),
{
    if ls.len() > 0 && ls.last().len() == 0 {
        lemma_trim_trailing_empty_prefix(ls.drop_last());
        assert forall|i: int| 0 <= i < trim_trailing_empty(ls).len() implies #[trigger] trim_trailing_empty(ls)[i] == ls[i] by {
            assert(ls.drop_last()[i] == ls[i]);
        }
    }
}

/// Every line written for the mappings is a whole line.
pub proof fn lemma_mapping_lines_ok(ms: Seq<MappingView>)
    requires
        forall|i: int| 0 <= i < ms.len() ==> writable_mapping(#[trigger] ms[i]),
    ensures
        forall|i: int| 0 <= i < mapping_lines(ms).len() ==> line_ok(#[trigger] mapping_lines(ms)[i]),
    decreases ms.len(),
{
    if ms.len() > 0 {
        let init = ms.drop_last();
        let m = ms.last();
        assert forall|i: int| 0 <= i < init.len() implies writable_mapping(#[trigger] init[i]) by {
            assert(init[i] == ms[i]);
        }
        assert(writable_mapping(ms[ms.len() - 1]));
        lemma_mapping_lines_ok(init);
        let a = mapping_lines(init);
        let h = if m.group != last_group(init) {
            seq![group_heading(m.group)]
        } else {
            Seq::<Seq<char>>::empty()
        };
        let l = mapping_line(m);
        assert(mapping_lines(ms) == a + h + seq![l]);
        // The heading: the prefix, a space and a group name without line breaks.
        reveal_strlit("# DomainEgress Group:");
        let gh = group_heading(m.group);
        assert(!m.group.contains('\n'));
        assert(line_ok(gh)) by {
            if gh.contains('\n') {
                let k = choose|k: int| 0 <= k < gh.len() && gh[k] == '\n';
                if k >= group_prefix().len() + 1 {
                    assert(m.group[k - group_prefix().len() - 1] == '\n');
                }
            }
            if m.group.len() > 0 {
                lemma_trimmed(m.group);
                assert(gh.last() == m.group.last());
            }
        }
        // The mapping line: plain words joined by spaces.
        let ws = seq![m.ip] + m.domains;
        assert(ws.skip(1) == m.domains);
        assert(l == join(ws, seq![' ']));
        let ok = |c: char| c != '\n' && !is_ws(c) || c == ' ';
        assert forall|i: int, k: int| 0 <= i < ws.len() && 0 <= k < ws[i].len() implies ok(
            #[trigger] ws[i][k],
        ) by {
            if i == 0 {
                assert(ws[0] == m.ip);
                assert(word_ok(m.ip));
            } else {
                assert(ws[i] == m.domains[i - 1]);
                assert(word_ok(m.domains[i - 1]));
            }
        }
        lemma_join_all(ws, seq![' '], ok);
        assert(line_ok(l)) by {
            if l.contains('\n') {
                let k = choose|k: int| 0 <= k < l.len() && l[k] == '\n';
                assert(ok(l[k]));
            }
            assert(word_ok(m.domains[m.domains.len() - 1]));
            lemma_join_last(ws, seq![' ']);
            assert(ws.last() == m.domains.last());
            assert(ok(l[l.len() - 1]));
        }
        assert forall|i: int| 0 <= i < mapping_lines(ms).len() implies line_ok(#[trigger] mapping_lines(ms)[i]) by {
            if i < a.len() {
                assert(mapping_lines(ms)[i] == a[i]);
            } else if i < a.len() + h.len() {
                assert(mapping_lines(ms)[i] == gh);
            } else {
                assert(mapping_lines(ms)[i] == l);
            }
        }
    }
}

} // verus!
