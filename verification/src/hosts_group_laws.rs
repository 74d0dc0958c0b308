//! What listing the groups of the hosts file gives after a group is saved or deleted.
use crate::hosts::{
    add_line, begin_marker, delete_group_spec, disabled_suffix, disabled_tag, end_marker,
    group_block, group_check, group_lines, group_marker, group_prefix, group_start, group_step,
    group_title, groups_block, groups_parse, render_groups_text, save_group_spec, shown_line,
    trim_end_seq, trim_trailing_empty, written_line, GroupState, GroupView,
};
use crate::hosts_laws::{
    line_ok, lemma_join_first, lemma_lines_join, lemma_read_back_whole, lemma_trim_end_plain,
    lemma_trim_start_plain, lemma_trimmed, outside_line_ok, outside_lines, read_back,
};
use crate::text::{ends_with, is_ws, join, lines, starts_with, trim, trim_end, trim_start};
use vstd::prelude::*;

verus! {

// ---------------------------------------------------------------------------
// Reading group lines on from a state
// ---------------------------------------------------------------------------

/// Reading more lines for groups on from a state (or a refusal).
pub open spec fn group_more(r: Result<GroupState, Seq<char>>, ls: Seq<Seq<char>>) -> Result<GroupState, Seq<char>>
    decreases ls.len(),
{
    if ls.len() == 0 {
        r
    } else {
        match group_more(r, ls.drop_last()) {
            Ok(st) => group_step(st, ls.last()),
            Err(e) => Err(e),
        }
    }
}

/// Reading lines from the start is reading them on from the start state.
pub proof fn lemma_group_lines_more(ls: Seq<Seq<char>>)
    ensures
        group_lines(ls) == group_more(Ok(group_start()), ls),
    decreases ls.len(),
{
    if ls.len() > 0 {
        lemma_group_lines_more(ls.drop_last());
    }
}

/// Reading two runs of lines is reading the first, then the second on from there.
pub proof fn lemma_group_more_concat(r: Result<GroupState, Seq<char>>, a: Seq<Seq<char>>, c: Seq<Seq<char>>)
    ensures
        group_more(r, a + c) == group_more(group_more(r, a), c),
    decreases c.len(),
{
    if c.len() == 0 {
        assert(a + c == a);
    } else {
        lemma_group_more_concat(r, a, c.drop_last());
        assert((a + c).drop_last() == a + c.drop_last());
        assert((a + c).last() == c.last());
    }
}

/// Reading one line on.
pub proof fn lemma_group_more_one(r: Result<GroupState, Seq<char>>, x: Seq<char>)
    ensures
        group_more(r, seq![x]) == (match r {
            Ok(st) => group_step(st, x),
            Err(e) => Err(e),
        }),
{
    assert(seq![x].drop_last() == Seq::<Seq<char>>::empty());
    assert(seq![x].last() == x);
    assert(group_more(r, Seq::<Seq<char>>::empty()) == r);
}

/// Lines outside the block that are no markers are kept in order.
pub proof fn lemma_group_outside(st: GroupState, xs: Seq<Seq<char>>)
    requires
        !st.in_block,
        forall|i: int| 0 <= i < xs.len() ==> outside_line_ok(#[trigger] xs[i]),
    ensures
        group_more(Ok(st), xs) == Ok::<GroupState, Seq<char>>(
            GroupState {
                before: st.before + xs,
                groups: st.groups,
                in_block: false,
                has_current: st.has_current,
            },
        ),
    decreases xs.len(),
{
    if xs.len() == 0 {
        assert(st.before + xs == st.before);
    } else {
        let init = xs.drop_last();
        assert forall|i: int| 0 <= i < init.len() implies outside_line_ok(#[trigger] init[i]) by {
            assert(init[i] == xs[i]);
        }
        lemma_group_outside(st, init);
        assert(outside_line_ok(xs[xs.len() - 1]));
        assert((st.before + init).push(xs.last()) == st.before + xs);
    }
}


// ---------------------------------------------------------------------------
// Groups that read back as written
// ---------------------------------------------------------------------------

/// A line of a group as written reads back as a line of that group: a whole line that,
/// trimmed, is neither a block marker nor a group heading.
pub open spec fn content_line_ok(w: Seq<char>) -> bool {
    &&& line_ok(w)
    &&& trim(w) != begin_marker()
    &&& trim(w) != end_marker()
    &&& !starts_with(trim(w), group_prefix())
}

/// A group that reads back as written: a name in checked form that, for an enabled group,
/// does not end with the disabled mark; content that is its lines joined by line breaks
/// and does not begin with an empty line; and lines that, as written, read back as lines of
/// the group.
pub open spec fn writable_group(g: GroupView) -> bool {
    &&& group_check(g.name) == Ok::<Seq<char>, Seq<char>>(g.name)
    &&& g.enabled ==> !ends_with(g.name, disabled_suffix())
    &&& join(lines(g.content), seq!['\n']) == g.content
    &&& lines(g.content).len() == 0 || lines(g.content)[0].len() > 0
    &&& forall|i: int|
        0 <= i < lines(g.content).len() ==> content_line_ok(
            written_line(g.enabled, #[trigger] lines(g.content)[i]),
        )
}

/// A trimmed text followed by a space trims back to itself.
pub proof fn lemma_trim_space_after(n: Seq<char>)
    requires
        trim(n) == n,
    ensures
        trim(n + seq![' ']) == n,
{
    lemma_trimmed(n);
    let x = n + seq![' '];
    if n.len() > 0 {
        assert(x[0] == n[0]);
        lemma_trim_start_plain(x);
    } else {
        assert(x == seq![' ']);
        assert(x.skip(1) == Seq::<char>::empty());
        assert(trim_start(x) == trim_start(x.skip(1)));
    }
    assert(x.drop_last() == n);
    lemma_trim_end_plain(n);
    if n.len() > 0 {
        assert(trim_start(x) == x);
        assert(trim_end(x) == trim_end(n));
    }
}

/// A space before a trimmed nonempty text trims away.
pub proof fn lemma_trim_space_before(x: Seq<char>)
    requires
        x.len() > 0,
        !is_ws(x[0]),
        !is_ws(x.last()),
    ensures
        trim(seq![' '] + x) == x,
{
    let y = seq![' '] + x;
    assert(y.skip(1) == x);
    assert(trim_start(y) == trim_start(x));
    lemma_trim_start_plain(x);
    lemma_trim_end_plain(x);
}

/// The heading of a writable group reads back as its name and state, and is a whole line
/// that is no block marker.
pub proof fn lemma_group_title(g: GroupView)
    requires
        group_check(g.name) == Ok::<Seq<char>, Seq<char>>(g.name),
        g.enabled ==> !ends_with(g.name, disabled_suffix()),
    ensures
        group_marker(group_title(g)) == Some((g.name, g.enabled)),
        trim(group_title(g)) != begin_marker(),
        trim(group_title(g)) != end_marker(),
        line_ok(group_title(g)),
{
    reveal_strlit("# DomainEgress Group:");
    reveal_strlit(" [disabled]");
    reveal_strlit("[disabled]");
    reveal_strlit("# BEGIN DOMAIN-EGRESS HOSTS");
    reveal_strlit("# END DOMAIN-EGRESS HOSTS");
    let p = group_prefix();
    let d = disabled_suffix();
    let n = g.name;
    let t = group_title(g);
    assert(trim(n) == n);
    lemma_trimmed(n);
    assert(!n.contains('\n') && !n.contains('\r'));
    assert(t[0] == '#');
    lemma_trim_start_plain(t);
    let tl = trim(t);
    let u = if g.enabled {
        seq![' '] + n
    } else {
        seq![' '] + n + seq![' '] + d
    };
    assert(disabled_tag(false) == seq![' '] + d);
    assert(t == p + u);
    if g.enabled && n.len() == 0 {
        assert(t == p.push(' '));
        assert(t.drop_last() == p);
        lemma_trim_end_plain(p);
        assert(tl == p);
        assert(tl.skip(p.len() as int) == Seq::<char>::empty());
        assert(trim(Seq::<char>::empty()) == Seq::<char>::empty());
        assert(trim_end_seq(Seq::<char>::empty(), d) == Seq::<char>::empty());
    } else {
        if g.enabled {
            assert(t.last() == n.last());
        } else {
            assert(t.last() == ']');
        }
        lemma_trim_end_plain(t);
        assert(tl == t);
        assert(tl.skip(p.len() as int) == u);
        if g.enabled {
            lemma_trim_space_before(n);
            assert(trim(u) == n);
            assert(trim_end_seq(n, d) == n);
        } else {
            let w = if n.len() > 0 {
                n + seq![' '] + d
            } else {
                d
            };
            if n.len() > 0 {
                assert(u == seq![' '] + w);
                assert(w[0] == n[0]);
                assert(w.last() == ']');
                lemma_trim_space_before(w);
            } else {
                let x = seq![' '] + d;
                assert(u == seq![' '] + x);
                assert(d[0] == '[');
                assert(d.last() == ']');
                lemma_trim_space_before(d);
                assert(u.skip(1) == x);
                assert(trim_start(u) == trim_start(x));
                assert(x.skip(1) == d);
                assert(trim_start(x) == trim_start(d));
                lemma_trim_start_plain(d);
                lemma_trim_end_plain(d);
            }
            assert(trim(u) == w);
            assert(ends_with(w, d)) by {
                assert(w.skip(w.len() - d.len()) == d);
            }
            let front = if n.len() > 0 {
                n + seq![' ']
            } else {
                Seq::<char>::empty()
            };
            assert(w.take(w.len() - d.len()) == front);
            assert(trim_end_seq(w, d) == trim_end_seq(front, d));
            if n.len() > 0 {
                assert(!ends_with(front, d)) by {
                    if ends_with(front, d) {
                        assert(front.skip(front.len() - d.len()).last() == front.last());
                    }
                }
                lemma_trim_space_after(n);
            } else {
                assert(trim(Seq::<char>::empty()) == Seq::<char>::empty());
            }
        }
    }
    assert(tl.take(p.len() as int) == p);
    assert(starts_with(tl, p));
    let v = trim(tl.skip(p.len() as int));
    if g.enabled {
        assert(v == n);
        assert(!ends_with(v, d));
        assert(trim(trim_end_seq(v, d)) == n);
    } else {
        assert(ends_with(v, d));
        assert(trim(trim_end_seq(v, d)) == n);
    }
    assert(tl[2] == 'D');
    assert(begin_marker()[2] == 'B');
    assert(end_marker()[2] == 'E');
    assert(line_ok(t)) by {
        if t.contains('\n') {
            let k = choose|k: int| 0 <= k < t.len() && t[k] == '\n';
            if k >= p.len() + 1 {
                if g.enabled || k < p.len() + 1 + n.len() {
                    assert(n[k - p.len() - 1] == '\n');
                    assert(n.contains('\n'));
                }
            }
        }
    }
}


// ---------------------------------------------------------------------------
// Reading a group back
// ---------------------------------------------------------------------------

/// The content gathered from `c` and more lines, as reading adds them.
pub open spec fn gather(c: Seq<char>, ls: Seq<Seq<char>>) -> Seq<char>
    decreases ls.len(),
{
    if ls.len() == 0 {
        c
    } else {
        add_line(gather(c, ls.drop_last()), ls.last())
    }
}

/// The lines of a group as written.
pub open spec fn written_lines(enabled: bool, ls: Seq<Seq<char>>) -> Seq<Seq<char>> {
    ls.map_values(|l: Seq<char>| written_line(enabled, l))
}

/// Gathering lines that do not begin with an empty one joins them with line breaks.
pub proof fn lemma_gather_join(ls: Seq<Seq<char>>)
    requires
        ls.len() == 0 || ls[0].len() > 0,
    ensures
        gather(seq![], ls) == join(ls, seq!['\n']),
    decreases ls.len(),
{
    if ls.len() > 0 {
        let init = ls.drop_last();
        if init.len() > 0 {
            assert(init[0] == ls[0]);
        }
        lemma_gather_join(init);
        crate::text::lemma_join_push(init, ls.last(), seq!['\n']);
        assert(init.push(ls.last()) == ls);
        if init.len() > 0 {
            lemma_join_first(init, seq!['\n']);
        }
    }
}

/// A written line of a group shows as the line itself.
pub proof fn lemma_shown_written(enabled: bool, l: Seq<char>)
    ensures
        shown_line(enabled, written_line(enabled, l)) == l,
{
    if !enabled {
        if trim(l).len() == 0 {
            if starts_with(l, seq!['#', ' ']) {
                assert(l[0] == '#');
                lemma_trim_start_plain(l);
                assert(trim_start(l).len() > 0);
                crate::text::lemma_trim_end(trim_start(l));
                assert(trim_end(trim_start(l)).len() > 0) by {
                    if trim_end(trim_start(l)).len() == 0 {
                        assert(is_ws(trim_start(l)[0]));
                    }
                }
            }
        } else {
            let w = seq!['#', ' '] + l;
            assert(starts_with(w, seq!['#', ' '])) by {
                assert(w.take(2) == seq!['#', ' ']);
            }
            assert(w.skip(2) == l);
        }
    }
}

/// Reading the written lines of the current group adds them to its content.
pub proof fn lemma_read_content(st: GroupState, ls: Seq<Seq<char>>)
    requires
        st.in_block,
        st.has_current,
        st.groups.len() > 0,
        forall|i: int|
            0 <= i < ls.len() ==> content_line_ok(written_line(st.groups.last().enabled, #[trigger] ls[i])),
    ensures
        group_more(Ok(st), written_lines(st.groups.last().enabled, ls)) == Ok::<GroupState, Seq<char>>(
            GroupState {
                before: st.before,
                groups: st.groups.drop_last().push(
                    GroupView {
                        name: st.groups.last().name,
                        enabled: st.groups.last().enabled,
                        content: gather(st.groups.last().content, ls),
                    },
                ),
                in_block: true,
                has_current: true,
            },
        ),
    decreases ls.len(),
{
    let g = st.groups.last();
    let e = g.enabled;
    if ls.len() == 0 {
        assert(written_lines(e, ls) == Seq::<Seq<char>>::empty());
        assert(st.groups.drop_last().push(g) == st.groups);
    } else {
        let init = ls.drop_last();
        assert forall|i: int| 0 <= i < init.len() implies content_line_ok(
            written_line(e, #[trigger] init[i]),
        ) by {
            assert(init[i] == ls[i]);
        }
        lemma_read_content(st, init);
        assert(written_lines(e, ls).drop_last() == written_lines(e, init));
        assert(written_lines(e, ls).last() == written_line(e, ls.last()));
        let c = gather(g.content, init);
        let s1 = GroupState {
            before: st.before,
            groups: st.groups.drop_last().push(GroupView { name: g.name, enabled: e, content: c }),
            in_block: true,
            has_current: true,
        };
        let w = written_line(e, ls.last());
        assert(content_line_ok(written_line(e, ls[ls.len() - 1])));
        assert(group_marker(w) is None);
        lemma_shown_written(e, ls.last());
        assert(s1.groups.last() == GroupView { name: g.name, enabled: e, content: c });
        assert(s1.groups.update(s1.groups.len() - 1, GroupView { name: g.name, enabled: e, content: add_line(c, ls.last()) })
            == st.groups.drop_last().push(GroupView { name: g.name, enabled: e, content: gather(g.content, ls) }));
    }
}

/// Reading a writable group's lines inside the block appends the group.
pub proof fn lemma_read_group(st: GroupState, g: GroupView)
    requires
        st.in_block,
        writable_group(g),
    ensures
        group_more(Ok(st), group_block(g)) == Ok::<GroupState, Seq<char>>(
            GroupState { before: st.before, groups: st.groups.push(g), in_block: true, has_current: true },
        ),
{
    let t = group_title(g);
    lemma_group_title(g);
    let ls = lines(g.content);
    let wl = written_lines(g.enabled, ls);
    assert(group_block(g) == seq![t] + wl);
    lemma_group_more_concat(Ok(st), seq![t], wl);
    lemma_group_more_one(Ok(st), t);
    let g0 = GroupView { name: g.name, enabled: g.enabled, content: seq![] };
    let s1 = GroupState { before: st.before, groups: st.groups.push(g0), in_block: true, has_current: true };
    assert(group_step(st, t) == Ok::<GroupState, Seq<char>>(s1));
    assert(s1.groups.last() == g0);
    lemma_read_content(s1, ls);
    lemma_gather_join(ls);
    assert(s1.groups.drop_last() == st.groups);
}

/// Reading writable groups' lines inside the block appends the groups.
pub proof fn lemma_read_groups(st: GroupState, gs: Seq<GroupView>)
    requires
        st.in_block,
        forall|i: int| 0 <= i < gs.len() ==> writable_group(#[trigger] gs[i]),
    ensures
        group_more(Ok(st), groups_block(gs)) == Ok::<GroupState, Seq<char>>(
            GroupState {
                before: st.before,
                groups: st.groups + gs,
                in_block: true,
                has_current: gs.len() > 0 || st.has_current,
            },
        ),
    decreases gs.len(),
{
    if gs.len() == 0 {
        assert(st.groups + gs == st.groups);
        assert(groups_block(gs) == Seq::<Seq<char>>::empty());
    } else {
        let init = gs.drop_last();
        assert forall|i: int| 0 <= i < init.len() implies writable_group(#[trigger] init[i]) by {
            assert(init[i] == gs[i]);
        }
        lemma_read_groups(st, init);
        lemma_group_more_concat(Ok(st), groups_block(init), group_block(gs.last()));
        let s1 = GroupState {
            before: st.before,
            groups: st.groups + init,
            in_block: true,
            has_current: init.len() > 0 || st.has_current,
        };
        assert(writable_group(gs[gs.len() - 1]));
        lemma_read_group(s1, gs.last());
        assert((st.groups + init).push(gs.last()) == st.groups + gs);
    }
}


// ---------------------------------------------------------------------------
// Reading the written file back
// ---------------------------------------------------------------------------

/// Every line written for writable groups is a whole line.
pub proof fn lemma_groups_block_whole(gs: Seq<GroupView>)
    requires
        forall|i: int| 0 <= i < gs.len() ==> writable_group(#[trigger] gs[i]),
    ensures
        forall|i: int| 0 <= i < groups_block(gs).len() ==> line_ok(#[trigger] groups_block(gs)[i]),
    decreases gs.len(),
{
    if gs.len() > 0 {
        let init = gs.drop_last();
        assert forall|i: int| 0 <= i < init.len() implies writable_group(#[trigger] init[i]) by {
            assert(init[i] == gs[i]);
        }
        lemma_groups_block_whole(init);
        let g = gs.last();
        assert(writable_group(gs[gs.len() - 1]));
        lemma_group_title(g);
        let a = groups_block(init);
        let b = group_block(g);
        let ls = lines(g.content);
        assert(groups_block(gs) == a + b);
        assert forall|i: int| 0 <= i < groups_block(gs).len() implies line_ok(
            #[trigger] groups_block(gs)[i],
        ) by {
            if i < a.len() {
                assert(groups_block(gs)[i] == a[i]);
            } else if i == a.len() {
                assert(groups_block(gs)[i] == group_title(g));
            } else {
                let k = i - a.len() - 1;
                assert(groups_block(gs)[i] == written_line(g.enabled, ls[k]));
                assert(content_line_ok(written_line(g.enabled, ls[k])));
            }
        }
    }
}

/// Reading back what was written for groups gives the groups exactly, and the lines kept
/// before the block without their trailing empty ones, each without a final carriage
/// return, plus the one empty line written before the block.
pub proof fn law_render_groups_then_parse(before: Seq<Seq<char>>, gs: Seq<GroupView>)
    requires
        forall|i: int| 0 <= i < before.len() ==> outside_line_ok(#[trigger] before[i]),
        forall|i: int| 0 <= i < gs.len() ==> writable_group(#[trigger] gs[i]),
    ensures
        groups_parse(render_groups_text(before, gs)) == Ok::<(Seq<Seq<char>>, Seq<GroupView>), Seq<char>>(
            (read_back(outside_lines(before)), gs),
        ),
{
    reveal_strlit("# BEGIN DOMAIN-EGRESS HOSTS");
    reveal_strlit("# END DOMAIN-EGRESS HOSTS");
    let outside = outside_lines(before);
    crate::hosts_laws::lemma_outside_lines_ok(before);
    let body = groups_block(gs);
    lemma_groups_block_whole(gs);
    let rest = seq![begin_marker()] + body + seq![end_marker()];
    let x = outside + rest;
    assert(trim_trailing_empty(before) + seq![seq![], begin_marker()] + body + seq![end_marker(), seq![]]
        == x.push(seq![]));
    assert forall|i: int| 0 <= i < rest.len() implies line_ok(#[trigger] rest[i]) by {
        if 0 < i < rest.len() - 1 {
            assert(rest[i] == body[i - 1]);
        }
    }
    assert forall|i: int| 0 <= i < x.len() implies !(#[trigger] x[i]).contains('\n') by {
        if i < outside.len() {
            assert(x[i] == outside[i]);
            assert(outside_line_ok(outside[i]));
        } else {
            assert(x[i] == rest[i - outside.len()]);
            assert(line_ok(rest[i - outside.len()]));
        }
    }
    lemma_lines_join(x);
    lemma_read_back_whole(rest);
    assert(read_back(x) == read_back(outside) + rest);
    let ro = read_back(outside);
    let y = ro + seq![begin_marker()] + body + seq![end_marker()];
    assert(ro + rest == y);
    lemma_group_lines_more(y);
    let r0: Result<GroupState, Seq<char>> = Ok(group_start());
    lemma_group_more_concat(r0, ro + seq![begin_marker()] + body, seq![end_marker()]);
    lemma_group_more_concat(r0, ro + seq![begin_marker()], body);
    lemma_group_more_concat(r0, ro, seq![begin_marker()]);
    lemma_group_outside(group_start(), ro);
    let s1 = GroupState { before: ro, groups: seq![], in_block: false, has_current: false };
    assert(group_start().before + ro == ro);
    lemma_trim_start_plain(begin_marker());
    lemma_trim_end_plain(begin_marker());
    let s2 = GroupState { before: ro, groups: seq![], in_block: true, has_current: false };
    lemma_group_more_one(Ok(s1), begin_marker());
    lemma_read_groups(s2, gs);
    let s3 = GroupState { before: ro, groups: gs, in_block: true, has_current: gs.len() > 0 };
    assert(Seq::<GroupView>::empty() + gs == gs);
    lemma_trim_start_plain(end_marker());
    lemma_trim_end_plain(end_marker());
    assert(end_marker()[2] != begin_marker()[2]);
    lemma_group_more_one(Ok(s3), end_marker());
}

/// Reading whole lines for groups keeps the lines outside the block writable.
pub proof fn lemma_group_lines_outside(ls: Seq<Seq<char>>)
    requires
        forall|i: int| 0 <= i < ls.len() ==> !(#[trigger] ls[i]).contains('\n'),
        group_lines(ls) is Ok,
    ensures
        forall|i: int|
            0 <= i < group_lines(ls)->Ok_0.before.len() ==> outside_line_ok(
                #[trigger] group_lines(ls)->Ok_0.before[i],
            ),
    decreases ls.len(),
{
    if ls.len() > 0 {
        let init = ls.drop_last();
        assert forall|i: int| 0 <= i < init.len() implies !(#[trigger] init[i]).contains('\n') by {
            assert(init[i] == ls[i]);
        }
        assert(group_lines(init) is Ok);
        lemma_group_lines_outside(init);
        let st = group_lines(init)->Ok_0;
        let nx = group_lines(ls)->Ok_0;
        assert(!ls[ls.len() - 1].contains('\n'));
        assert forall|i: int| 0 <= i < nx.before.len() implies outside_line_ok(#[trigger] nx.before[i]) by {
            if i < st.before.len() {
                if nx.before.len() > st.before.len() {
                    assert(nx.before == st.before.push(ls.last()));
                }
                assert(nx.before[i] == st.before[i]);
            } else {
                assert(nx.before == st.before.push(ls.last()));
            }
        }
    }
}

/// Listing the groups of the file that saving a group wrote gives the groups that saving
/// returned, when every one of them reads back as written; the lines outside the block
/// read back as they were kept.
pub proof fn law_save_group_then_list(hosts: Seq<char>, name: Seq<char>, content: Seq<char>, enabled: bool)
    requires
        save_group_spec(hosts, name, content, enabled) is Ok,
        forall|i: int|
            0 <= i < save_group_spec(hosts, name, content, enabled)->Ok_0.0.len() ==> writable_group(
                #[trigger] save_group_spec(hosts, name, content, enabled)->Ok_0.0[i],
            ),
    ensures
        groups_parse(save_group_spec(hosts, name, content, enabled)->Ok_0.1) == Ok::<
            (Seq<Seq<char>>, Seq<GroupView>),
            Seq<char>,
        >(
            (
                read_back(outside_lines(groups_parse(hosts)->Ok_0.0)),
                save_group_spec(hosts, name, content, enabled)->Ok_0.0,
            ),
        ),
{
    crate::hosts_edit_laws::lemma_lines_whole(hosts);
    lemma_group_lines_outside(lines(hosts));
    law_render_groups_then_parse(
        groups_parse(hosts)->Ok_0.0,
        save_group_spec(hosts, name, content, enabled)->Ok_0.0,
    );
}

/// Listing the groups of the file that deleting a group wrote gives the groups that
/// deleting returned, when every one of them reads back as written; the lines outside the
/// block read back as they were kept.
pub proof fn law_delete_group_then_list(hosts: Seq<char>, name: Seq<char>)
    requires
        delete_group_spec(hosts, name) is Ok,
        forall|i: int|
            0 <= i < delete_group_spec(hosts, name)->Ok_0.0.len() ==> writable_group(
                #[trigger] delete_group_spec(hosts, name)->Ok_0.0[i],
            ),
    ensures
        groups_parse(delete_group_spec(hosts, name)->Ok_0.1) == Ok::<
            (Seq<Seq<char>>, Seq<GroupView>),
            Seq<char>,
        >((read_back(outside_lines(groups_parse(hosts)->Ok_0.0)), delete_group_spec(hosts, name)->Ok_0.0)),
{
    crate::hosts_edit_laws::lemma_lines_whole(hosts);
    lemma_group_lines_outside(lines(hosts));
    law_render_groups_then_parse(groups_parse(hosts)->Ok_0.0, delete_group_spec(hosts, name)->Ok_0.0);
}

// ---------------------------------------------------------------------------
// Plain group content
// ---------------------------------------------------------------------------

/// The lines of a text without carriage returns and without a final line break join back
/// into the text; none of them holds a line break or a carriage return, and the first one
/// is empty only when the text begins with a line break.
pub proof fn lemma_plain_lines(c: Seq<char>)
    requires
        !c.contains('\r'),
        c.len() == 0 || c.last() != '\n',
    ensures
        join(lines(c), seq!['\n']) == c,
        c.len() > 0 ==> lines(c).len() > 0,
        c.len() > 0 && c[0] != '\n' ==> lines(c)[0].len() > 0,
        forall|i: int, k: int|
            0 <= i < lines(c).len() && 0 <= k < lines(c)[i].len() ==> #[trigger] lines(c)[i][k] != '\n'
                && lines(c)[i][k] != '\r',
    decreases c.len(),
{
    if c.len() > 0 {
        crate::text::lemma_find_char(c, '\n');
        let i = crate::text::find_char(c, '\n');
        if i < 0 {
            assert(lines(c) == seq![c]);
            assert forall|k: int| 0 <= k < c.len() implies c[k] != '\r' by {
                if c[k] == '\r' {
                    assert(c.contains('\r'));
                }
            }
        } else {
            let piece = c.take(i);
            let rest = c.skip(i + 1);
            assert(i < c.len() - 1);
            assert(rest.last() == c.last());
            assert(!rest.contains('\r')) by {
                if rest.contains('\r') {
                    let k = choose|k: int| 0 <= k < rest.len() && rest[k] == '\r';
                    assert(c[i + 1 + k] == '\r');
                    assert(c.contains('\r'));
                }
            }
            assert forall|k: int| 0 <= k < piece.len() implies piece[k] != '\r' && piece[k] != '\n' by {
                assert(piece[k] == c[k]);
                if c[k] == '\r' {
                    assert(c.contains('\r'));
                }
            }
            assert(crate::text::line_body(piece, true) == piece);
            lemma_plain_lines(rest);
            let ls = lines(c);
            assert(ls == seq![piece] + lines(rest));
            assert(ls.skip(1) == lines(rest));
            assert(ls[0] == piece);
            assert(join(ls, seq!['\n']) == piece + seq!['\n'] + join(lines(rest), seq!['\n']));
            assert(piece + seq!['\n'] + rest == c);
            assert forall|j: int, k: int|
                0 <= j < ls.len() && 0 <= k < ls[j].len() implies #[trigger] ls[j][k] != '\n'
                    && ls[j][k] != '\r' by {
                if j > 0 {
                    assert(ls[j] == lines(rest)[j - 1]);
                }
            }
        }
    }
}

/// A line of a group, as written, that is no block marker and no group heading once
/// trimmed.
pub open spec fn marker_free(w: Seq<char>) -> bool {
    &&& trim(w) != begin_marker()
    &&& trim(w) != end_marker()
    &&& !starts_with(trim(w), group_prefix())
}

/// A group whose content is plain text: a name in checked form that, for an enabled group,
/// does not end with the disabled mark; content without carriage returns that neither
/// begins nor ends with a line break; and lines that, as written, are no block marker and
/// no group heading.
pub open spec fn plain_group(g: GroupView) -> bool {
    &&& group_check(g.name) == Ok::<Seq<char>, Seq<char>>(g.name)
    &&& g.enabled ==> !ends_with(g.name, disabled_suffix())
    &&& !g.content.contains('\r')
    &&& g.content.len() == 0 || (g.content[0] != '\n' && g.content.last() != '\n')
    &&& forall|i: int|
        0 <= i < lines(g.content).len() ==> marker_free(
            written_line(g.enabled, #[trigger] lines(g.content)[i]),
        )
}

/// A group with plain content reads back as written.
pub proof fn lemma_plain_group_writable(g: GroupView)
    requires
        plain_group(g),
    ensures
        writable_group(g),
{
    lemma_plain_lines(g.content);
    let ls = lines(g.content);
    assert forall|i: int| 0 <= i < ls.len() implies content_line_ok(
        written_line(g.enabled, #[trigger] ls[i]),
    ) by {
        let l = ls[i];
        let w = written_line(g.enabled, l);
        assert(marker_free(w));
        assert(forall|k: int| 0 <= k < l.len() ==> l[k] != '\n' && l[k] != '\r') by {
            assert forall|k: int| 0 <= k < l.len() implies l[k] != '\n' && l[k] != '\r' by {
                assert(ls[i][k] == l[k]);
            }
        }
        if w == l {
            assert(!l.contains('\n'));
            if l.len() > 0 {
                assert(l.last() == l[l.len() - 1]);
            }
        } else {
            assert(w == seq!['#', ' '] + l);
            assert(!w.contains('\n')) by {
                if w.contains('\n') {
                    let k = choose|k: int| 0 <= k < w.len() && w[k] == '\n';
                    assert(k >= 2);
                    assert(w[k] == l[k - 2]);
                }
            }
            if l.len() > 0 {
                assert(w.last() == l[l.len() - 1]);
            } else {
                assert(w.last() == ' ');
            }
        }
    }
}

/// Reading back what was written for groups with plain content gives the groups exactly,
/// and the lines kept before the block without their trailing empty ones, each without a
/// final carriage return, plus the one empty line written before the block; when no kept
/// line ends in a carriage return, the kept lines themselves.
pub proof fn law_render_plain_groups_then_parse(before: Seq<Seq<char>>, gs: Seq<GroupView>)
    requires
        forall|i: int| 0 <= i < before.len() ==> outside_line_ok(#[trigger] before[i]),
        forall|i: int| 0 <= i < gs.len() ==> plain_group(#[trigger] gs[i]),
    ensures
        groups_parse(render_groups_text(before, gs)) == Ok::<(Seq<Seq<char>>, Seq<GroupView>), Seq<char>>(
            (read_back(outside_lines(before)), gs),
        ),
        (forall|i: int| 0 <= i < before.len() ==> crate::hosts_laws::kept_line_ok(#[trigger] before[i]))
            ==> groups_parse(render_groups_text(before, gs)) == Ok::<
            (Seq<Seq<char>>, Seq<GroupView>),
            Seq<char>,
        >((trim_trailing_empty(before).push(seq![]), gs)),
{
    assert forall|i: int| 0 <= i < gs.len() implies writable_group(#[trigger] gs[i]) by {
        lemma_plain_group_writable(gs[i]);
    }
    law_render_groups_then_parse(before, gs);
    if forall|i: int| 0 <= i < before.len() ==> crate::hosts_laws::kept_line_ok(#[trigger] before[i]) {
        crate::hosts_laws::lemma_kept_read_back(before);
    }
}

} // verus!
