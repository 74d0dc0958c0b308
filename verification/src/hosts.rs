//! The DomainEgress block of `/etc/hosts`: reading its host mappings and groups, and
//! writing them back while keeping every line outside the block.
//!
//! Reading the file and writing it with administrator rights happen outside the library;
//! the functions here take the current file text and give back the new one.
use crate::calls::{from_utf8_lossy, utf8_lossy};
use crate::ip::{ip_parse, ip_text, ip_text_string, parse_ip_chars};
use crate::text::{
    ascii_lower, ascii_lower_chars, chars_of, ends_with, join, join_chars, lines, lines_of, owned,
    push_all, push_str, push_view, slice_of, split_char, split_of, starts_with, starts_with_chars,
    string_of, strs, trim, trim_chars, trim_end_char, trim_end_char_chars, views, words, words_of,
};
use vstd::prelude::*;

verus! {

/// One line of the managed block: an IP address and the domains that resolve to it.
#[derive(Clone, Debug)]
pub struct HostMapping {
    pub ip: String,
    pub domains: Vec<String>,
    pub group: String,
}

/// A group of the managed block: a name, whether its lines are active, and its lines.
#[derive(Clone, Debug)]
pub struct HostGroup {
    pub name: String,
    pub enabled: bool,
    pub content: String,
}

/// A host mapping as plain values.
pub struct MappingView {
    pub ip: Seq<char>,
    pub domains: Seq<Seq<char>>,
    pub group: Seq<char>,
}

/// A host group as plain values.
pub struct GroupView {
    pub name: Seq<char>,
    pub enabled: bool,
    pub content: Seq<char>,
}

impl View for HostMapping {
    type V = MappingView;

    open spec fn view(&self) -> MappingView {
        MappingView { ip: self.ip@, domains: strs(self.domains@), group: self.group@ }
    }
}

impl View for HostGroup {
    type V = GroupView;

    open spec fn view(&self) -> GroupView {
        GroupView { name: self.name@, enabled: self.enabled, content: self.content@ }
    }
}

/// The plain values of a list of mappings.
pub open spec fn mapping_views(ms: Seq<HostMapping>) -> Seq<MappingView> {
    ms.map_values(|m: HostMapping| m@)
}

/// The plain values of a list of groups.
pub open spec fn group_views(gs: Seq<HostGroup>) -> Seq<GroupView> {
    gs.map_values(|g: HostGroup| g@)
}

// ---------------------------------------------------------------------------
// Markers and messages
// ---------------------------------------------------------------------------

/// The line that opens the managed block.
pub open spec fn begin_marker() -> Seq<char> {
    "# BEGIN DOMAIN-EGRESS HOSTS"@
}

/// The line that closes the managed block.
pub open spec fn end_marker() -> Seq<char> {
    "# END DOMAIN-EGRESS HOSTS"@
}

/// The prefix of a group heading inside the block.
pub open spec fn group_prefix() -> Seq<char> {
    "# DomainEgress Group:"@
}

/// The suffix that marks a disabled group.
pub open spec fn disabled_suffix() -> Seq<char> {
    "[disabled]"@
}

/// Refusal of a group name that is too long or holds a line break or `#`.
pub open spec fn msg_bad_group() -> Seq<char> {
    "分组名称不能超过 80 个字符，且不能包含换行或 #"@
}

/// Refusal of an invalid domain, naming it.
pub open spec fn msg_bad_domain(value: Seq<char>) -> Seq<char> {
    "无效域名："@ + value
}

/// Refusal of a block that is opened and never closed.
pub open spec fn msg_unclosed() -> Seq<char> {
    "/etc/hosts 的 DomainEgress 区块未闭合"@
}

// ---------------------------------------------------------------------------
// Names and domains
// ---------------------------------------------------------------------------

/// `validate_group`: the trimmed name, unless it is longer than 80 bytes (UTF-8) or holds `'\r'`,
/// `'\n'` or `'#'`.
pub open spec fn group_check(value: Seq<char>) -> Result<Seq<char>, Seq<char>> {
    let g = trim(value);
    if crate::text::utf8_len(g) > 80 || g.contains('\r') || g.contains('\n') || g.contains('#') {
        Err(msg_bad_group())
    } else {
        Ok(g)
    }
}

/// A valid label of a domain name: 1 to 63 ASCII letters, digits and hyphens, not
/// beginning or ending with a hyphen.
pub open spec fn valid_label(p: Seq<char>) -> bool {
    &&& 0 < p.len() <= 63
    &&& p[0] != '-'
    &&& p.last() != '-'
    &&& forall|i: int|
        0 <= i < p.len() ==> crate::text::is_ascii_alnum(#[trigger] p[i]) || p[i] == '-'
}

/// `validate_domain`: the domain trimmed, without trailing dots and in ASCII lower case;
/// refused when it is empty, longer than 253 characters, `localhost`, or has an invalid label.
pub open spec fn domain_check(value: Seq<char>) -> Result<Seq<char>, Seq<char>> {
    let d = ascii_lower(trim_end_char(trim(value), '.'));
    if d.len() == 0 || d.len() > 253 || d == "localhost"@ || !(forall|i: int|
        0 <= i < split_char(d, '.').len() ==> valid_label(#[trigger] split_char(d, '.')[i])) {
        Err(msg_bad_domain(value))
    } else {
        Ok(d)
    }
}

/// Checks a group name.
pub fn validate_group(value: &str) -> (res: Result<String, String>)
    ensures
        match res {
            Ok(g) => group_check(value@) == Ok::<Seq<char>, Seq<char>>(g@),
            Err(e) => group_check(value@) == Err::<Seq<char>, Seq<char>>(e@),
        },
{
    let g = crate::text::trim_str(value);
    let s = string_of(g.as_slice());
    if crate::text::utf8_len_exceeds(g.as_slice(), 80) || crate::text::contains_char(g.as_slice(), '\r')
        || crate::text::contains_char(g.as_slice(), '\n') || crate::text::contains_char(
        g.as_slice(),
        '#',
    ) {
        return Err(owned("分组名称不能超过 80 个字符，且不能包含换行或 #"));
    }
    Ok(s)
}

/// Whether every character of a label is valid and its ends are not hyphens.
pub fn label_ok(p: &[char]) -> (res: bool)
    ensures
        res == valid_label(p@),
{
    if p.len() == 0 || p.len() > 63 || p[0] == '-' || p[p.len() - 1] == '-' {
        return false;
    }
    let mut i: usize = 0;
    while i < p.len()
        invariant
            i <= p.len(),
            forall|j: int|
                0 <= j < i ==> crate::text::is_ascii_alnum(#[trigger] p@[j]) || p@[j] == '-',
        decreases p.len() - i,
    {
        let c = p[i];
        if !(('0' <= c && c <= '9') || ('a' <= c && c <= 'z') || ('A' <= c && c <= 'Z') || c
            == '-') {
            return false;
        }
        i += 1;
    }
    true
}

/// Whether every dot-separated label of `d` is valid.
pub fn labels_ok(d: &[char]) -> (res: bool)
    ensures
        res == (forall|j: int|
            0 <= j < split_char(d@, '.').len() ==> valid_label(#[trigger] split_char(d@, '.')[j])),
{
    let parts = split_of(d, '.');
    let ghost pv = views(parts@);
    let mut i: usize = 0;
    while i < parts.len()
        invariant
            i <= parts.len(),
            pv == views(parts@),
            pv == split_char(d@, '.'),
            forall|j: int| 0 <= j < i ==> valid_label(#[trigger] pv[j]),
        decreases parts.len() - i,
    {
        assert(pv[i as int] == parts@[i as int]@);
        if !label_ok(parts[i].as_slice()) {
            return false;
        }
        i += 1;
    }
    true
}

/// Checks and normalizes a domain name.
pub fn validate_domain(value: &str) -> (res: Result<String, String>)
    ensures
        match res {
            Ok(d) => domain_check(value@) == Ok::<Seq<char>, Seq<char>>(d@),
            Err(e) => domain_check(value@) == Err::<Seq<char>, Seq<char>>(e@),
        },
{
    let t = crate::text::trim_str(value);
    let u = trim_end_char_chars(t.as_slice(), '.');
    let d = ascii_lower_chars(u.as_slice());
    let localhost: Vec<char> = chars_of("localhost");
    let mut bad = d.len() == 0 || d.len() > 253 || crate::text::chars_eq(
        d.as_slice(),
        localhost.as_slice(),
    );
    if !bad {
        bad = !labels_ok(d.as_slice());
    }
    if bad {
        let mut e = chars_of("无效域名：");
        push_str(&mut e, value);
        return Err(string_of(e.as_slice()));
    }
    Ok(string_of(d.as_slice()))
}


// ---------------------------------------------------------------------------
// Reading host mappings
// ---------------------------------------------------------------------------

/// Refusal of a second opening marker.
pub open spec fn msg_dup_begin() -> Seq<char> {
    "/etc/hosts 存在重复的 DomainEgress 区块"@
}

/// Refusal of a closing marker outside the block.
pub open spec fn msg_bad_end() -> Seq<char> {
    "/etc/hosts 的 DomainEgress 结束标记不匹配"@
}

/// Refusal of a mapping line whose first word is no IP address, naming it.
pub open spec fn msg_bad_ip(ip: Seq<char>) -> Seq<char> {
    "hosts 区块中的 IP 无效："@ + ip
}

/// Where the reading of the file stands after some of its lines.
pub struct ParseState {
    pub before: Seq<Seq<char>>,
    pub managed: Seq<MappingView>,
    pub in_block: bool,
    pub group: Seq<char>,
}

/// Every domain checked, in order; the first refusal wins.
pub open spec fn check_domains(ds: Seq<Seq<char>>) -> Result<Seq<Seq<char>>, Seq<char>>
    decreases ds.len(),
{
    if ds.len() == 0 {
        Ok(seq![])
    } else {
        match check_domains(ds.drop_last()) {
            Err(e) => Err(e),
            Ok(r) => match domain_check(ds.last()) {
                Ok(d) => Ok(r.push(d)),
                Err(e) => Err(e),
            },
        }
    }
}

/// The text of a line before its first `'#'`.
pub open spec fn before_comment(line: Seq<char>) -> Seq<char> {
    split_char(line, '#')[0]
}

/// One line read: markers open and close the block; outside it a line is kept as is;
/// inside it a group heading sets the current group, and `ip domain...` (comments
/// dropped) adds a mapping when it names at least one domain.
pub open spec fn parse_step(st: ParseState, line: Seq<char>) -> Result<ParseState, Seq<char>> {
    let tl = trim(line);
    if tl == begin_marker() {
        if st.in_block {
            Err(msg_dup_begin())
        } else {
            Ok(ParseState { before: st.before, managed: st.managed, in_block: true, group: st.group })
        }
    } else if tl == end_marker() {
        if !st.in_block {
            Err(msg_bad_end())
        } else {
            Ok(ParseState { before: st.before, managed: st.managed, in_block: false, group: st.group })
        }
    } else if st.in_block {
        if starts_with(tl, group_prefix()) {
            match group_check(tl.skip(group_prefix().len() as int)) {
                Ok(g) => Ok(ParseState { before: st.before, managed: st.managed, in_block: true, group: g }),
                Err(e) => Err(e),
            }
        } else {
            let ws = words(before_comment(line));
            if ws.len() == 0 {
                Ok(st)
            } else if ip_parse(ws[0]) is None {
                Err(msg_bad_ip(ws[0]))
            } else {
                match check_domains(ws.skip(1)) {
                    Err(e) => Err(e),
                    Ok(ds) => if ds.len() == 0 {
                        Ok(st)
                    } else {
                        Ok(
                            ParseState {
                                before: st.before,
                                managed: st.managed.push(
                                    MappingView { ip: ws[0], domains: ds, group: st.group },
                                ),
                                in_block: true,
                                group: st.group,
                            },
                        )
                    },
                }
            }
        }
    } else {
        Ok(ParseState { before: st.before.push(line), managed: st.managed, in_block: false, group: st.group })
    }
}

/// The state before any line.
pub open spec fn parse_start() -> ParseState {
    ParseState { before: seq![], managed: seq![], in_block: false, group: seq![] }
}

/// The state after the given lines, or the first refusal.
pub open spec fn parse_lines(ls: Seq<Seq<char>>) -> Result<ParseState, Seq<char>>
    decreases ls.len(),
{
    if ls.len() == 0 {
        Ok(parse_start())
    } else {
        match parse_lines(ls.drop_last()) {
            Ok(st) => parse_step(st, ls.last()),
            Err(e) => Err(e),
        }
    }
}

/// `parse`: the lines outside the managed block and the mappings inside it; refused when
/// the block is opened twice, closed without being open, left open, or holds an invalid
/// group name, IP address or domain.
pub open spec fn hosts_parse(content: Seq<char>) -> Result<(Seq<Seq<char>>, Seq<MappingView>), Seq<char>> {
    match parse_lines(lines(content)) {
        Ok(st) => if st.in_block {
            Err(msg_unclosed())
        } else {
            Ok((st.before, st.managed))
        },
        Err(e) => Err(e),
    }
}

/// A refusal after some lines stays the answer for all lines.
pub proof fn lemma_parse_lines_err(ls: Seq<Seq<char>>, k: int, e: Seq<char>)
    requires
        0 <= k <= ls.len(),
        parse_lines(ls.take(k)) == Err::<ParseState, Seq<char>>(e),
    ensures
        parse_lines(ls) == Err::<ParseState, Seq<char>>(e),
    decreases ls.len() - k,
{
    if k < ls.len() {
        assert(ls.take(k + 1).drop_last() == ls.take(k));
        lemma_parse_lines_err(ls, k + 1, e);
    } else {
        assert(ls.take(k) == ls);
    }
}

/// A refusal among the first domains stays the answer for all of them.
pub proof fn lemma_check_domains_err(ds: Seq<Seq<char>>, k: int, e: Seq<char>)
    requires
        0 <= k <= ds.len(),
        check_domains(ds.take(k)) == Err::<Seq<Seq<char>>, Seq<char>>(e),
    ensures
        check_domains(ds) == Err::<Seq<Seq<char>>, Seq<char>>(e),
    decreases ds.len() - k,
{
    if k < ds.len() {
        assert(ds.take(k + 1).drop_last() == ds.take(k));
        lemma_check_domains_err(ds, k + 1, e);
    } else {
        assert(ds.take(k) == ds);
    }
}

/// Pushes a string onto a list of strings.
pub fn push_string(out: &mut Vec<String>, s: String)
    ensures
        strs(final(out)@) == strs(old(out)@).push(s@),
{
    let ghost v = s@;
    out.push(s);
    assert(strs(out@) == strs(old(out)@).push(v));
}

/// Checks each of the given domains, in order.
pub fn validate_domains(ds: &Vec<Vec<char>>, from: usize) -> (res: Result<Vec<String>, String>)
    requires
        from <= ds.len(),
    ensures
        match res {
            Ok(v) => check_domains(views(ds@).skip(from as int)) == Ok::<Seq<Seq<char>>, Seq<char>>(strs(v@)),
            Err(e) => check_domains(views(ds@).skip(from as int)) == Err::<Seq<Seq<char>>, Seq<char>>(e@),
        },
{
    let ghost all = views(ds@).skip(from as int);
    let mut out: Vec<String> = Vec::new();
    let mut i = from;
    assert(all.take(0) == Seq::<Seq<char>>::empty());
    assert(strs(out@) == Seq::<Seq<char>>::empty());
    while i < ds.len()
        invariant
            from <= i <= ds.len(),
            all == views(ds@).skip(from as int),
            check_domains(all.take(i - from)) == Ok::<Seq<Seq<char>>, Seq<char>>(strs(out@)),
        decreases ds.len() - i,
    {
        let s = string_of(ds[i].as_slice());
        assert(all.take(i - from + 1).drop_last() == all.take(i - from));
        assert(all.take(i - from + 1).last() == ds@[i as int]@);
        match validate_domain(s.as_str()) {
            Ok(d) => {
                push_string(&mut out, d);
            },
            Err(e) => {
                proof {
                    lemma_check_domains_err(all, i - from + 1, e@);
                }
                return Err(e);
            },
        }
        i += 1;
    }
    assert(all.take(ds.len() - from) == all);
    Ok(out)
}

/// Reads the host mappings of the managed block and keeps the other lines.
pub fn parse(content: &str) -> (res: Result<(Vec<String>, Vec<HostMapping>), String>)
    ensures
        match res {
            Ok((b, m)) => hosts_parse(content@) == Ok::<(Seq<Seq<char>>, Seq<MappingView>), Seq<char>>((strs(b@), mapping_views(m@))),
            Err(e) => hosts_parse(content@) == Err::<(Seq<Seq<char>>, Seq<MappingView>), Seq<char>>(e@),
        },
{
    let text = chars_of(content);
    let ls = lines_of(text.as_slice());
    let ghost lv = views(ls@);
    let begin = chars_of("# BEGIN DOMAIN-EGRESS HOSTS");
    let end = chars_of("# END DOMAIN-EGRESS HOSTS");
    let prefix = chars_of("# DomainEgress Group:");
    let mut before: Vec<String> = Vec::new();
    let mut managed: Vec<HostMapping> = Vec::new();
    let mut in_block = false;
    let mut group = String::new();
    let mut i: usize = 0;
    assert(lv.take(0) == Seq::<Seq<char>>::empty());
    assert(strs(before@) == Seq::<Seq<char>>::empty());
    assert(mapping_views(managed@) == Seq::<MappingView>::empty());
    assert(group@ == Seq::<char>::empty());
    while i < ls.len()
        invariant
            i <= ls.len(),
            lv == views(ls@),
            lv == lines(content@),
            begin@ == begin_marker(),
            end@ == end_marker(),
            prefix@ == group_prefix(),
            parse_lines(lv.take(i as int)) == Ok::<ParseState, Seq<char>>(
                ParseState {
                    before: strs(before@),
                    managed: mapping_views(managed@),
                    in_block: in_block,
                    group: group@,
                },
            ),
        decreases ls.len() - i,
    {
        let ghost st = ParseState {
            before: strs(before@),
            managed: mapping_views(managed@),
            in_block: in_block,
            group: group@,
        };
        let line = &ls[i];
        assert(lv.take(i + 1).drop_last() == lv.take(i as int));
        assert(lv.take(i + 1).last() == line@);
        let tl = trim_chars(line.as_slice());
        if crate::text::chars_eq(tl.as_slice(), begin.as_slice()) {
            if in_block {
                proof {
                    lemma_parse_lines_err(lv, i + 1, msg_dup_begin());
                }
                return Err(owned("/etc/hosts 存在重复的 DomainEgress 区块"));
            }
            in_block = true;
        } else if crate::text::chars_eq(tl.as_slice(), end.as_slice()) {
            if !in_block {
                proof {
                    lemma_parse_lines_err(lv, i + 1, msg_bad_end());
                }
                return Err(owned("/etc/hosts 的 DomainEgress 结束标记不匹配"));
            }
            in_block = false;
        } else if in_block {
            if starts_with_chars(tl.as_slice(), prefix.as_slice()) {
                let v = crate::text::sub_string(tl.as_slice(), prefix.len(), tl.len());
                assert(v@ == tl@.skip(group_prefix().len() as int));
                match validate_group(v.as_str()) {
                    Ok(g) => {
                        group = g;
                    },
                    Err(e) => {
                        proof {
                            lemma_parse_lines_err(lv, i + 1, e@);
                        }
                        return Err(e);
                    },
                }
            } else {
                let pieces = split_of(line.as_slice(), '#');
                assert(views(pieces@)[0] == pieces@[0]@);
                let ws = words_of(pieces[0].as_slice());
                assert(views(ws@) == words(before_comment(line@)));
                if ws.len() > 0 {
                    assert(views(ws@)[0] == ws@[0]@);
                    if parse_ip_chars(ws[0].as_slice()).is_none() {
                        let mut e = chars_of("hosts 区块中的 IP 无效：");
                        push_all(&mut e, ws[0].as_slice());
                        proof {
                            lemma_parse_lines_err(lv, i + 1, msg_bad_ip(ws@[0]@));
                        }
                        return Err(string_of(e.as_slice()));
                    }
                    assert(views(ws@).skip(1) == views(ws@).skip(1 as int));
                    match validate_domains(&ws, 1) {
                        Err(e) => {
                            proof {
                                lemma_parse_lines_err(lv, i + 1, e@);
                            }
                            return Err(e);
                        },
                        Ok(ds) => {
                            if ds.len() > 0 {
                                let m = HostMapping {
                                    ip: string_of(ws[0].as_slice()),
                                    domains: ds,
                                    group: group.clone(),
                                };
                                let ghost mv = m@;
                                managed.push(m);
                                assert(mapping_views(managed@) == st.managed.push(mv));
                            }
                        },
                    }
                }
            }
        } else {
            let s = string_of(line.as_slice());
            push_string(&mut before, s);
        }
        i += 1;
    }
    assert(lv.take(ls.len() as int) == lv);
    if in_block {
        return Err(owned("/etc/hosts 的 DomainEgress 区块未闭合"));
    }
    Ok((before, managed))
}

/// Reads the host mappings of the managed block (`hosts::list` on the file's text).
pub fn list(content: &str) -> (res: Result<Vec<HostMapping>, String>)
    ensures
        match res {
            Ok(m) => hosts_parse(content@) matches Ok((_, mv)) && mv == mapping_views(m@),
            Err(e) => hosts_parse(content@) == Err::<(Seq<Seq<char>>, Seq<MappingView>), Seq<char>>(e@),
        },
{
    match parse(content) {
        Ok((_, m)) => Ok(m),
        Err(e) => Err(e),
    }
}

// ---------------------------------------------------------------------------
// Writing host mappings
// ---------------------------------------------------------------------------

/// The lines without the empty lines at their end.
pub open spec fn trim_trailing_empty(ls: Seq<Seq<char>>) -> Seq<Seq<char>>
    decreases ls.len(),
{
    if ls.len() > 0 && ls.last().len() == 0 {
        trim_trailing_empty(ls.drop_last())
    } else {
        ls
    }
}

/// `ip domain domain...`.
pub open spec fn mapping_line(m: MappingView) -> Seq<char> {
    m.ip + seq![' '] + join(m.domains, seq![' '])
}

/// The heading that starts a group in the managed block.
pub open spec fn group_heading(g: Seq<char>) -> Seq<char> {
    group_prefix() + seq![' '] + g
}

/// The group of the last mapping, or the empty group before any.
pub open spec fn last_group(ms: Seq<MappingView>) -> Seq<char> {
    if ms.len() == 0 {
        seq![]
    } else {
        ms.last().group
    }
}

/// The block lines for the mappings: each mapping's line, preceded by a group heading
/// whenever its group differs from the one before (the empty group before the first).
pub open spec fn mapping_lines(ms: Seq<MappingView>) -> Seq<Seq<char>>
    decreases ms.len(),
{
    if ms.len() == 0 {
        seq![]
    } else {
        let m = ms.last();
        mapping_lines(ms.drop_last()) + (if m.group != last_group(ms.drop_last()) {
            seq![group_heading(m.group)]
        } else {
            seq![]
        }) + seq![mapping_line(m)]
    }
}

/// The lines of the whole file: the kept lines without trailing empty ones, an empty line,
/// the block, and a final line break.
pub open spec fn render_lines(before: Seq<Seq<char>>, ms: Seq<MappingView>) -> Seq<Seq<char>> {
    trim_trailing_empty(before) + seq![seq![], begin_marker()] + mapping_lines(ms) + seq![
        end_marker(),
        seq![],
    ]
}

/// `render`: the file text for the kept lines and the mappings.
pub open spec fn render_text(before: Seq<Seq<char>>, ms: Seq<MappingView>) -> Seq<char> {
    join(render_lines(before, ms), seq!['\n'])
}

/// The lines of a list of strings, without the empty lines at their end.
pub fn kept_lines(before: &[String]) -> (res: Vec<Vec<char>>)
    ensures
        views(res@) == trim_trailing_empty(strs(before@)),
{
    let mut out: Vec<Vec<char>> = Vec::new();
    let mut i: usize = 0;
    while i < before.len()
        invariant
            i <= before.len(),
            views(out@) == strs(before@).take(i as int),
        decreases before.len() - i,
    {
        let l = chars_of(before[i].as_str());
        push_view(&mut out, l);
        i += 1;
        assert(strs(before@).take(i as int) == strs(before@).take(i - 1).push(before@[i - 1]@));
    }
    assert(strs(before@).take(before.len() as int) == strs(before@));
    while out.len() > 0 && out[out.len() - 1].len() == 0
        invariant
            trim_trailing_empty(views(out@)) == trim_trailing_empty(strs(before@)),
        decreases out.len(),
    {
        let ghost prev = views(out@);
        assert(prev.last() == out@[out.len() - 1]@);
        out.pop();
        assert(views(out@) == prev.drop_last());
    }
    assert(out.len() > 0 ==> views(out@).last() == out@[out.len() - 1]@);
    out
}

/// The characters of each string.
pub fn chars_list(v: &[String]) -> (res: Vec<Vec<char>>)
    ensures
        views(res@) == strs(v@),
{
    let mut out: Vec<Vec<char>> = Vec::new();
    let mut i: usize = 0;
    while i < v.len()
        invariant
            i <= v.len(),
            views(out@) == strs(v@).take(i as int),
        decreases v.len() - i,
    {
        let l = chars_of(v[i].as_str());
        push_view(&mut out, l);
        i += 1;
        assert(strs(v@).take(i as int) == strs(v@).take(i - 1).push(v@[i - 1]@));
    }
    assert(strs(v@).take(v.len() as int) == strs(v@));
    out
}

/// The line of one mapping.
pub fn mapping_line_chars(m: &HostMapping) -> (res: Vec<char>)
    ensures
        res@ == mapping_line(m@),
{
    let mut out = chars_of(m.ip.as_str());
    out.push(' ');
    let ds = chars_list(m.domains.as_slice());
    let sep: Vec<char> = vec![' '];
    assert(sep@ == seq![' ']);
    let j = join_chars(&ds, sep.as_slice());
    push_all(&mut out, j.as_slice());
    out
}

/// The heading of a group.
pub fn group_heading_chars(g: &[char]) -> (res: Vec<char>)
    ensures
        res@ == group_heading(g@),
{
    let mut out = chars_of("# DomainEgress Group:");
    out.push(' ');
    push_all(&mut out, g);
    out
}

/// The file text for the kept lines and the mappings.
pub fn render(before: &[String], mappings: &[HostMapping]) -> (res: String)
    ensures
        res@ == render_text(strs(before@), mapping_views(mappings@)),
{
    let mut out = kept_lines(before);
    let ghost head = views(out@);
    push_view(&mut out, Vec::new());
    push_view(&mut out, chars_of("# BEGIN DOMAIN-EGRESS HOSTS"));
    assert(views(out@) == head + seq![Seq::<char>::empty(), begin_marker()]);
    let ghost head2 = views(out@);
    let ghost mv = mapping_views(mappings@);
    let mut current: Vec<char> = Vec::new();
    let mut i: usize = 0;
    assert(mv.take(0) == Seq::<MappingView>::empty());
    while i < mappings.len()
        invariant
            i <= mappings.len(),
            mv == mapping_views(mappings@),
            views(out@) == head2 + mapping_lines(mv.take(i as int)),
            current@ == last_group(mv.take(i as int)),
        decreases mappings.len() - i,
    {
        let m = &mappings[i];
        assert(mv.take(i + 1).drop_last() == mv.take(i as int));
        assert(mv.take(i + 1).last() == m@);
        let g = chars_of(m.group.as_str());
        let ghost before_push = views(out@);
        if !crate::text::chars_eq(g.as_slice(), current.as_slice()) {
            push_view(&mut out, group_heading_chars(g.as_slice()));
        }
        push_view(&mut out, mapping_line_chars(m));
        assert(views(out@) == head2 + mapping_lines(mv.take(i + 1)));
        current = g;
        i += 1;
    }
    assert(mv.take(mappings.len() as int) == mv);
    push_view(&mut out, chars_of("# END DOMAIN-EGRESS HOSTS"));
    push_view(&mut out, Vec::new());
    assert(views(out@) == render_lines(strs(before@), mapping_views(mappings@)));
    let sep: Vec<char> = vec!['\n'];
    assert(sep@ == seq!['\n']);
    let text = join_chars(&out, sep.as_slice());
    string_of(text.as_slice())
}

// ---------------------------------------------------------------------------
// Groups
// ---------------------------------------------------------------------------

/// The name of the group the lines before any heading belong to.
pub open spec fn ungrouped_name() -> Seq<char> {
    "未分组"@
}

/// `s` without any number of trailing copies of `p` (`str::trim_end_matches(p)`).
pub open spec fn trim_end_seq(s: Seq<char>, p: Seq<char>) -> Seq<char>
    decreases s.len(),
{
    if p.len() > 0 && ends_with(s, p) {
        trim_end_seq(s.take(s.len() - p.len()), p)
    } else {
        s
    }
}

/// A group heading: its name and whether the group is enabled (no `[disabled]` at its end).
pub open spec fn group_marker(line: Seq<char>) -> Option<(Seq<char>, bool)> {
    let tl = trim(line);
    if starts_with(tl, group_prefix()) {
        let v = trim(tl.skip(group_prefix().len() as int));
        Some((trim(trim_end_seq(v, disabled_suffix())), !ends_with(v, disabled_suffix())))
    } else {
        None
    }
}

/// Where the reading of groups stands after some of the lines.
pub struct GroupState {
    pub before: Seq<Seq<char>>,
    pub groups: Seq<GroupView>,
    pub in_block: bool,
    pub has_current: bool,
}

/// A line of a disabled group as shown: without the `"# "` that disables it.
pub open spec fn shown_line(enabled: bool, line: Seq<char>) -> Seq<char> {
    if !enabled && starts_with(line, seq!['#', ' ']) {
        line.skip(2)
    } else {
        line
    }
}

/// The group's content with one more line.
pub open spec fn add_line(content: Seq<char>, line: Seq<char>) -> Seq<char> {
    if content.len() == 0 {
        line
    } else {
        content + seq!['\n'] + line
    }
}

/// One line read for groups: markers open and close the block; outside it a line is kept;
/// inside it a heading starts a group and any other line joins the current group (an
/// enabled "未分组" group when there is none yet).
pub open spec fn group_step(st: GroupState, line: Seq<char>) -> Result<GroupState, Seq<char>> {
    let tl = trim(line);
    if tl == begin_marker() {
        Ok(GroupState { before: st.before, groups: st.groups, in_block: true, has_current: st.has_current })
    } else if tl == end_marker() {
        Ok(GroupState { before: st.before, groups: st.groups, in_block: false, has_current: false })
    } else if !st.in_block {
        Ok(GroupState { before: st.before.push(line), groups: st.groups, in_block: false, has_current: st.has_current })
    } else {
        match group_marker(line) {
            Some((name, enabled)) => match group_check(name) {
                Ok(n) => Ok(
                    GroupState {
                        before: st.before,
                        groups: st.groups.push(GroupView { name: n, enabled: enabled, content: seq![] }),
                        in_block: true,
                        has_current: true,
                    },
                ),
                Err(e) => Err(e),
            },
            None => {
                let gs = if st.has_current {
                    st.groups
                } else {
                    st.groups.push(GroupView { name: ungrouped_name(), enabled: true, content: seq![] })
                };
                let g = gs.last();
                Ok(
                    GroupState {
                        before: st.before,
                        groups: gs.update(
                            gs.len() - 1,
                            GroupView {
                                name: g.name,
                                enabled: g.enabled,
                                content: add_line(g.content, shown_line(g.enabled, line)),
                            },
                        ),
                        in_block: true,
                        has_current: true,
                    },
                )
            },
        }
    }
}

/// The state before any line.
pub open spec fn group_start() -> GroupState {
    GroupState { before: seq![], groups: seq![], in_block: false, has_current: false }
}

/// The group state after the given lines, or the first refusal.
pub open spec fn group_lines(ls: Seq<Seq<char>>) -> Result<GroupState, Seq<char>>
    decreases ls.len(),
{
    if ls.len() == 0 {
        Ok(group_start())
    } else {
        match group_lines(ls.drop_last()) {
            Ok(st) => group_step(st, ls.last()),
            Err(e) => Err(e),
        }
    }
}

/// `parse_groups`: the lines outside the managed block and its groups; refused when the
/// block is left open or a group name is invalid.
pub open spec fn groups_parse(content: Seq<char>) -> Result<(Seq<Seq<char>>, Seq<GroupView>), Seq<char>> {
    match group_lines(lines(content)) {
        Ok(st) => if st.in_block {
            Err(msg_unclosed())
        } else {
            Ok((st.before, st.groups))
        },
        Err(e) => Err(e),
    }
}

/// A refusal after some lines stays the answer for all lines.
pub proof fn lemma_group_lines_err(ls: Seq<Seq<char>>, k: int, e: Seq<char>)
    requires
        0 <= k <= ls.len(),
        group_lines(ls.take(k)) == Err::<GroupState, Seq<char>>(e),
    ensures
        group_lines(ls) == Err::<GroupState, Seq<char>>(e),
    decreases ls.len() - k,
{
    if k < ls.len() {
        assert(ls.take(k + 1).drop_last() == ls.take(k));
        lemma_group_lines_err(ls, k + 1, e);
    } else {
        assert(ls.take(k) == ls);
    }
}

/// `s` without trailing copies of `p`.
pub fn trim_end_seq_chars(s: &[char], p: &[char]) -> (res: Vec<char>)
    ensures
        res@ == trim_end_seq(s@, p@),
{
    let mut cur = slice_of(s, 0, s.len());
    assert(cur@ == s@);
    if p.len() == 0 {
        return cur;
    }
    while crate::text::ends_with_chars(cur.as_slice(), p)
        invariant
            p@.len() > 0,
            trim_end_seq(s@, p@) == trim_end_seq(cur@, p@),
        decreases cur@.len(),
    {
        let next = slice_of(cur.as_slice(), 0, cur.len() - p.len());
        assert(next@ == cur@.take(cur@.len() - p@.len()));
        cur = next;
    }
    cur
}

/// Reads a group heading.
pub fn group_marker_of(line: &[char]) -> (res: Option<(Vec<char>, bool)>)
    ensures
        match res {
            Some((n, e)) => group_marker(line@) == Some((n@, e)),
            None => group_marker(line@) is None,
        },
{
    let tl = trim_chars(line);
    let prefix = chars_of("# DomainEgress Group:");
    if !starts_with_chars(tl.as_slice(), prefix.as_slice()) {
        return None;
    }
    let rest = slice_of(tl.as_slice(), prefix.len(), tl.len());
    assert(rest@ == tl@.skip(group_prefix().len() as int));
    let v = trim_chars(rest.as_slice());
    let suffix = chars_of("[disabled]");
    let enabled = !crate::text::ends_with_chars(v.as_slice(), suffix.as_slice());
    let stripped = trim_end_seq_chars(v.as_slice(), suffix.as_slice());
    let name = trim_chars(stripped.as_slice());
    Some((name, enabled))
}

/// Pushes a group onto a list of groups.
pub fn push_group(out: &mut Vec<HostGroup>, g: HostGroup)
    ensures
        group_views(final(out)@) == group_views(old(out)@).push(g@),
        final(out)@.len() == old(out)@.len() + 1,
{
    let ghost v = g@;
    out.push(g);
    assert(group_views(out@) == group_views(old(out)@).push(v));
}

/// Reads the groups of the managed block and keeps the other lines.
pub fn parse_groups(content: &str) -> (res: Result<(Vec<String>, Vec<HostGroup>), String>)
    ensures
        match res {
            Ok((b, g)) => groups_parse(content@) == Ok::<(Seq<Seq<char>>, Seq<GroupView>), Seq<char>>((strs(b@), group_views(g@))),
            Err(e) => groups_parse(content@) == Err::<(Seq<Seq<char>>, Seq<GroupView>), Seq<char>>(e@),
        },
{
    let text = chars_of(content);
    let ls = lines_of(text.as_slice());
    let ghost lv = views(ls@);
    let begin = chars_of("# BEGIN DOMAIN-EGRESS HOSTS");
    let end = chars_of("# END DOMAIN-EGRESS HOSTS");
    let mut before: Vec<String> = Vec::new();
    let mut groups: Vec<HostGroup> = Vec::new();
    let mut in_block = false;
    let mut has_current = false;
    let mut i: usize = 0;
    assert(lv.take(0) == Seq::<Seq<char>>::empty());
    assert(strs(before@) == Seq::<Seq<char>>::empty());
    assert(group_views(groups@) == Seq::<GroupView>::empty());
    while i < ls.len()
        invariant
            i <= ls.len(),
            lv == views(ls@),
            lv == lines(content@),
            begin@ == begin_marker(),
            end@ == end_marker(),
            has_current ==> groups@.len() > 0,
            group_lines(lv.take(i as int)) == Ok::<GroupState, Seq<char>>(
                GroupState {
                    before: strs(before@),
                    groups: group_views(groups@),
                    in_block: in_block,
                    has_current: has_current,
                },
            ),
        decreases ls.len() - i,
    {
        let line = &ls[i];
        assert(lv.take(i + 1).drop_last() == lv.take(i as int));
        assert(lv.take(i + 1).last() == line@);
        let tl = trim_chars(line.as_slice());
        if crate::text::chars_eq(tl.as_slice(), begin.as_slice()) {
            in_block = true;
        } else if crate::text::chars_eq(tl.as_slice(), end.as_slice()) {
            in_block = false;
            has_current = false;
        } else if !in_block {
            push_string(&mut before, string_of(line.as_slice()));
        } else {
            match group_marker_of(line.as_slice()) {
                Some((name, enabled)) => {
                    let ns = string_of(name.as_slice());
                    match validate_group(ns.as_str()) {
                        Ok(n) => {
                            push_group(&mut groups, HostGroup { name: n, enabled, content: String::new() });
                            has_current = true;
                        },
                        Err(e) => {
                            proof {
                                lemma_group_lines_err(lv, i + 1, e@);
                            }
                            return Err(e);
                        },
                    }
                },
                None => {
                    if !has_current {
                        push_group(
                            &mut groups,
                            HostGroup { name: owned("未分组"), enabled: true, content: String::new() },
                        );
                        has_current = true;
                    }
                    let ghost gs = group_views(groups@);
                    let last = groups.len() - 1;
                    let g = groups.remove(last);
                    assert(gs.last() == g@);
                    let shown = if !g.enabled && line.len() >= 2 && line[0] == '#' && line[1] == ' ' {
                        slice_of(line.as_slice(), 2, line.len())
                    } else {
                        slice_of(line.as_slice(), 0, line.len())
                    };
                    assert(line@.len() >= 2 ==> line@.take(2) == seq![line@[0], line@[1]]);
                    assert(shown@ == shown_line(g.enabled, line@));
                    let mut content = chars_of(g.content.as_str());
                    if content.len() > 0 {
                        content.push('\n');
                    }
                    push_all(&mut content, shown.as_slice());
                    assert(content@ == add_line(g@.content, shown_line(g@.enabled, line@)));
                    let ng = HostGroup { name: g.name, enabled: g.enabled, content: string_of(content.as_slice()) };
                    push_group(&mut groups, ng);
                    assert(group_views(groups@) == gs.update(gs.len() - 1, ng@));
                },
            }
        }
        i += 1;
    }
    assert(lv.take(ls.len() as int) == lv);
    if in_block {
        return Err(owned("/etc/hosts 的 DomainEgress 区块未闭合"));
    }
    Ok((before, groups))
}

/// Reads the groups of the managed block (`hosts::list_groups` on the file's text).
pub fn list_groups(content: &str) -> (res: Result<Vec<HostGroup>, String>)
    ensures
        match res {
            Ok(g) => groups_parse(content@) matches Ok((_, gv)) && gv == group_views(g@),
            Err(e) => groups_parse(content@) == Err::<(Seq<Seq<char>>, Seq<GroupView>), Seq<char>>(e@),
        },
{
    match parse_groups(content) {
        Ok((_, g)) => Ok(g),
        Err(e) => Err(e),
    }
}

/// What a disabled group's heading ends with.
pub open spec fn disabled_tag(enabled: bool) -> Seq<char> {
    if enabled {
        seq![]
    } else {
        " [disabled]"@
    }
}

/// The heading of a group.
pub open spec fn group_title(g: GroupView) -> Seq<char> {
    group_prefix() + seq![' '] + g.name + disabled_tag(g.enabled)
}

/// A line of a group as written: a disabled group's non-blank lines commented out.
pub open spec fn written_line(enabled: bool, l: Seq<char>) -> Seq<char> {
    if enabled || trim(l).len() == 0 {
        l
    } else {
        seq!['#', ' '] + l
    }
}

/// The block lines of one group.
pub open spec fn group_block(g: GroupView) -> Seq<Seq<char>> {
    seq![group_title(g)] + lines(g.content).map_values(|l: Seq<char>| written_line(g.enabled, l))
}

/// The block lines of the groups, in order.
pub open spec fn groups_block(gs: Seq<GroupView>) -> Seq<Seq<char>>
    decreases gs.len(),
{
    if gs.len() == 0 {
        seq![]
    } else {
        groups_block(gs.drop_last()) + group_block(gs.last())
    }
}

/// `render_groups`: the file text for the kept lines and the groups.
pub open spec fn render_groups_text(before: Seq<Seq<char>>, gs: Seq<GroupView>) -> Seq<char> {
    join(
        trim_trailing_empty(before) + seq![seq![], begin_marker()] + groups_block(gs) + seq![
            end_marker(),
            seq![],
        ],
        seq!['\n'],
    )
}

/// The heading line of a group.
pub fn group_title_chars(g: &HostGroup) -> (res: Vec<char>)
    ensures
        res@ == group_title(g@),
{
    let mut out = chars_of("# DomainEgress Group:");
    out.push(' ');
    push_str(&mut out, g.name.as_str());
    if !g.enabled {
        push_str(&mut out, " [disabled]");
    }
    out
}

/// The file text for the kept lines and the groups.
pub fn render_groups(before: &[String], groups: &[HostGroup]) -> (res: String)
    ensures
        res@ == render_groups_text(strs(before@), group_views(groups@)),
{
    let mut out = kept_lines(before);
    let ghost head = views(out@);
    push_view(&mut out, Vec::new());
    push_view(&mut out, chars_of("# BEGIN DOMAIN-EGRESS HOSTS"));
    let ghost head2 = views(out@);
    assert(head2 == head + seq![Seq::<char>::empty(), begin_marker()]);
    let ghost gv = group_views(groups@);
    let mut i: usize = 0;
    assert(gv.take(0) == Seq::<GroupView>::empty());
    while i < groups.len()
        invariant
            i <= groups.len(),
            gv == group_views(groups@),
            views(out@) == head2 + groups_block(gv.take(i as int)),
        decreases groups.len() - i,
    {
        let g = &groups[i];
        assert(gv.take(i + 1).drop_last() == gv.take(i as int));
        assert(gv.take(i + 1).last() == g@);
        let ghost base = views(out@);
        push_view(&mut out, group_title_chars(g));
        let content = chars_of(g.content.as_str());
        let ls = lines_of(content.as_slice());
        let ghost lv = views(ls@);
        let mut j: usize = 0;
        while j < ls.len()
            invariant
                j <= ls.len(),
                lv == views(ls@),
                lv == lines(g@.content),
                views(out@) == base + seq![group_title(g@)] + lv.take(j as int).map_values(
                    |l: Seq<char>| written_line(g@.enabled, l),
                ),
            decreases ls.len() - j,
        {
            let l = &ls[j];
            assert(lv[j as int] == l@);
            let tl = trim_chars(l.as_slice());
            let w = if g.enabled || tl.len() == 0 {
                slice_of(l.as_slice(), 0, l.len())
            } else {
                let mut c: Vec<char> = Vec::new();
                c.push('#');
                c.push(' ');
                push_all(&mut c, l.as_slice());
                assert(c@ == seq!['#', ' '] + l@);
                c
            };
            assert(w@ == written_line(g@.enabled, lv[j as int]));
            let ghost before_w = views(out@);
            push_view(&mut out, w);
            assert(lv.take(j + 1).map_values(|l: Seq<char>| written_line(g@.enabled, l)) =~= lv.take(
                j as int,
            ).map_values(|l: Seq<char>| written_line(g@.enabled, l)).push(
                written_line(g@.enabled, lv[j as int]),
            ));
            j += 1;
        }
        assert(lv.take(ls.len() as int) == lv);
        assert(views(out@) == head2 + groups_block(gv.take(i + 1)));
        i += 1;
    }
    assert(gv.take(groups.len() as int) == gv);
    push_view(&mut out, chars_of("# END DOMAIN-EGRESS HOSTS"));
    push_view(&mut out, Vec::new());
    assert(views(out@) == trim_trailing_empty(strs(before@)) + seq![Seq::<char>::empty(), begin_marker()]
        + groups_block(group_views(groups@)) + seq![end_marker(), Seq::<char>::empty()]);
    let sep: Vec<char> = vec!['\n'];
    assert(sep@ == seq!['\n']);
    let text = join_chars(&out, sep.as_slice());
    string_of(text.as_slice())
}

/// Refusal of an empty group name.
pub open spec fn msg_empty_group() -> Seq<char> {
    "分组名称不能为空"@
}

/// Refusal to delete a group that does not exist.
pub open spec fn msg_no_group() -> Seq<char> {
    "未找到要删除的本地 DNS 分组"@
}

/// The group is named `name`.
pub open spec fn named(name: Seq<char>) -> spec_fn(GroupView) -> bool {
    |g: GroupView| g.name == name
}

/// The groups with the one named `name` given the content and state, or with a new group
/// appended when there is none of that name.
pub open spec fn upsert_group(gs: Seq<GroupView>, name: Seq<char>, content: Seq<char>, enabled: bool) -> Seq<GroupView> {
    let i = crate::text::first_where(gs, named(name));
    if i >= 0 {
        gs.update(i, GroupView { name: gs[i].name, enabled: enabled, content: content })
    } else {
        gs.push(GroupView { name: name, enabled: enabled, content: content })
    }
}

/// `save_group`: the groups after setting one group's content and state, and the new file
/// text; refused for an invalid or empty name or an unreadable block.
pub open spec fn save_group_spec(hosts: Seq<char>, name: Seq<char>, content: Seq<char>, enabled: bool) -> Result<(Seq<GroupView>, Seq<char>), Seq<char>> {
    match group_check(name) {
        Err(e) => Err(e),
        Ok(n) => if n.len() == 0 {
            Err(msg_empty_group())
        } else {
            match groups_parse(hosts) {
                Err(e) => Err(e),
                Ok((b, gs)) => {
                    let gs2 = upsert_group(gs, n, content, enabled);
                    Ok((gs2, render_groups_text(b, gs2)))
                },
            }
        },
    }
}

/// `delete_group`: the groups without those named `name`, and the new file text; refused
/// when no group has that name.
pub open spec fn delete_group_spec(hosts: Seq<char>, name: Seq<char>) -> Result<(Seq<GroupView>, Seq<char>), Seq<char>> {
    match groups_parse(hosts) {
        Err(e) => Err(e),
        Ok((b, gs)) => {
            let gs2 = gs.filter(|g: GroupView| g.name != name);
            if gs2.len() == gs.len() {
                Err(msg_no_group())
            } else {
                Ok((gs2, render_groups_text(b, gs2)))
            }
        },
    }
}

/// Index of the first group named `name`.
pub fn find_group(groups: &[HostGroup], name: &[char]) -> (res: Option<usize>)
    ensures
        match res {
            Some(i) => crate::text::first_where(group_views(groups@), named(name@)) == i as int && i < groups@.len(),
            None => crate::text::first_where(group_views(groups@), named(name@)) == -1,
        },
{
    let ghost gs = group_views(groups@);
    let mut i: usize = 0;
    while i < groups.len()
        invariant
            i <= groups.len(),
            gs == group_views(groups@),
            forall|j: int| 0 <= j < i ==> !(named(name@))(#[trigger] gs[j]),
        decreases groups.len() - i,
    {
        let gn = chars_of(groups[i].name.as_str());
        assert(gs[i as int] == groups@[i as int]@);
        if crate::text::chars_eq(gn.as_slice(), name) {
            proof {
                crate::text::lemma_first_where_at(gs, named(name@), i as int);
            }
            return Some(i);
        }
        i += 1;
    }
    proof {
        crate::text::lemma_first_where_at(gs, named(name@), groups.len() as int);
    }
    None
}

/// Sets one group's content and state (adding the group when it is new); gives the groups
/// and the new text of the hosts file.
pub fn save_group(hosts: &str, name: &str, content: String, enabled: bool) -> (res: Result<(Vec<HostGroup>, String), String>)
    ensures
        match res {
            Ok((g, t)) => save_group_spec(hosts@, name@, content@, enabled) == Ok::<(Seq<GroupView>, Seq<char>), Seq<char>>((group_views(g@), t@)),
            Err(e) => save_group_spec(hosts@, name@, content@, enabled) == Err::<(Seq<GroupView>, Seq<char>), Seq<char>>(e@),
        },
{
    let n = match validate_group(name) {
        Ok(n) => n,
        Err(e) => return Err(e),
    };
    if n.as_str().is_empty() {
        return Err(owned("分组名称不能为空"));
    }
    let (before, mut groups) = match parse_groups(hosts) {
        Ok(x) => x,
        Err(e) => return Err(e),
    };
    let ghost gs = group_views(groups@);
    let nc = chars_of(n.as_str());
    match find_group(groups.as_slice(), nc.as_slice()) {
        Some(i) => {
            let g = groups.remove(i);
            assert(g@ == gs[i as int]);
            let ng = HostGroup { name: g.name, enabled, content };
            let ghost nv = ng@;
            groups.insert(i, ng);
            assert(group_views(groups@) == gs.update(i as int, nv));
        },
        None => {
            push_group(&mut groups, HostGroup { name: n, enabled, content });
        },
    }
    let t = render_groups(before.as_slice(), groups.as_slice());
    Ok((groups, t))
}

/// Removes every group named `name`; gives the remaining groups and the new text of the
/// hosts file.
pub fn delete_group(hosts: &str, name: &str) -> (res: Result<(Vec<HostGroup>, String), String>)
    ensures
        match res {
            Ok((g, t)) => delete_group_spec(hosts@, name@) == Ok::<(Seq<GroupView>, Seq<char>), Seq<char>>((group_views(g@), t@)),
            Err(e) => delete_group_spec(hosts@, name@) == Err::<(Seq<GroupView>, Seq<char>), Seq<char>>(e@),
        },
{
    let (before, mut groups) = match parse_groups(hosts) {
        Ok(x) => x,
        Err(e) => return Err(e),
    };
    let ghost gs = group_views(groups@);
    let ghost keep = |g: GroupView| g.name != name@;
    let nc = chars_of(name);
    let count = groups.len();
    let mut out: Vec<HostGroup> = Vec::new();
    let mut i: usize = 0;
    assert(group_views(out@) == Seq::<GroupView>::empty());
    assert(gs.take(0).filter(keep) == Seq::<GroupView>::empty()) by {
        reveal(Seq::filter);
    }
    while groups.len() > 0
        invariant
            i + groups@.len() == count == gs.len(),
            group_views(groups@) == gs.skip(i as int),
            group_views(out@) == gs.take(i as int).filter(keep),
            nc@ == name@,
            keep == (|g: GroupView| g.name != name@),
        decreases groups.len(),
    {
        let ghost old_view = group_views(groups@);
        assert(old_view[0] == groups@[0]@);
        assert(old_view[0] == gs[i as int]);
        let g = groups.remove(0);
        assert(g@ == gs[i as int]);
        assert(group_views(groups@) =~= old_view.skip(1));
        assert(gs.skip(i as int).skip(1) =~= gs.skip(i + 1));
        let gn = chars_of(g.name.as_str());
        let same = crate::text::chars_eq(gn.as_slice(), nc.as_slice());
        assert(gs.take(i + 1).drop_last() == gs.take(i as int));
        assert(gs.take(i + 1).last() == g@);
        proof {
            reveal(Seq::filter);
        }
        if !same {
            push_group(&mut out, g);
        }
        i += 1;
    }
    assert(gs.take(i as int) == gs);
    if out.len() == count {
        return Err(owned("未找到要删除的本地 DNS 分组"));
    }
    let t = render_groups(before.as_slice(), out.as_slice());
    Ok((out, t))
}


// ---------------------------------------------------------------------------
// Editing host mappings
// ---------------------------------------------------------------------------

/// Refusal of a new IP address that does not parse.
pub open spec fn msg_ip_invalid() -> Seq<char> {
    "IP 地址无效"@
}

/// Refusal of a previous IP address that does not parse.
pub open spec fn msg_old_ip_invalid() -> Seq<char> {
    "原 IP 地址无效"@
}

/// Refusal of no domains or more than 64.
pub open spec fn msg_domain_count() -> Seq<char> {
    "至少需要一个域名，最多支持 64 个域名"@
}

/// Refusal of a domain listed twice.
pub open spec fn msg_dup_domain() -> Seq<char> {
    "域名不能重复"@
}

/// Refusal of a domain another mapping already has.
pub open spec fn msg_domain_used() -> Seq<char> {
    "域名已存在于 DomainEgress hosts 区块"@
}

/// Refusal to change a mapping that does not exist.
pub open spec fn msg_no_mapping_update() -> Seq<char> {
    "未找到要修改的 DomainEgress hosts 映射"@
}

/// Refusal of a domain another mapping already has, when changing a mapping.
pub open spec fn msg_domain_used_other() -> Seq<char> {
    "域名已存在于其他 DomainEgress hosts 映射"@
}

/// Refusal to remove a mapping that does not exist.
pub open spec fn msg_no_mapping_remove() -> Seq<char> {
    "未找到要删除的 DomainEgress hosts 映射"@
}

/// The canonical text of the IP address a text holds once trimmed.
pub open spec fn canonical_ip(ip: Seq<char>) -> Option<Seq<char>> {
    match ip_parse(trim(ip)) {
        Some(a) => Some(ip_text(a)),
        None => None,
    }
}

/// Some domain is listed twice.
pub open spec fn has_duplicate(ds: Seq<Seq<char>>) -> bool {
    exists|i: int, j: int| 0 <= i < j < ds.len() && ds[i] == ds[j]
}

/// Some domain already belongs to a mapping other than the one at `skip`.
pub open spec fn domain_used(ds: Seq<Seq<char>>, ms: Seq<MappingView>, skip: int) -> bool {
    exists|i: int, k: int|
        0 <= i < ds.len() && 0 <= k < ms.len() && k != skip && (#[trigger] ms[k]).domains.contains(
            #[trigger] ds[i],
        )
}

/// `add`: the mappings with a new one appended, and the new file text.
pub open spec fn add_spec(hosts: Seq<char>, ip: Seq<char>, domains: Seq<Seq<char>>, group: Seq<char>) -> Result<(Seq<MappingView>, Seq<char>), Seq<char>> {
    match canonical_ip(ip) {
        None => Err(msg_ip_invalid()),
        Some(ipt) => match check_domains(domains) {
            Err(e) => Err(e),
            Ok(ds) => if ds.len() == 0 || ds.len() > 64 {
                Err(msg_domain_count())
            } else if has_duplicate(ds) {
                Err(msg_dup_domain())
            } else {
                match group_check(group) {
                    Err(e) => Err(e),
                    Ok(g) => match hosts_parse(hosts) {
                        Err(e) => Err(e),
                        Ok((b, ms)) => if domain_used(ds, ms, -1) {
                            Err(msg_domain_used())
                        } else {
                            let ms2 = ms.push(MappingView { ip: ipt, domains: ds, group: g });
                            Ok((ms2, render_text(b, ms2)))
                        },
                    },
                }
            },
        },
    }
}

/// The mapping has the given IP text and domains.
pub open spec fn mapping_is(ip: Seq<char>, ds: Seq<Seq<char>>) -> spec_fn(MappingView) -> bool {
    |m: MappingView| m.ip == ip && m.domains == ds
}

/// `update`: the mappings with the first one matching the previous IP and domains
/// replaced, and the new file text.
pub open spec fn update_spec(
    hosts: Seq<char>,
    old_ip: Seq<char>,
    old_domains: Seq<Seq<char>>,
    ip: Seq<char>,
    domains: Seq<Seq<char>>,
    group: Seq<char>,
) -> Result<(Seq<MappingView>, Seq<char>), Seq<char>> {
    match canonical_ip(old_ip) {
        None => Err(msg_old_ip_invalid()),
        Some(oip) => match canonical_ip(ip) {
            None => Err(msg_ip_invalid()),
            Some(ipt) => match check_domains(domains) {
                Err(e) => Err(e),
                Ok(ds) => if ds.len() == 0 || ds.len() > 64 {
                    Err(msg_domain_count())
                } else if has_duplicate(ds) {
                    Err(msg_dup_domain())
                } else {
                    match group_check(group) {
                        Err(e) => Err(e),
                        Ok(g) => match check_domains(old_domains) {
                            Err(e) => Err(e),
                            Ok(ods) => match hosts_parse(hosts) {
                                Err(e) => Err(e),
                                Ok((b, ms)) => {
                                    let k = crate::text::first_where(ms, mapping_is(oip, ods));
                                    if k < 0 {
                                        Err(msg_no_mapping_update())
                                    } else if domain_used(ds, ms, k) {
                                        Err(msg_domain_used_other())
                                    } else {
                                        let ms2 = ms.update(
                                            k,
                                            MappingView { ip: ipt, domains: ds, group: g },
                                        );
                                        Ok((ms2, render_text(b, ms2)))
                                    }
                                },
                            },
                        },
                    }
                },
            },
        },
    }
}

/// The mapping is kept by `remove`: it has another IP text, or domains other than the
/// given ones when some are given.
pub open spec fn kept_by_remove(ip: Seq<char>, ds: Seq<Seq<char>>) -> spec_fn(MappingView) -> bool {
    |m: MappingView| !(m.ip == ip && (ds.len() == 0 || m.domains == ds))
}

/// `remove`: the mappings without those with the IP text (and the domains, when given),
/// and the new file text; refused when none is removed.
pub open spec fn remove_spec(hosts: Seq<char>, ip: Seq<char>, domains: Seq<Seq<char>>) -> Result<(Seq<MappingView>, Seq<char>), Seq<char>> {
    match hosts_parse(hosts) {
        Err(e) => Err(e),
        Ok((b, ms)) => {
            let ms2 = ms.filter(kept_by_remove(ip, domains));
            if ms2.len() == ms.len() {
                Err(msg_no_mapping_remove())
            } else {
                Ok((ms2, render_text(b, ms2)))
            }
        },
    }
}

/// The canonical text of the IP address in a trimmed text.
pub fn canonical_ip_string(ip: &str) -> (res: Option<String>)
    ensures
        match res {
            Some(s) => canonical_ip(ip@) == Some(s@),
            None => canonical_ip(ip@) is None,
        },
{
    let t = crate::text::trim_str(ip);
    match parse_ip_chars(t.as_slice()) {
        Some(a) => Some(ip_text_string(&a)),
        None => None,
    }
}

/// Checks each domain of a list, in order.
pub fn validate_domain_list(domains: &[String]) -> (res: Result<Vec<String>, String>)
    ensures
        match res {
            Ok(v) => check_domains(strs(domains@)) == Ok::<Seq<Seq<char>>, Seq<char>>(strs(v@)),
            Err(e) => check_domains(strs(domains@)) == Err::<Seq<Seq<char>>, Seq<char>>(e@),
        },
{
    let cs = chars_list(domains);
    assert(views(cs@).skip(0) == strs(domains@));
    validate_domains(&cs, 0)
}

/// The two lists hold the same strings.
pub fn strings_eq(a: &[String], b: &[String]) -> (res: bool)
    ensures
        res == (strs(a@) == strs(b@)),
{
    if a.len() != b.len() {
        assert(strs(a@).len() != strs(b@).len());
        return false;
    }
    let mut i: usize = 0;
    while i < a.len()
        invariant
            i <= a.len() == b.len(),
            forall|j: int| 0 <= j < i ==> strs(a@)[j] == strs(b@)[j],
        decreases a.len() - i,
    {
        if !crate::text::str_eq(a[i].as_str(), b[i].as_str()) {
            assert(strs(a@)[i as int] != strs(b@)[i as int]);
            return false;
        }
        i += 1;
    }
    assert(strs(a@) =~= strs(b@));
    true
}

/// Whether some domain is listed twice.
pub fn has_duplicate_domains(ds: &[String]) -> (res: bool)
    ensures
        res == has_duplicate(strs(ds@)),
{
    let ghost v = strs(ds@);
    let mut i: usize = 0;
    while i < ds.len()
        invariant
            i <= ds.len(),
            v == strs(ds@),
            forall|x: int, y: int| 0 <= x < y < ds.len() && x < i ==> v[x] != v[y],
        decreases ds.len() - i,
    {
        let mut j: usize = i + 1;
        while j < ds.len()
            invariant
                i < j <= ds.len(),
                v == strs(ds@),
                forall|x: int, y: int| 0 <= x < y < ds.len() && x < i ==> v[x] != v[y],
                forall|y: int| i < y < j ==> v[i as int] != v[y],
            decreases ds.len() - j,
        {
            if crate::text::str_eq(ds[i].as_str(), ds[j].as_str()) {
                assert(v[i as int] == v[j as int]);
                return true;
            }
            j += 1;
        }
        i += 1;
    }
    false
}

/// The index a mapping search skips, or -1 for none.
pub open spec fn skip_index(skip: Option<usize>) -> int {
    match skip {
        Some(x) => x as int,
        None => -1,
    }
}

/// Whether some domain already belongs to a mapping other than the one at `skip`.
pub fn domain_used_exec(ds: &[String], ms: &[HostMapping], skip: Option<usize>) -> (res: bool)
    ensures
        res == domain_used(strs(ds@), mapping_views(ms@), skip_index(skip)),
{
    let ghost sk: int = skip_index(skip);
    let ghost dv = strs(ds@);
    let ghost mv = mapping_views(ms@);
    let mut k: usize = 0;
    while k < ms.len()
        invariant
            k <= ms.len(),
            dv == strs(ds@),
            mv == mapping_views(ms@),
            sk == skip_index(skip),
            forall|i: int, kk: int|
                0 <= i < dv.len() && 0 <= kk < k && kk != sk ==> !(#[trigger] mv[kk]).domains.contains(
                    #[trigger] dv[i],
                ),
        decreases ms.len() - k,
    {
        let is_skipped = match skip {
            Some(x) => x == k,
            None => false,
        };
        if !is_skipped {
            let m = &ms[k];
            assert(mv[k as int] == m@);
            assert(k as int != sk);
            let mut i: usize = 0;
            while i < ds.len()
                invariant
                    i <= ds.len(),
                    k < ms.len(),
                    dv == strs(ds@),
                    mv == mapping_views(ms@),
                    mv[k as int] == m@,
                    k as int != sk,
                    sk == skip_index(skip),
                    forall|ii: int| 0 <= ii < i ==> !m@.domains.contains(#[trigger] dv[ii]),
                decreases ds.len() - i,
            {
                let mut j: usize = 0;
                while j < m.domains.len()
                    invariant
                        j <= m.domains.len(),
                        i < ds.len(),
                        k < ms.len(),
                        dv == strs(ds@),
                        mv == mapping_views(ms@),
                        mv[k as int] == m@,
                        k as int != sk,
                        sk == skip_index(skip),
                        forall|jj: int| 0 <= jj < j ==> m@.domains[jj] != dv[i as int],
                    decreases m.domains.len() - j,
                {
                    if crate::text::str_eq(m.domains[j].as_str(), ds[i].as_str()) {
                        assert(m@.domains[j as int] == dv[i as int]);
                        assert(m@.domains.contains(dv[i as int]));
                        assert(mv[k as int].domains.contains(dv[i as int]));
                        assert(domain_used(dv, mv, sk));
                        return true;
                    }
                    j += 1;
                }
                assert(!m@.domains.contains(dv[i as int]));
                i += 1;
            }
        }
        k += 1;
    }
    false
}

/// Adds a mapping from an IP address to domains in a group; gives the mappings and the new
/// text of the hosts file.
pub fn add(hosts: &str, ip: &str, domains: &[String], group: &str) -> (res: Result<(Vec<HostMapping>, String), String>)
    ensures
        match res {
            Ok((m, t)) => add_spec(hosts@, ip@, strs(domains@), group@) == Ok::<(Seq<MappingView>, Seq<char>), Seq<char>>((mapping_views(m@), t@)),
            Err(e) => add_spec(hosts@, ip@, strs(domains@), group@) == Err::<(Seq<MappingView>, Seq<char>), Seq<char>>(e@),
        },
{
    let ipt = match canonical_ip_string(ip) {
        Some(s) => s,
        None => return Err(owned("IP 地址无效")),
    };
    let ds = match validate_domain_list(domains) {
        Ok(v) => v,
        Err(e) => return Err(e),
    };
    if ds.len() == 0 || ds.len() > 64 {
        return Err(owned("至少需要一个域名，最多支持 64 个域名"));
    }
    if has_duplicate_domains(ds.as_slice()) {
        return Err(owned("域名不能重复"));
    }
    let g = match validate_group(group) {
        Ok(g) => g,
        Err(e) => return Err(e),
    };
    let (before, mut mappings) = match parse(hosts) {
        Ok(x) => x,
        Err(e) => return Err(e),
    };
    if domain_used_exec(ds.as_slice(), mappings.as_slice(), None) {
        return Err(owned("域名已存在于 DomainEgress hosts 区块"));
    }
    let m = HostMapping { ip: ipt, domains: ds, group: g };
    let ghost mv = m@;
    let ghost old_v = mapping_views(mappings@);
    mappings.push(m);
    assert(mapping_views(mappings@) == old_v.push(mv));
    let t = render(before.as_slice(), mappings.as_slice());
    Ok((mappings, t))
}

/// Index of the first mapping with the given IP text and domains.
pub fn find_mapping(ms: &[HostMapping], ip: &str, ds: &[String]) -> (res: Option<usize>)
    ensures
        match res {
            Some(i) => crate::text::first_where(mapping_views(ms@), mapping_is(ip@, strs(ds@))) == i as int && i < ms@.len(),
            None => crate::text::first_where(mapping_views(ms@), mapping_is(ip@, strs(ds@))) == -1,
        },
{
    let ghost mv = mapping_views(ms@);
    let mut i: usize = 0;
    while i < ms.len()
        invariant
            i <= ms.len(),
            mv == mapping_views(ms@),
            forall|j: int| 0 <= j < i ==> !(mapping_is(ip@, strs(ds@)))(#[trigger] mv[j]),
        decreases ms.len() - i,
    {
        assert(mv[i as int] == ms@[i as int]@);
        if crate::text::str_eq(ms[i].ip.as_str(), ip) && strings_eq(ms[i].domains.as_slice(), ds) {
            proof {
                crate::text::lemma_first_where_at(mv, mapping_is(ip@, strs(ds@)), i as int);
            }
            return Some(i);
        }
        i += 1;
    }
    proof {
        crate::text::lemma_first_where_at(mv, mapping_is(ip@, strs(ds@)), ms.len() as int);
    }
    None
}

/// Replaces the mapping with the previous IP address and domains; gives the mappings and
/// the new text of the hosts file.
pub fn update(
    hosts: &str,
    old_ip: &str,
    old_domains: &[String],
    ip: &str,
    domains: &[String],
    group: &str,
) -> (res: Result<(Vec<HostMapping>, String), String>)
    ensures
        match res {
            Ok((m, t)) => update_spec(hosts@, old_ip@, strs(old_domains@), ip@, strs(domains@), group@) == Ok::<(Seq<MappingView>, Seq<char>), Seq<char>>((mapping_views(m@), t@)),
            Err(e) => update_spec(hosts@, old_ip@, strs(old_domains@), ip@, strs(domains@), group@) == Err::<(Seq<MappingView>, Seq<char>), Seq<char>>(e@),
        },
{
    let oip = match canonical_ip_string(old_ip) {
        Some(s) => s,
        None => return Err(owned("原 IP 地址无效")),
    };
    let ipt = match canonical_ip_string(ip) {
        Some(s) => s,
        None => return Err(owned("IP 地址无效")),
    };
    let ds = match validate_domain_list(domains) {
        Ok(v) => v,
        Err(e) => return Err(e),
    };
    if ds.len() == 0 || ds.len() > 64 {
        return Err(owned("至少需要一个域名，最多支持 64 个域名"));
    }
    if has_duplicate_domains(ds.as_slice()) {
        return Err(owned("域名不能重复"));
    }
    let g = match validate_group(group) {
        Ok(g) => g,
        Err(e) => return Err(e),
    };
    let ods = match validate_domain_list(old_domains) {
        Ok(v) => v,
        Err(e) => return Err(e),
    };
    let (before, mut mappings) = match parse(hosts) {
        Ok(x) => x,
        Err(e) => return Err(e),
    };
    let k = match find_mapping(mappings.as_slice(), oip.as_str(), ods.as_slice()) {
        Some(k) => k,
        None => return Err(owned("未找到要修改的 DomainEgress hosts 映射")),
    };
    if domain_used_exec(ds.as_slice(), mappings.as_slice(), Some(k)) {
        return Err(owned("域名已存在于其他 DomainEgress hosts 映射"));
    }
    let ghost old_v = mapping_views(mappings@);
    let m = HostMapping { ip: ipt, domains: ds, group: g };
    let ghost mv = m@;
    let _ = mappings.remove(k);
    mappings.insert(k, m);
    assert(mapping_views(mappings@) =~= old_v.update(k as int, mv));
    let t = render(before.as_slice(), mappings.as_slice());
    Ok((mappings, t))
}

/// Removes the mappings with the IP text (and exactly these domains, when some are given);
/// gives the remaining mappings and the new text of the hosts file.
pub fn remove(hosts: &str, ip: &str, domains: &[String]) -> (res: Result<(Vec<HostMapping>, String), String>)
    ensures
        match res {
            Ok((m, t)) => remove_spec(hosts@, ip@, strs(domains@)) == Ok::<(Seq<MappingView>, Seq<char>), Seq<char>>((mapping_views(m@), t@)),
            Err(e) => remove_spec(hosts@, ip@, strs(domains@)) == Err::<(Seq<MappingView>, Seq<char>), Seq<char>>(e@),
        },
{
    let (before, mut mappings) = match parse(hosts) {
        Ok(x) => x,
        Err(e) => return Err(e),
    };
    let ghost ms = mapping_views(mappings@);
    let ghost keep = kept_by_remove(ip@, strs(domains@));
    let count = mappings.len();
    let mut out: Vec<HostMapping> = Vec::new();
    let mut i: usize = 0;
    assert(mapping_views(out@) == Seq::<MappingView>::empty());
    assert(ms.take(0).filter(keep) == Seq::<MappingView>::empty()) by {
        reveal(Seq::filter);
    }
    while mappings.len() > 0
        invariant
            i + mappings@.len() == count == ms.len(),
            mapping_views(mappings@) == ms.skip(i as int),
            mapping_views(out@) == ms.take(i as int).filter(keep),
            keep == kept_by_remove(ip@, strs(domains@)),
        decreases mappings.len(),
    {
        let ghost old_view = mapping_views(mappings@);
        assert(old_view[0] == mappings@[0]@);
        let m = mappings.remove(0);
        assert(m@ == ms[i as int]);
        assert(mapping_views(mappings@) =~= old_view.skip(1));
        assert(ms.skip(i as int).skip(1) =~= ms.skip(i + 1));
        let drop = crate::text::str_eq(m.ip.as_str(), ip) && (domains.len() == 0 || strings_eq(
            m.domains.as_slice(),
            domains,
        ));
        assert(drop == !keep(m@));
        assert(ms.take(i + 1).drop_last() == ms.take(i as int));
        assert(ms.take(i + 1).last() == m@);
        proof {
            reveal(Seq::filter);
        }
        if !drop {
            let ghost mv = m@;
            let ghost prev = mapping_views(out@);
            out.push(m);
            assert(mapping_views(out@) == prev.push(mv));
        }
        i += 1;
    }
    assert(ms.take(i as int) == ms);
    if out.len() == count {
        return Err(owned("未找到要删除的 DomainEgress hosts 映射"));
    }
    let t = render(before.as_slice(), out.as_slice());
    Ok((out, t))
}
// ---------------------------------------------------------------------------
// The message of a refused write
// ---------------------------------------------------------------------------

/// `text`, or `fallback` when `text` is empty.
pub fn if_empty_then(text: String, fallback: &str) -> (res: String)
    ensures
        res@ == (if text@.len() == 0 {
            fallback@
        } else {
            text@
        }),
{
    if text.as_str().unicode_len() == 0 {
        owned(fallback)
    } else {
        text
    }
}

/// A character that stands for itself inside a double-quoted script literal: printable
/// ASCII other than the quote and the backslash.
pub open spec fn quotable(c: char) -> bool {
    ' ' <= c && c <= '~' && c != '"' && c != '\\'
}

/// Every character stands for itself inside a double-quoted literal.
pub open spec fn all_quotable(s: Seq<char>) -> bool {
    forall|k: int| 0 <= k < s.len() ==> quotable(#[trigger] s[k])
}

/// The temporary file a new hosts file is written to before it replaces `/etc/hosts`.
pub open spec fn hosts_temp_path(id: Seq<char>) -> Seq<char> {
    "/tmp/domain-egress-hosts-"@ + id
}

/// The shell script that writes `encoded` (the new file in Base64) to the temporary file,
/// moves it over `/etc/hosts` and flushes the resolver caches.
pub open spec fn hosts_write_script(encoded: Seq<char>, temp: Seq<char>) -> Seq<char> {
    "/usr/bin/printf '%s' '"@ + encoded + "' | /usr/bin/base64 --decode > '"@ + temp
        + "' && /bin/mv '"@ + temp
        + "' /etc/hosts && /usr/bin/dscacheutil -flushcache && /usr/bin/killall -HUP mDNSResponder 2>/dev/null || true"@
}

/// The AppleScript that runs a shell script with administrator rights, the script written
/// as a double-quoted literal.
pub open spec fn admin_shell_command(script: Seq<char>) -> Seq<char> {
    "do shell script \""@ + script + "\" with administrator privileges"@
}

/// The AppleScript that writes `content` to `/etc/hosts` through the temporary file named
/// by `id`.
pub open spec fn hosts_write_command_spec(content: Seq<char>, id: Seq<char>) -> Seq<char> {
    admin_shell_command(
        hosts_write_script(crate::calls::base64_encode(vstd::utf8::encode_utf8(content)), hosts_temp_path(id)),
    )
}

/// Base64 text stands for itself inside a double-quoted literal.
pub proof fn lemma_base64_quotable(b: Seq<u8>)
    ensures
        all_quotable(crate::calls::base64_encode(b)),
    decreases b.len(),
{
    if b.len() > 2 {
        lemma_base64_quotable(b.skip(3));
    }
}

/// A fixed text that stands for itself inside a double-quoted literal.
proof fn lemma_text_quotable(a: Seq<char>, b: Seq<char>)
    requires
        all_quotable(a),
        all_quotable(b),
    ensures
        all_quotable(a + b),
{
    assert forall|k: int| 0 <= k < (a + b).len() implies quotable(#[trigger] (a + b)[k]) by {
        if k >= a.len() {
            assert((a + b)[k] == b[k - a.len()]);
        }
    }
}

/// The AppleScript that writes `content` to `/etc/hosts` with administrator rights: the
/// text goes in Base64 through a temporary file with a fresh UUID in its name. The script
/// stands as it is inside its quotes: it holds no quote, backslash or control character.
pub fn hosts_write_command(content: &str) -> (res: String)
    ensures
        exists|id: Seq<char>|
            #![auto]
            crate::calls::uuid_text(id) && res@ == hosts_write_command_spec(content@, id) && all_quotable(
                hosts_write_script(crate::calls::base64_encode(vstd::utf8::encode_utf8(content@)), hosts_temp_path(id)),
            ),
{
    let id = crate::calls::new_uuid();
    let encoded = crate::calls::base64_standard(content.as_bytes());
    let mut temp = chars_of("/tmp/domain-egress-hosts-");
    push_str(&mut temp, id.as_str());
    let mut script = chars_of("/usr/bin/printf '%s' '");
    push_str(&mut script, encoded.as_str());
    push_str(&mut script, "' | /usr/bin/base64 --decode > '");
    push_all(&mut script, temp.as_slice());
    push_str(&mut script, "' && /bin/mv '");
    push_all(&mut script, temp.as_slice());
    push_str(
        &mut script,
        "' /etc/hosts && /usr/bin/dscacheutil -flushcache && /usr/bin/killall -HUP mDNSResponder 2>/dev/null || true",
    );
    proof {
        let ghost e = crate::calls::base64_encode(vstd::utf8::encode_utf8(content@));
        lemma_base64_quotable(vstd::utf8::encode_utf8(content@));
        reveal_strlit("/tmp/domain-egress-hosts-");
        reveal_strlit("/usr/bin/printf '%s' '");
        reveal_strlit("' | /usr/bin/base64 --decode > '");
        reveal_strlit("' && /bin/mv '");
        reveal_strlit(
            "' /etc/hosts && /usr/bin/dscacheutil -flushcache && /usr/bin/killall -HUP mDNSResponder 2>/dev/null || true",
        );
        assert(all_quotable(id@)) by {
            assert forall|k: int| 0 <= k < id@.len() implies quotable(#[trigger] id@[k]) by {
                if k == 8 || k == 13 || k == 18 || k == 23 {
                    assert(id@[k] == '-');
                } else {
                    assert(crate::calls::is_lower_hex(id@[k]));
                }
            }
        }
        assert(all_quotable("/tmp/domain-egress-hosts-"@));
        assert(all_quotable("/usr/bin/printf '%s' '"@));
        assert(all_quotable("' | /usr/bin/base64 --decode > '"@));
        assert(all_quotable("' && /bin/mv '"@));
        assert(all_quotable(
            "' /etc/hosts && /usr/bin/dscacheutil -flushcache && /usr/bin/killall -HUP mDNSResponder 2>/dev/null || true"@,
        ));
        let t = hosts_temp_path(id@);
        lemma_text_quotable("/tmp/domain-egress-hosts-"@, id@);
        lemma_text_quotable("/usr/bin/printf '%s' '"@, e);
        lemma_text_quotable("/usr/bin/printf '%s' '"@ + e, "' | /usr/bin/base64 --decode > '"@);
        lemma_text_quotable("/usr/bin/printf '%s' '"@ + e + "' | /usr/bin/base64 --decode > '"@, t);
        let a = "/usr/bin/printf '%s' '"@ + e + "' | /usr/bin/base64 --decode > '"@ + t;
        lemma_text_quotable(a, "' && /bin/mv '"@);
        lemma_text_quotable(a + "' && /bin/mv '"@, t);
        lemma_text_quotable(
            a + "' && /bin/mv '"@ + t,
            "' /etc/hosts && /usr/bin/dscacheutil -flushcache && /usr/bin/killall -HUP mDNSResponder 2>/dev/null || true"@,
        );
        assert(script@ == hosts_write_script(e, t));
    }
    let mut cmd = chars_of("do shell script \"");
    push_all(&mut cmd, script.as_slice());
    push_str(&mut cmd, "\" with administrator privileges");
    string_of(cmd.as_slice())
}

/// The error of a privileged write that failed: what the helper printed on its error
/// stream, read as UTF-8 and trimmed, or, when that is empty, that the administrator
/// cancelled the change.
pub fn write_failure(stderr: &[u8]) -> (res: String)
    ensures
        res@ == (if trim(utf8_lossy(stderr@)).len() == 0 {
            "管理员取消了 /etc/hosts 修改"@
        } else {
            trim(utf8_lossy(stderr@))
        }),
        vstd::utf8::valid_utf8(stderr@) ==> res@ == (if trim(vstd::utf8::decode_utf8(stderr@)).len()
            == 0 {
            "管理员取消了 /etc/hosts 修改"@
        } else {
            trim(vstd::utf8::decode_utf8(stderr@))
        }),
{
    let text = from_utf8_lossy(stderr);
    let trimmed = string_of(crate::text::trim_str(text.as_str()).as_slice());
    if_empty_then(trimmed, "管理员取消了 /etc/hosts 修改")
}

} // verus!
