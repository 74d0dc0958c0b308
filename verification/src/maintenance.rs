//! Release checks, rule sharing through Gists, and the list of listening ports with the
//! guard on ending their processes.
//!
//! `curl`, `lsof`, `ps` and `kill` run outside the library; the functions here read what
//! they print and decide what may be done.
use crate::calls::{from_utf8_lossy, utf8_lossy};
use crate::cloud::{chars_lt, chars_lt_irreflexive, chars_lt_total, chars_lt_transitive};
use crate::text::{
    chars_of, lines, lines_of, owned, parse_uint_result, split_char, split_of, starts_with,
    starts_with_chars, str_eq, string_of, trim, trim_start_char, trim_start_char_chars, trim_str,
    uint_parse, views,
};
use vstd::prelude::*;

verus! {

// ---------------------------------------------------------------------------
// Releases
// ---------------------------------------------------------------------------

/// The version of this release.
pub const APP_VERSION: &'static str = "0.4.1";

/// The number a version component denotes: the text before its first `-`, read as a
/// `u64`.
pub open spec fn component_head(p: Seq<char>) -> Seq<char> {
    split_char(p, '-')[0]
}

/// The dot-separated components of a version, once trimmed and without leading `v`s.
pub open spec fn version_parts(value: Seq<char>) -> Seq<Seq<char>> {
    split_char(trim_start_char(trim(value), 'v'), '.')
}

/// The value of a component that reads as a number.
pub open spec fn component_value(p: Seq<char>) -> u64 {
    match uint_parse(component_head(p), 0xffff_ffff_ffff_ffff) {
        Ok(v) => v as u64,
        Err(_) => 0,
    }
}

/// `version_tuple`: the first three components, when every component reads as a number and
/// there are at least three.
pub open spec fn version_spec(value: Seq<char>) -> Option<(u64, u64, u64)> {
    let parts = version_parts(value);
    if exists|k: int|
        0 <= k < parts.len() && uint_parse(component_head(#[trigger] parts[k]), 0xffff_ffff_ffff_ffff)
            is Err {
        None
    } else if parts.len() < 3 {
        None
    } else {
        Some((component_value(parts[0]), component_value(parts[1]), component_value(parts[2])))
    }
}

/// Reads a version such as `v1.2.3` or `1.2.3-beta`.
pub fn version_tuple(value: &str) -> (res: Option<(u64, u64, u64)>)
    ensures
        res == version_spec(value@),
{
    let t = trim_str(value);
    let t = trim_start_char_chars(t.as_slice(), 'v');
    let parts = split_of(t.as_slice(), '.');
    let ghost pv = views(parts@);
    assert(pv == version_parts(value@));
    let mut values: Vec<u64> = Vec::new();
    let mut i: usize = 0;
    while i < parts.len()
        invariant
            i <= parts.len(),
            pv == views(parts@),
            pv == version_parts(value@),
            values@.len() == i,
            forall|k: int|
                0 <= k < i ==> uint_parse(component_head(#[trigger] pv[k]), 0xffff_ffff_ffff_ffff)
                    == Ok::<nat, Seq<char>>(values@[k] as nat),
        decreases parts.len() - i,
    {
        assert(pv[i as int] == parts@[i as int]@);
        let pieces = split_of(parts[i].as_slice(), '-');
        assert(views(pieces@)[0] == pieces@[0]@);
        match parse_uint_result(pieces[0].as_slice(), 0xffff_ffff_ffff_ffff) {
            Ok(v) => values.push(v),
            Err(_) => {
                assert(uint_parse(component_head(pv[i as int]), 0xffff_ffff_ffff_ffff) is Err);
                return None;
            },
        }
        i += 1;
    }
    if values.len() < 3 {
        return None;
    }
    Some((values[0], values[1], values[2]))
}

/// One version is newer than another: compared component by component.
pub open spec fn newer(a: (u64, u64, u64), b: (u64, u64, u64)) -> bool {
    a.0 > b.0 || (a.0 == b.0 && (a.1 > b.1 || (a.1 == b.1 && a.2 > b.2)))
}

/// What the latest release says of this one.
#[derive(Clone, Debug)]
pub struct UpdateInfo {
    pub current_version: String,
    pub latest_version: Option<String>,
    pub release_url: Option<String>,
    pub available: bool,
    pub error: Option<String>,
}

/// The latest release from its tag and page: its version is the tag without leading `v`s
/// (none when that is empty); an update is available when both versions read and the
/// latest is newer than `APP_VERSION`.
pub fn update_info(tag_name: Option<String>, release_url: Option<String>) -> (res: UpdateInfo)
    ensures
        ({
            let tag = match tag_name {
                Some(t) => t@,
                None => Seq::<char>::empty(),
            };
            let latest = trim_start_char(tag, 'v');
            &&& res.current_version@ == APP_VERSION@
            &&& (latest.len() == 0 ==> res.latest_version is None)
            &&& (latest.len() > 0 ==> (res.latest_version matches Some(v) && v@ == latest))
            &&& res.release_url == release_url
            &&& res.available == (match (version_spec(latest), version_spec(APP_VERSION@)) {
                (Some(l), Some(c)) => newer(l, c),
                _ => false,
            })
            &&& res.error is None
        }),
{
    let tag = match tag_name {
        Some(t) => chars_of(t.as_str()),
        None => Vec::new(),
    };
    let latest = trim_start_char_chars(tag.as_slice(), 'v');
    let latest_s = string_of(latest.as_slice());
    let available = match (version_tuple(latest_s.as_str()), version_tuple(APP_VERSION)) {
        (Some(l), Some(c)) => l.0 > c.0 || (l.0 == c.0 && (l.1 > c.1 || (l.1 == c.1 && l.2 > c.2))),
        _ => false,
    };
    UpdateInfo {
        current_version: owned(APP_VERSION),
        latest_version: if latest.len() == 0 {
            None
        } else {
            Some(latest_s)
        },
        release_url,
        available,
        error: None,
    }
}

/// A release check that failed: this release's version, nothing known of the latest, no
/// update, and the error.
pub open spec fn update_failed(res: UpdateInfo, error: Seq<char>) -> bool {
    &&& res.current_version@ == APP_VERSION@
    &&& res.latest_version is None
    &&& res.release_url is None
    &&& !res.available
    &&& res.error matches Some(e) && e@ == error
}

/// The release check failed with `error`.
pub fn update_failure(error: String) -> (res: UpdateInfo)
    ensures
        update_failed(res, error@),
{
    UpdateInfo {
        current_version: owned(APP_VERSION),
        latest_version: None,
        release_url: None,
        available: false,
        error: Some(error),
    }
}

/// The release request failed: the error is what `curl` printed on its error stream, read
/// as UTF-8 and trimmed.
pub fn update_request_failure(stderr: &[u8]) -> (res: UpdateInfo)
    ensures
        update_failed(res, trim(utf8_lossy(stderr@))),
        vstd::utf8::valid_utf8(stderr@) ==> update_failed(res, trim(vstd::utf8::decode_utf8(stderr@))),
{
    let text = from_utf8_lossy(stderr);
    update_failure(string_of(trim_str(text.as_str()).as_slice()))
}

/// The release reply was no JSON: the error names the parser's complaint.
pub fn update_format_failure(detail: &str) -> (res: UpdateInfo)
    ensures
        update_failed(res, "Release 返回格式无效："@ + detail@),
{
    let mut e = chars_of("Release 返回格式无效：");
    crate::text::push_str(&mut e, detail);
    update_failure(string_of(e.as_slice()))
}

/// Only pages of this project's releases are opened.
pub fn check_update_url(url: &str) -> (res: Result<(), String>)
    ensures
        match res {
            Ok(()) => starts_with(url@, "https://github.com/yogkang/DomainEgress/releases/"@),
            Err(e) => !starts_with(url@, "https://github.com/yogkang/DomainEgress/releases/"@)
                && e@ == "更新地址不受信任"@,
        },
{
    let u = chars_of(url);
    let p = chars_of("https://github.com/yogkang/DomainEgress/releases/");
    if starts_with_chars(u.as_slice(), p.as_slice()) {
        Ok(())
    } else {
        Err(owned("更新地址不受信任"))
    }
}

// ---------------------------------------------------------------------------
// Gists
// ---------------------------------------------------------------------------

/// `gist_api_url`: the API address of a Gist on GitHub or Gitee.
pub open spec fn gist_url_spec(provider: Seq<char>, gist_id: Seq<char>) -> Result<Seq<char>, Seq<char>> {
    let id = trim(gist_id);
    if id.len() == 0 {
        Err("请填写 Gist ID"@)
    } else if provider == "github"@ {
        Ok("https://api.github.com/gists/"@ + id)
    } else if provider == "gitee"@ {
        Ok("https://gitee.com/api/v5/gists/"@ + id)
    } else {
        Err("不支持的 Gist 服务商"@)
    }
}

/// The API address of a Gist.
pub fn gist_api_url(provider: &str, gist_id: &str) -> (res: Result<String, String>)
    ensures
        match res {
            Ok(u) => gist_url_spec(provider@, gist_id@) == Ok::<Seq<char>, Seq<char>>(u@),
            Err(e) => gist_url_spec(provider@, gist_id@) == Err::<Seq<char>, Seq<char>>(e@),
        },
{
    let id = trim_str(gist_id);
    if id.len() == 0 {
        return Err(owned("请填写 Gist ID"));
    }
    if str_eq(provider, "github") {
        let mut u = chars_of("https://api.github.com/gists/");
        crate::text::push_all(&mut u, id.as_slice());
        return Ok(string_of(u.as_slice()));
    }
    if str_eq(provider, "gitee") {
        let mut u = chars_of("https://gitee.com/api/v5/gists/");
        crate::text::push_all(&mut u, id.as_slice());
        return Ok(string_of(u.as_slice()));
    }
    Err(owned("不支持的 Gist 服务商"))
}

/// The authorization header of a Gist request: none without a token, else the trimmed
/// token.
pub fn gist_auth_header(token: &str) -> (res: Option<String>)
    ensures
        trim(token@).len() == 0 ==> res is None,
        trim(token@).len() > 0 ==> (res matches Some(h) && h@ == "Authorization: token "@ + trim(
            token@,
        )),
{
    let t = trim_str(token);
    if t.len() == 0 {
        return None;
    }
    let mut h = chars_of("Authorization: token ");
    crate::text::push_all(&mut h, t.as_slice());
    Some(string_of(h.as_slice()))
}

/// Pushing to a Gist needs a token.
pub fn check_push_token(token: &str) -> (res: Result<(), String>)
    ensures
        match res {
            Ok(()) => trim(token@).len() > 0,
            Err(e) => trim(token@).len() == 0 && e@ == "推送 Gist 需要访问令牌"@,
        },
{
    if trim_str(token).len() == 0 {
        Err(owned("推送 Gist 需要访问令牌"))
    } else {
        Ok(())
    }
}

/// The rule lists as shared through a Gist.
#[derive(Clone, Debug)]
pub struct GistRules {
    pub format: String,
    pub version: u32,
    pub whitelist: Vec<String>,
    pub blacklist: Vec<String>,
}

/// The rules of a configuration, labelled for sharing.
pub fn gist_rules(whitelist: Vec<String>, blacklist: Vec<String>) -> (res: GistRules)
    ensures
        res.format@ == "domain-egress-rules"@,
        res.version == 1,
        res.whitelist == whitelist,
        res.blacklist == blacklist,
{
    GistRules { format: owned("domain-egress-rules"), version: 1, whitelist, blacklist }
}

// ---------------------------------------------------------------------------
// Listening ports
// ---------------------------------------------------------------------------

/// A listening socket: its address, the process and the process's command name.
#[derive(Clone, Debug)]
pub struct PortEntry {
    pub port: String,
    pub pid: u32,
    pub name: String,
}

/// A listening socket as plain values.
pub type PortView = (Seq<char>, u32, Seq<char>);

/// The plain values of listening sockets.
pub open spec fn port_views(v: Seq<PortEntry>) -> Seq<PortView> {
    v.map_values(|e: PortEntry| (e.port@, e.pid, e.name@))
}

/// The reading state of `lsof -F pcn` output: the current process and command name, and the
/// sockets read so far.
pub struct LsofState {
    pub pid: u32,
    pub name: Seq<char>,
    pub rows: Seq<PortView>,
}

/// A process number as `lsof` prints it, 0 when it does not read as a `u32`.
pub open spec fn pid_value(v: Seq<char>) -> u32 {
    match uint_parse(v, 0xffff_ffff) {
        Ok(x) => x as u32,
        Err(_) => 0,
    }
}

/// One line of `lsof -F pcn`: `p` sets the process, `c` its name, `n` adds a socket of the
/// current process (when there is one).
pub open spec fn lsof_step(st: LsofState, line: Seq<char>) -> LsofState {
    if line.len() > 0 && line[0] == 'p' {
        LsofState { pid: pid_value(line.skip(1)), name: st.name, rows: st.rows }
    } else if line.len() > 0 && line[0] == 'c' {
        LsofState { pid: st.pid, name: line.skip(1), rows: st.rows }
    } else if line.len() > 0 && line[0] == 'n' && st.pid > 0 {
        LsofState { pid: st.pid, name: st.name, rows: st.rows.push((line.skip(1), st.pid, st.name)) }
    } else {
        st
    }
}

/// The state after reading the given lines.
pub open spec fn lsof_lines(ls: Seq<Seq<char>>) -> LsofState
    decreases ls.len(),
{
    if ls.len() == 0 {
        LsofState { pid: 0, name: seq![], rows: seq![] }
    } else {
        lsof_step(lsof_lines(ls.drop_last()), ls.last())
    }
}

/// Sockets ordered by address text, then by process.
pub open spec fn row_lt(x: PortView, y: PortView) -> bool {
    chars_lt(x.0, y.0) || (x.0 == y.0 && x.1 < y.1)
}

/// Position where `x` goes: before the first element greater than it.
pub open spec fn row_pos(s: Seq<PortView>, x: PortView) -> int
    decreases s.len(),
{
    if s.len() == 0 {
        0
    } else if row_lt(x, s[0]) {
        0
    } else {
        1 + row_pos(s.skip(1), x)
    }
}

/// The sockets in ascending order, equal ones kept in the order they came (a stable sort).
pub open spec fn sort_rows(s: Seq<PortView>) -> Seq<PortView>
    decreases s.len(),
{
    if s.len() == 0 {
        s
    } else {
        let r = sort_rows(s.drop_last());
        r.insert(row_pos(r, s.last()), s.last())
    }
}

/// Consecutive sockets of the same process and address reduced to the first.
pub open spec fn dedup_rows(s: Seq<PortView>) -> Seq<PortView>
    decreases s.len(),
{
    if s.len() == 0 {
        s
    } else {
        let r = dedup_rows(s.drop_last());
        if s.len() > 1 && s[s.len() - 2].1 == s.last().1 && s[s.len() - 2].0 == s.last().0 {
            r
        } else {
            r.push(s.last())
        }
    }
}

/// `ports`: the sockets listed by `lsof`, sorted and without repeats.
pub open spec fn ports_spec(output: Seq<char>) -> Seq<PortView> {
    dedup_rows(sort_rows(lsof_lines(lines(output)).rows))
}

fn copy_chars(v: &[char]) -> (res: Vec<char>)
    ensures
        res@ == v@,
{
    let r = crate::text::slice_of(v, 0, v.len());
    assert(v@.subrange(0, v@.len() as int) == v@);
    r
}

fn row_less(a: &PortEntry, b: &PortEntry) -> (res: bool)
    ensures
        res == row_lt((a.port@, a.pid, a.name@), (b.port@, b.pid, b.name@)),
{
    let x = chars_of(a.port.as_str());
    let y = chars_of(b.port.as_str());
    if crate::cloud::chars_less_pub(x.as_slice(), y.as_slice()) {
        return true;
    }
    crate::text::chars_eq(x.as_slice(), y.as_slice()) && a.pid < b.pid
}

/// Reads the listening sockets from `lsof -nP -iTCP -sTCP:LISTEN -F pcn` output, sorted by
/// address and process, without repeats.
pub fn listening_ports(output: &str) -> (res: Vec<PortEntry>)
    ensures
        port_views(res@) == ports_spec(output@),
{
    let cs = chars_of(output);
    let ls = lines_of(cs.as_slice());
    let ghost lv = views(ls@);
    let mut pid: u32 = 0;
    let mut name: Vec<char> = Vec::new();
    let mut rows: Vec<PortEntry> = Vec::new();
    let mut i: usize = 0;
    assert(lv.take(0) =~= Seq::<Seq<char>>::empty());
    assert(port_views(rows@) =~= Seq::<PortView>::empty());
    assert(name@ =~= Seq::<char>::empty());
    while i < ls.len()
        invariant
            i <= ls.len(),
            lv == views(ls@),
            lsof_lines(lv.take(i as int)) == (LsofState {
                pid,
                name: name@,
                rows: port_views(rows@),
            }),
        decreases ls.len() - i,
    {
        let line = &ls[i];
        assert(lv[i as int] == line@);
        assert(lv.take(i + 1).drop_last() == lv.take(i as int));
        assert(lv.take(i + 1).last() == line@);
        if line.len() > 0 && line[0] == 'p' {
            let v = crate::text::slice_of(line.as_slice(), 1, line.len());
            assert(v@ == line@.skip(1));
            pid = match parse_uint_result(v.as_slice(), 0xffff_ffff) {
                Ok(x) => x as u32,
                Err(_) => 0,
            };
        } else if line.len() > 0 && line[0] == 'c' {
            let v = crate::text::slice_of(line.as_slice(), 1, line.len());
            assert(v@ == line@.skip(1));
            name = v;
        } else if line.len() > 0 && line[0] == 'n' && pid > 0 {
            let v = crate::text::slice_of(line.as_slice(), 1, line.len());
            assert(v@ == line@.skip(1));
            let ghost before = port_views(rows@);
            rows.push(
                PortEntry {
                    port: string_of(v.as_slice()),
                    pid,
                    name: string_of(name.as_slice()),
                },
            );
            assert(port_views(rows@) == before.push((line@.skip(1), pid, name@)));
        }
        i += 1;
    }
    assert(lv.take(ls.len() as int) == lv);
    assert(lv == lines(output@));
    let sorted = sort_entries(rows);
    dedup_entries(sorted)
}

fn sort_entries(rows: Vec<PortEntry>) -> (res: Vec<PortEntry>)
    ensures
        port_views(res@) == sort_rows(port_views(rows@)),
{
    let ghost orig = port_views(rows@);
    let n = rows.len();
    let mut src = rows;
    let mut out: Vec<PortEntry> = Vec::new();
    let mut k: usize = 0;
    assert(port_views(src@) == orig.skip(0));
    while src.len() > 0
        invariant
            k <= n,
            orig.len() == n,
            k + src@.len() == n,
            port_views(src@) == orig.skip(k as int),
            port_views(out@) == sort_rows(orig.take(k as int)),
        decreases src.len(),
    {
        let ghost old_pv = port_views(src@);
        let ghost old_src = src@;
        let x = src.remove(0);
        let ghost xv = (x.port@, x.pid, x.name@);
        assert(old_pv[0] == (old_src[0].port@, old_src[0].pid, old_src[0].name@));
        assert(orig.skip(k as int)[0] == orig[k as int]);
        assert(xv == orig[k as int]);
        assert(port_views(src@) == old_pv.skip(1));
        assert(orig.skip(k as int).skip(1) == orig.skip(k + 1));
        assert(orig.take(k + 1).drop_last() == orig.take(k as int));
        assert(orig.take(k + 1).last() == xv);
        let ghost r = port_views(out@);
        let mut j: usize = 0;
        assert(r.skip(0) == r);
        loop
            invariant
                j <= out.len(),
                r == port_views(out@),
                xv == (x.port@, x.pid, x.name@),
                row_pos(r, xv) == j + row_pos(r.skip(j as int), xv),
            ensures
                j <= out.len(),
                row_pos(r, xv) == j,
            decreases out.len() - j,
        {
            if j >= out.len() {
                break;
            }
            assert(r[j as int] == (out@[j as int].port@, out@[j as int].pid, out@[j as int].name@));
            assert(r.skip(j as int)[0] == r[j as int]);
            let lt = row_less(&x, &out[j]);
            if lt {
                assert(row_pos(r.skip(j as int), xv) == 0);
                break;
            }
            assert(row_pos(r.skip(j as int), xv) == 1 + row_pos(r.skip(j as int).skip(1), xv));
            assert(r.skip(j as int).skip(1) == r.skip(j + 1));
            j += 1;
        }
        out.insert(j, x);
        assert(port_views(out@) == r.insert(j as int, xv));
        k += 1;
    }
    assert(orig.take(n as int) == orig);
    out
}

fn dedup_entries(rows: Vec<PortEntry>) -> (res: Vec<PortEntry>)
    ensures
        port_views(res@) == dedup_rows(port_views(rows@)),
{
    let ghost orig = port_views(rows@);
    let n = rows.len();
    let mut src = rows;
    let mut out: Vec<PortEntry> = Vec::new();
    let mut k: usize = 0;
    let mut prev_pid: u32 = 0;
    let mut prev_port: Vec<char> = Vec::new();
    assert(port_views(src@) == orig.skip(0));
    while src.len() > 0
        invariant
            k <= n,
            orig.len() == n,
            k + src@.len() == n,
            port_views(src@) == orig.skip(k as int),
            port_views(out@) == dedup_rows(orig.take(k as int)),
            k > 0 ==> prev_pid == orig[k - 1].1 && prev_port@ == orig[k - 1].0,
        decreases src.len(),
    {
        let ghost old_pv = port_views(src@);
        let ghost old_src = src@;
        let x = src.remove(0);
        let ghost xv = (x.port@, x.pid, x.name@);
        assert(old_pv[0] == (old_src[0].port@, old_src[0].pid, old_src[0].name@));
        assert(orig.skip(k as int)[0] == orig[k as int]);
        assert(xv == orig[k as int]);
        assert(port_views(src@) == old_pv.skip(1));
        assert(orig.skip(k as int).skip(1) == orig.skip(k + 1));
        let ghost t = orig.take(k + 1);
        assert(t.drop_last() == orig.take(k as int));
        assert(t.last() == xv);
        assert(k > 0 ==> t[t.len() - 2] == orig[k - 1]);
        let p = chars_of(x.port.as_str());
        let repeat = k > 0 && prev_pid == x.pid && crate::text::chars_eq(
            prev_port.as_slice(),
            p.as_slice(),
        );
        prev_pid = x.pid;
        prev_port = p;
        if !repeat {
            let ghost before = port_views(out@);
            out.push(x);
            assert(port_views(out@) == before.push(xv));
        }
        k += 1;
    }
    assert(orig.take(n as int) == orig);
    out
}

/// Which processes may be ended: never process 0 or 1 nor this one, and only a process
/// still listed as listening with the start time the user saw.
pub fn check_terminate(pid: u32, own_pid: u32, started: &str, listed: &[(u32, String)]) -> (res: Result<(), String>)
    ensures
        ({
            let present = exists|k: int|
                0 <= k < listed@.len() && (#[trigger] listed@[k]).0 == pid && listed@[k].1@
                    == started@;
            match res {
                Ok(()) => pid > 1 && pid != own_pid && present && started@.len() > 0,
                Err(e) => ((pid <= 1 || pid == own_pid) && e@ == "不允许终止此进程"@) || (pid > 1
                    && pid != own_pid && (!present || started@.len() == 0) && e@
                    == "进程已变化，请刷新列表后重试"@),
            }
        }),
{
    if pid <= 1 || pid == own_pid {
        return Err(owned("不允许终止此进程"));
    }
    let mut found = false;
    let mut i: usize = 0;
    while i < listed.len()
        invariant
            i <= listed.len(),
            found == exists|k: int|
                0 <= k < i && (#[trigger] listed@[k]).0 == pid && listed@[k].1@ == started@,
        decreases listed.len() - i,
    {
        if listed[i].0 == pid && str_eq(listed[i].1.as_str(), started) {
            found = true;
        }
        i += 1;
    }
    if !found || started.is_empty() {
        return Err(owned("进程已变化，请刷新列表后重试"));
    }
    Ok(())
}


// ---------------------------------------------------------------------------
// Each listening socket listed once, in order
// ---------------------------------------------------------------------------

/// The same address and process.
pub open spec fn same_socket(x: PortView, y: PortView) -> bool {
    x.0 == y.0 && x.1 == y.1
}

/// Sockets in ascending order: none is greater than one that comes after it.
pub open spec fn rows_sorted(s: Seq<PortView>) -> bool {
    forall|i: int, j: int| 0 <= i < j < s.len() ==> !row_lt(#[trigger] s[j], #[trigger] s[i])
}

proof fn row_lt_irreflexive(x: PortView)
    ensures
        !row_lt(x, x),
{
    chars_lt_irreflexive(x.0);
}

proof fn row_lt_transitive(x: PortView, y: PortView, z: PortView)
    requires
        row_lt(x, y),
        row_lt(y, z),
    ensures
        row_lt(x, z),
{
    if chars_lt(x.0, y.0) && chars_lt(y.0, z.0) {
        chars_lt_transitive(x.0, y.0, z.0);
    }
}

proof fn row_lt_total(x: PortView, y: PortView)
    ensures
        row_lt(x, y) || row_lt(y, x) || same_socket(x, y),
{
    chars_lt_total(x.0, y.0);
}

proof fn row_pos_bounds(r: Seq<PortView>, x: PortView)
    ensures
        0 <= row_pos(r, x) <= r.len(),
        forall|i: int| 0 <= i < row_pos(r, x) ==> !row_lt(x, #[trigger] r[i]),
        row_pos(r, x) < r.len() ==> row_lt(x, r[row_pos(r, x)]),
    decreases r.len(),
{
    if r.len() > 0 && !row_lt(x, r[0]) {
        row_pos_bounds(r.skip(1), x);
        assert forall|i: int| 0 <= i < row_pos(r, x) implies !row_lt(x, #[trigger] r[i]) by {
            if i > 0 {
                assert(r[i] == r.skip(1)[i - 1]);
            }
        }
        if row_pos(r, x) < r.len() {
            assert(r[row_pos(r, x)] == r.skip(1)[row_pos(r.skip(1), x)]);
        }
    }
}

proof fn rows_sorted_insert(r: Seq<PortView>, x: PortView)
    requires
        rows_sorted(r),
    ensures
        rows_sorted(r.insert(row_pos(r, x), x)),
{
    row_pos_bounds(r, x);
    let p = row_pos(r, x);
    let t = r.insert(p, x);
    assert forall|i: int| p <= i < r.len() implies row_lt(x, #[trigger] r[i]) by {
        if i > p {
            assert(!row_lt(r[i], r[p]));
            row_lt_total(r[p], r[i]);
            if row_lt(r[p], r[i]) {
                row_lt_transitive(x, r[p], r[i]);
            }
        }
    }
    assert forall|i: int, j: int| 0 <= i < j < t.len() implies !row_lt(#[trigger] t[j], #[trigger] t[i]) by {
        if j == p {
            assert(t[i] == r[i]);
        } else if i == p {
            assert(t[j] == r[j - 1]);
            if row_lt(r[j - 1], x) {
                row_lt_transitive(x, r[j - 1], x);
                row_lt_irreflexive(x);
            }
        } else {
            let ri = if i < p {
                i
            } else {
                i - 1
            };
            let rj = if j < p {
                j
            } else {
                j - 1
            };
            assert(t[i] == r[ri]);
            assert(t[j] == r[rj]);
        }
    }
}

/// Sorting keeps every socket, each as often as it came, and puts them in ascending order.
pub proof fn lemma_sort_rows(s: Seq<PortView>)
    ensures
        rows_sorted(sort_rows(s)),
        sort_rows(s).to_multiset() == s.to_multiset(),
    decreases s.len(),
{
    if s.len() > 0 {
        lemma_sort_rows(s.drop_last());
        let r = sort_rows(s.drop_last());
        rows_sorted_insert(r, s.last());
        row_pos_bounds(r, s.last());
        vstd::seq_lib::to_multiset_insert(r, row_pos(r, s.last()), s.last());
        vstd::seq_lib::to_multiset_build(s.drop_last(), s.last());
        assert(s.drop_last().push(s.last()) =~= s);
    }
}

/// Dropping repeats keeps the last socket's address and process at the end, and invents
/// no socket.
pub proof fn lemma_dedup_from(s: Seq<PortView>)
    ensures
        s.len() > 0 ==> dedup_rows(s).len() > 0 && same_socket(dedup_rows(s).last(), s.last()),
        forall|j: int| 0 <= j < dedup_rows(s).len() ==> s.contains(#[trigger] dedup_rows(s)[j]),
    decreases s.len(),
{
    if s.len() > 0 {
        let n = s.len() as int;
        let init = s.drop_last();
        lemma_dedup_from(init);
        let d0 = dedup_rows(init);
        let d = dedup_rows(s);
        assert forall|j: int| 0 <= j < d0.len() implies s.contains(#[trigger] d0[j]) by {
            assert(init.contains(d0[j]));
            let k = choose|k: int| 0 <= k < init.len() && init[k] == d0[j];
            assert(s[k] == init[k]);
        }
        if n > 1 && s[n - 2].1 == s.last().1 && s[n - 2].0 == s.last().0 {
            assert(init.last() == s[n - 2]);
        } else {
            assert forall|j: int| 0 <= j < d.len() implies s.contains(#[trigger] d[j]) by {
                if j < d0.len() {
                    assert(d[j] == d0[j]);
                } else {
                    assert(s[n - 1] == d[j]);
                }
            }
        }
    }
}

/// Dropping repeats keeps a socket of each address and process.
pub proof fn lemma_dedup_cover(s: Seq<PortView>)
    ensures
        forall|k: int|
            #![trigger s[k]]
            0 <= k < s.len() ==> exists|j: int|
                0 <= j < dedup_rows(s).len() && same_socket(#[trigger] dedup_rows(s)[j], s[k]),
    decreases s.len(),
{
    if s.len() > 0 {
        let n = s.len() as int;
        let init = s.drop_last();
        lemma_dedup_cover(init);
        lemma_dedup_from(s);
        let d0 = dedup_rows(init);
        let d = dedup_rows(s);
        if !(n > 1 && s[n - 2].1 == s.last().1 && s[n - 2].0 == s.last().0) {
            assert(d == d0.push(s.last()));
        }
        assert forall|k: int| #![trigger s[k]] 0 <= k < s.len() implies exists|j: int|
            0 <= j < d.len() && same_socket(#[trigger] d[j], s[k]) by {
            if k < n - 1 {
                assert(init[k] == s[k]);
                let j = choose|j: int| 0 <= j < d0.len() && same_socket(#[trigger] d0[j], init[k]);
                assert(d[j] == d0[j]);
                assert(same_socket(d[j], s[k]));
            } else {
                assert(same_socket(d[d.len() - 1], s[k]));
            }
        }
    }
}

/// Dropping repeats from sorted sockets leaves them strictly ascending.
pub proof fn lemma_dedup_ascending(s: Seq<PortView>)
    requires
        rows_sorted(s),
    ensures
        forall|i: int, j: int|
            0 <= i < j < dedup_rows(s).len() ==> row_lt(#[trigger] dedup_rows(s)[i], #[trigger] dedup_rows(s)[j]),
    decreases s.len(),
{
    if s.len() > 0 {
        let n = s.len() as int;
        let init = s.drop_last();
        assert forall|i: int, j: int| 0 <= i < j < init.len() implies !row_lt(
            #[trigger] init[j],
            #[trigger] init[i],
        ) by {
            assert(init[i] == s[i]);
            assert(init[j] == s[j]);
        }
        lemma_dedup_ascending(init);
        lemma_dedup_from(init);
        let d0 = dedup_rows(init);
        let d = dedup_rows(s);
        if !(n > 1 && s[n - 2].1 == s.last().1 && s[n - 2].0 == s.last().0) {
            assert(d == d0.push(s.last()));
            if n > 1 {
                assert(init.last() == s[n - 2]);
                assert(!row_lt(s[n - 1], s[n - 2]));
                row_lt_total(s[n - 2], s[n - 1]);
                assert(row_lt(s[n - 2], s.last()));
                assert(row_lt(d0.last(), s.last()));
                assert forall|i: int| 0 <= i < d0.len() implies row_lt(#[trigger] d0[i], s.last()) by {
                    if i < d0.len() - 1 {
                        assert(row_lt(d0[i], d0[d0.len() - 1]));
                        row_lt_transitive(d0[i], d0.last(), s.last());
                    }
                }
            }
            assert forall|i: int, j: int| 0 <= i < j < d.len() implies row_lt(#[trigger] d[i], #[trigger] d[j]) by {
                assert(d[i] == d0[i]);
                if j < d0.len() {
                    assert(d[j] == d0[j]);
                }
            }
        }
    }
}

/// The listening sockets come out in ascending order of address and process, so each one
/// once; every socket `lsof` listed is there, and no other.
pub proof fn law_ports_listed_once(output: Seq<char>)
    ensures
        forall|i: int, j: int|
            0 <= i < j < ports_spec(output).len() ==> row_lt(
                #[trigger] ports_spec(output)[i],
                #[trigger] ports_spec(output)[j],
            ),
        forall|k: int|
            #![trigger lsof_lines(lines(output)).rows[k]]
            0 <= k < lsof_lines(lines(output)).rows.len() ==> exists|j: int|
                0 <= j < ports_spec(output).len() && same_socket(
                    #[trigger] ports_spec(output)[j],
                    lsof_lines(lines(output)).rows[k],
                ),
        forall|j: int|
            0 <= j < ports_spec(output).len() ==> lsof_lines(lines(output)).rows.contains(
                #[trigger] ports_spec(output)[j],
            ),
{
    let rows = lsof_lines(lines(output)).rows;
    let s = sort_rows(rows);
    lemma_sort_rows(rows);
    lemma_dedup_ascending(s);
    lemma_dedup_cover(s);
    lemma_dedup_from(s);
    let r = ports_spec(output);
    assert forall|k: int| #![trigger rows[k]] 0 <= k < rows.len() implies exists|j: int|
        0 <= j < r.len() && same_socket(#[trigger] r[j], rows[k]) by {
        assert(rows.contains(rows[k]));
        vstd::seq_lib::to_multiset_contains(rows, rows[k]);
        vstd::seq_lib::to_multiset_contains(s, rows[k]);
        let m = choose|m: int| 0 <= m < s.len() && s[m] == rows[k];
        assert(exists|j: int| 0 <= j < r.len() && same_socket(#[trigger] r[j], s[m]));
    }
    assert forall|j: int| 0 <= j < r.len() implies rows.contains(#[trigger] r[j]) by {
        assert(s.contains(r[j]));
        vstd::seq_lib::to_multiset_contains(s, r[j]);
        vstd::seq_lib::to_multiset_contains(rows, r[j]);
    }
}

} // verus!
