//! This machine's network: its hardware ports, their addresses and its host name, read from
//! what `networksetup`, `ifconfig` and `hostname` print.
use crate::calls::{from_utf8_lossy, utf8_lossy};
use crate::text::{
    chars_of, lines, lines_of, push_view, slice_of, split_char, split_of, starts_with,
    starts_with_chars, string_of, trim, trim_chars, views, words, words_of,
};
use vstd::prelude::*;

verus! {

// ---------------------------------------------------------------------------
// Hardware ports
// ---------------------------------------------------------------------------

/// The prefix of the line that names a hardware port.
pub open spec fn port_prefix() -> Seq<char> {
    "Hardware Port: "@
}

/// The prefix of the line that names a port's device.
pub open spec fn device_prefix() -> Seq<char> {
    "Device: "@
}

/// Reading `networksetup -listallhardwareports`: the current port kind and device, and the
/// (kind, device) pairs found so far.
pub struct PortsState {
    pub kind: Seq<char>,
    pub device: Seq<char>,
    pub found: Seq<(Seq<char>, Seq<char>)>,
}

/// One line read: `Hardware Port: ` sets the kind, `Device: ` the device (both trimmed); an
/// empty line ends an entry, which is kept when it names a device.
pub open spec fn ports_step(st: PortsState, line: Seq<char>) -> PortsState {
    let kind = if starts_with(line, port_prefix()) {
        trim(line.skip(port_prefix().len() as int))
    } else {
        st.kind
    };
    let device = if starts_with(line, device_prefix()) {
        trim(line.skip(device_prefix().len() as int))
    } else {
        st.device
    };
    if line.len() == 0 && device.len() > 0 {
        PortsState { kind: seq![], device: seq![], found: st.found.push((kind, device)) }
    } else {
        PortsState { kind, device, found: st.found }
    }
}

/// The state after the given lines.
pub open spec fn ports_lines(ls: Seq<Seq<char>>) -> PortsState
    decreases ls.len(),
{
    if ls.len() == 0 {
        PortsState { kind: seq![], device: seq![], found: seq![] }
    } else {
        ports_step(ports_lines(ls.drop_last()), ls.last())
    }
}

/// The (kind, device) pairs of the listing: its lines and one more empty line read.
pub open spec fn hardware_ports_spec(text: Seq<char>) -> Seq<(Seq<char>, Seq<char>)> {
    ports_lines(lines(text).push(seq![])).found
}

/// The pairs as plain values.
pub open spec fn pair_views(v: Seq<(String, String)>) -> Seq<(Seq<char>, Seq<char>)> {
    v.map_values(|p: (String, String)| (p.0@, p.1@))
}

/// The text after a prefix, trimmed, when the line begins with it.
fn after_prefix(line: &[char], prefix: &str) -> (res: Option<Vec<char>>)
    ensures
        match res {
            Some(v) => starts_with(line@, prefix@) && v@ == trim(line@.skip(prefix@.len() as int)),
            None => !starts_with(line@, prefix@),
        },
{
    let p = chars_of(prefix);
    if starts_with_chars(line, p.as_slice()) {
        let rest = slice_of(line, p.len(), line.len());
        assert(rest@ == line@.skip(prefix@.len() as int));
        Some(trim_chars(rest.as_slice()))
    } else {
        None
    }
}

/// The hardware ports `networksetup -listallhardwareports` lists: for each entry that
/// names a device, its kind and device, in order.
pub fn hardware_ports(text: &str) -> (res: Vec<(String, String)>)
    ensures
        pair_views(res@) == hardware_ports_spec(text@),
{
    let cs = chars_of(text);
    let mut ls = lines_of(cs.as_slice());
    let ghost lv0 = views(ls@);
    push_view(&mut ls, Vec::new());
    let ghost lv = views(ls@);
    assert(lv == lines(text@).push(seq![]));
    let mut kind: Vec<char> = Vec::new();
    let mut device: Vec<char> = Vec::new();
    let mut found: Vec<(String, String)> = Vec::new();
    let mut i: usize = 0;
    assert(lv.take(0) == Seq::<Seq<char>>::empty());
    assert(pair_views(found@) == Seq::<(Seq<char>, Seq<char>)>::empty());
    assert(kind@ == Seq::<char>::empty());
    assert(device@ == Seq::<char>::empty());
    while i < ls.len()
        invariant
            i <= ls.len(),
            lv == views(ls@),
            ports_lines(lv.take(i as int)) == (PortsState {
                kind: kind@,
                device: device@,
                found: pair_views(found@),
            }),
        decreases ls.len() - i,
    {
        let line = &ls[i];
        assert(lv[i as int] == line@);
        assert(lv.take(i + 1).drop_last() == lv.take(i as int));
        assert(lv.take(i + 1).last() == line@);
        match after_prefix(line.as_slice(), "Hardware Port: ") {
            Some(v) => {
                kind = v;
            },
            None => {},
        }
        match after_prefix(line.as_slice(), "Device: ") {
            Some(v) => {
                device = v;
            },
            None => {},
        }
        if line.len() == 0 && device.len() > 0 {
            let ghost before = pair_views(found@);
            let k = string_of(kind.as_slice());
            let d = string_of(device.as_slice());
            found.push((k, d));
            assert(pair_views(found@) == before.push((kind@, device@)));
            kind = Vec::new();
            device = Vec::new();
            assert(kind@ == Seq::<char>::empty());
            assert(device@ == Seq::<char>::empty());
        }
        i += 1;
    }
    assert(lv.take(ls.len() as int) == lv);
    found
}

// ---------------------------------------------------------------------------
// Addresses of a device
// ---------------------------------------------------------------------------

/// The address a line of `ifconfig` gives: for a line whose first word is `inet` or
/// `inet6`, its second word up to any `%`.
pub open spec fn line_address(line: Seq<char>) -> Option<Seq<char>> {
    let ws = words(line);
    if ws.len() >= 2 && (ws[0] == "inet"@ || ws[0] == "inet6"@) {
        Some(split_char(ws[1], '%')[0])
    } else {
        None
    }
}

/// The addresses the lines give, in order.
pub open spec fn addresses_of(ls: Seq<Seq<char>>) -> Seq<Seq<char>>
    decreases ls.len(),
{
    if ls.len() == 0 {
        seq![]
    } else {
        match line_address(ls.last()) {
            Some(a) => addresses_of(ls.drop_last()).push(a),
            None => addresses_of(ls.drop_last()),
        }
    }
}

/// The IPv4 and IPv6 addresses `ifconfig` prints for a device, without zone suffixes.
pub fn interface_addresses(body: &str) -> (res: Vec<String>)
    ensures
        crate::text::strs(res@) == addresses_of(lines(body@)),
{
    let cs = chars_of(body);
    let ls = lines_of(cs.as_slice());
    let ghost lv = views(ls@);
    let inet = chars_of("inet");
    let inet6 = chars_of("inet6");
    let mut out: Vec<String> = Vec::new();
    let mut i: usize = 0;
    assert(lv.take(0) == Seq::<Seq<char>>::empty());
    assert(crate::text::strs(out@) == Seq::<Seq<char>>::empty());
    while i < ls.len()
        invariant
            i <= ls.len(),
            lv == views(ls@),
            lv == lines(body@),
            inet@ == "inet"@,
            inet6@ == "inet6"@,
            crate::text::strs(out@) == addresses_of(lv.take(i as int)),
        decreases ls.len() - i,
    {
        let line = &ls[i];
        assert(lv[i as int] == line@);
        assert(lv.take(i + 1).drop_last() == lv.take(i as int));
        assert(lv.take(i + 1).last() == line@);
        let ws = words_of(line.as_slice());
        assert(views(ws@) == words(line@));
        if ws.len() >= 2 {
            assert(views(ws@)[0] == ws@[0]@);
            assert(views(ws@)[1] == ws@[1]@);
            if crate::text::chars_eq(ws[0].as_slice(), inet.as_slice()) || crate::text::chars_eq(
                ws[0].as_slice(),
                inet6.as_slice(),
            ) {
                let parts = split_of(ws[1].as_slice(), '%');
                assert(views(parts@)[0] == parts@[0]@);
                let ghost before = crate::text::strs(out@);
                out.push(string_of(parts[0].as_slice()));
                assert(crate::text::strs(out@) == before.push(parts@[0]@));
            }
        }
        i += 1;
    }
    assert(lv.take(ls.len() as int) == lv);
    out
}

// ---------------------------------------------------------------------------
// Host name
// ---------------------------------------------------------------------------

/// The short host name `hostname -s` printed, trimmed; `本机` when it failed or printed
/// nothing.
pub open spec fn hostname_spec(success: bool, stdout: Seq<u8>) -> Seq<char> {
    if success && trim(utf8_lossy(stdout)).len() > 0 {
        trim(utf8_lossy(stdout))
    } else {
        "本机"@
    }
}

/// The name this machine is shown by.
pub fn hostname_text(success: bool, stdout: &[u8]) -> (res: String)
    ensures
        res@ == hostname_spec(success, stdout@),
{
    if !success {
        return string_of(chars_of("本机").as_slice());
    }
    let text = from_utf8_lossy(stdout);
    let t = crate::text::trim_str(text.as_str());
    if t.len() > 0 {
        string_of(t.as_slice())
    } else {
        string_of(chars_of("本机").as_slice())
    }
}

} // verus!
