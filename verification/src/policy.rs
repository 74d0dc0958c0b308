//! The egress policy: whether a target host may be reached under a whitelist or blacklist.
use crate::calls::{to_lowercase, unicode_lowercase};
use crate::ip::{ip_parse, parse_ip_chars};
use crate::text::{
    ascii_lower, ascii_upper, chars_of, contains_char, ends_with, ends_with_chars, eq_ignore_ascii_case,
    eq_ignore_ascii_case_chars, is_ascii, slice_of, starts_with, starts_with_chars, string_of, strs, trim,
    trim_chars, trim_end_char, trim_end_char_chars, trim_start_char, trim_start_char_chars,
};
use vstd::prelude::*;

verus! {

/// The mode name that turns the rules into a blacklist; any other mode is a whitelist.
pub open spec fn blacklist_mode() -> Seq<char> {
    seq!['b', 'l', 'a', 'c', 'k', 'l', 'i', 's', 't']
}

/// The target as rules are compared with: trailing dots removed, then lower-cased.
pub open spec fn target_key(target: Seq<char>) -> Seq<char> {
    unicode_lowercase(trim_end_char(target, '.'))
}

/// A domain rule as it is compared: whitespace trimmed, trailing and then leading dots
/// removed, lower-cased.
pub open spec fn normalize_rule(rule: Seq<char>) -> Seq<char> {
    unicode_lowercase(trim_start_char(trim_end_char(trim(rule), '.'), '.'))
}

/// `"." + x`.
pub open spec fn dot(x: Seq<char>) -> Seq<char> {
    seq!['.'] + x
}

/// The wildcard prefix `"*."`.
pub open spec fn wildcard() -> Seq<char> {
    seq!['*', '.']
}

/// A normalized domain rule covers the target: `*.base` covers exactly the names one label
/// below `base`; any other rule covers itself and every name below it.
pub open spec fn rule_matches(x: Seq<char>, t: Seq<char>) -> bool {
    if starts_with(x, wildcard()) {
        let base = x.skip(2);
        ends_with(t, dot(base)) && !t.take(t.len() - base.len() - 1).contains('.')
    } else {
        t == x || ends_with(t, dot(x))
    }
}

/// Some rule covers the target. An IP target is compared with each rule as written,
/// ignoring ASCII case; a domain target is matched against each normalized rule.
pub open spec fn rule_hit(rules: Seq<Seq<char>>, target: Seq<char>) -> bool {
    rule_hit_key(rules, target_key(target))
}

/// Some rule covers the target whose key is `t`.
pub open spec fn rule_hit_key(rules: Seq<Seq<char>>, t: Seq<char>) -> bool {
    if ip_parse(t) is Some {
        exists|i: int| 0 <= i < rules.len() && eq_ignore_ascii_case(#[trigger] rules[i], t)
    } else {
        exists|i: int| 0 <= i < rules.len() && rule_matches(normalize_rule(#[trigger] rules[i]), t)
    }
}

/// The policy's answer: a whitelist lets through what the rules cover, a blacklist what
/// they do not.
pub open spec fn allowed_spec(mode: Seq<char>, rules: Seq<Seq<char>>, target: Seq<char>) -> bool {
    allowed_key(mode, rules, target_key(target))
}

/// The policy's answer for the target whose key is `t`.
pub open spec fn allowed_key(mode: Seq<char>, rules: Seq<Seq<char>>, t: Seq<char>) -> bool {
    if mode == blacklist_mode() {
        !rule_hit_key(rules, t)
    } else {
        rule_hit_key(rules, t)
    }
}

/// The key of an ASCII target: trailing dots removed, then ASCII lower-cased (what the
/// Unicode lower-case mapping gives on ASCII text).
pub open spec fn ascii_target_key(target: Seq<char>) -> Seq<char> {
    ascii_lower(trim_end_char(target, '.'))
}

/// Applies the rule list to a target host under `mode` (`"blacklist"` or a whitelist).
pub fn allowed(mode: &str, rules: &[String], target: &str) -> (res: bool)
    ensures
        res == allowed_spec(mode@, strs(rules@), target@),
        is_ascii(target@) ==> res == allowed_key(mode@, strs(rules@), ascii_target_key(target@)),
{
    let hit = rules_hit(rules, target);
    let black: Vec<char> = vec!['b', 'l', 'a', 'c', 'k', 'l', 'i', 's', 't'];
    assert(black@ == blacklist_mode());
    let m = chars_of(mode);
    if crate::text::chars_eq(m.as_slice(), black.as_slice()) {
        !hit
    } else {
        hit
    }
}

/// The lower-cased target with trailing dots removed.
pub fn target_key_chars(target: &str) -> (res: Vec<char>)
    ensures
        res@ == target_key(target@),
        is_ascii(target@) ==> target_key(target@) == ascii_target_key(target@),
{
    let cs = chars_of(target);
    let t = trim_end_char_chars(cs.as_slice(), '.');
    proof {
        lemma_trim_end_char_prefix(target@, '.');
    }
    let s = string_of(t.as_slice());
    let low = to_lowercase(s.as_str());
    chars_of(low.as_str())
}

/// A rule in the form it is matched.
pub fn normalize_rule_chars(rule: &str) -> (res: Vec<char>)
    ensures
        res@ == normalize_rule(rule@),
{
    let cs = chars_of(rule);
    let a = trim_chars(cs.as_slice());
    let b = trim_end_char_chars(a.as_slice(), '.');
    let c = trim_start_char_chars(b.as_slice(), '.');
    let s = string_of(c.as_slice());
    let low = to_lowercase(s.as_str());
    chars_of(low.as_str())
}

/// Whether the normalized rule `x` covers `t`.
pub fn rule_matches_chars(x: &[char], t: &[char]) -> (res: bool)
    ensures
        res == rule_matches(x@, t@),
{
    let star: Vec<char> = vec!['*', '.'];
    assert(star@ == wildcard());
    if starts_with_chars(x, star.as_slice()) {
        let mut dotted: Vec<char> = vec!['.'];
        let base = slice_of(x, 2, x.len());
        assert(base@ == x@.skip(2));
        crate::text::push_all(&mut dotted, base.as_slice());
        assert(dotted@ == dot(base@));
        if !ends_with_chars(t, dotted.as_slice()) {
            return false;
        }
        let head = slice_of(t, 0, t.len() - base.len() - 1);
        assert(head@ == t@.take(t.len() - base.len() - 1));
        !contains_char(head.as_slice(), '.')
    } else {
        if crate::text::chars_eq(t, x) {
            return true;
        }
        let mut dotted: Vec<char> = vec!['.'];
        crate::text::push_all(&mut dotted, x);
        assert(dotted@ == dot(x@));
        ends_with_chars(t, dotted.as_slice())
    }
}

/// Whether some rule covers the target.
pub fn rules_hit(rules: &[String], target: &str) -> (res: bool)
    ensures
        res == rule_hit(strs(rules@), target@),
        is_ascii(target@) ==> target_key(target@) == ascii_target_key(target@),
{
    let t = target_key_chars(target);
    let ghost rs = strs(rules@);
    let is_ip = parse_ip_chars(t.as_slice()).is_some();
    let mut i: usize = 0;
    while i < rules.len()
        invariant
            i <= rules.len(),
            rs == strs(rules@),
            t@ == target_key(target@),
            is_ascii(target@) ==> target_key(target@) == ascii_target_key(target@),
            is_ip == (ip_parse(t@) is Some),
            is_ip ==> forall|j: int| 0 <= j < i ==> !eq_ignore_ascii_case(#[trigger] rs[j], t@),
            !is_ip ==> forall|j: int|
                0 <= j < i ==> !rule_matches(normalize_rule(#[trigger] rs[j]), t@),
        decreases rules.len() - i,
    {
        assert(rs[i as int] == rules@[i as int]@);
        if is_ip {
            let r = chars_of(rules[i].as_str());
            if eq_ignore_ascii_case_chars(r.as_slice(), t.as_slice()) {
                return true;
            }
        } else {
            let x = normalize_rule_chars(rules[i].as_str());
            if rule_matches_chars(x.as_slice(), t.as_slice()) {
                return true;
            }
        }
        i += 1;
    }
    false
}

// ---------------------------------------------------------------------------
// Laws
// ---------------------------------------------------------------------------

/// With the same rules, a blacklist lets through exactly what a whitelist stops.
pub proof fn law_blacklist_is_complement(rules: Seq<Seq<char>>, target: Seq<char>, whitelist_mode: Seq<char>)
    requires
        whitelist_mode != blacklist_mode(),
    ensures
        allowed_spec(blacklist_mode(), rules, target) == !allowed_spec(whitelist_mode, rules, target),
{
}

/// No rules: a whitelist stops every target and a blacklist lets every target through.
pub proof fn law_empty_rules(mode: Seq<char>, target: Seq<char>)
    ensures
        allowed_spec(mode, seq![], target) == (mode == blacklist_mode()),
{
}

/// Adding a rule never uncovers a target: a whitelist only lets more through, a blacklist
/// only stops more.
pub proof fn law_adding_rule_covers_more(rules: Seq<Seq<char>>, rule: Seq<char>, target: Seq<char>)
    requires
        rule_hit(rules, target),
    ensures
        rule_hit(rules.push(rule), target),
{
    let t = target_key(target);
    if ip_parse(t) is Some {
        let i = choose|i: int| 0 <= i < rules.len() && eq_ignore_ascii_case(#[trigger] rules[i], t);
        assert(rules.push(rule)[i] == rules[i]);
    } else {
        let i = choose|i: int|
            0 <= i < rules.len() && rule_matches(normalize_rule(#[trigger] rules[i]), t);
        assert(rules.push(rule)[i] == rules[i]);
    }
}

/// Only which rules are listed matters, not their order or repetition.
pub proof fn law_rule_order_irrelevant(a: Seq<Seq<char>>, b: Seq<Seq<char>>, target: Seq<char>)
    requires
        a.to_set() == b.to_set(),
    ensures
        rule_hit(a, target) == rule_hit(b, target),
{
    assert forall|x: Seq<Seq<char>>, y: Seq<Seq<char>>| x.to_set() == y.to_set() && #[trigger] rule_hit(x, target) implies #[trigger] rule_hit(y, target) by {
        let t = target_key(target);
        if ip_parse(t) is Some {
            let i = choose|i: int| 0 <= i < x.len() && eq_ignore_ascii_case(#[trigger] x[i], t);
            assert(x.to_set().contains(x[i]));
            assert(y.to_set().contains(x[i]));
            let j = choose|j: int| 0 <= j < y.len() && y[j] == x[i];
            assert(eq_ignore_ascii_case(y[j], t));
        } else {
            let i = choose|i: int|
                0 <= i < x.len() && rule_matches(normalize_rule(#[trigger] x[i]), t);
            assert(x.to_set().contains(x[i]));
            assert(y.to_set().contains(x[i]));
            let j = choose|j: int| 0 <= j < y.len() && y[j] == x[i];
            assert(rule_matches(normalize_rule(y[j]), t));
        }
    }
}

/// A plain rule covers its own domain and every name below it.
pub proof fn law_plain_rule_covers_subdomains(x: Seq<char>, label: Seq<char>)
    requires
        !starts_with(x, wildcard()),
    ensures
        rule_matches(x, x),
        rule_matches(x, label + dot(x)),
{
    let t = label + dot(x);
    assert(t.skip(t.len() - dot(x).len()) == dot(x));
}

/// A wildcard rule `*.base` never covers `base` itself, and covers `label.base` exactly
/// when `label` holds no dot.
pub proof fn law_wildcard_one_label(base: Seq<char>, label: Seq<char>)
    ensures
        !rule_matches(wildcard() + base, base),
        rule_matches(wildcard() + base, label + dot(base)) == !label.contains('.'),
{
    let x = wildcard() + base;
    assert(x.take(2) == wildcard());
    assert(x.skip(2) == base);
    let t = label + dot(base);
    assert(t.skip(t.len() - dot(base).len()) == dot(base));
    assert(t.take(t.len() - base.len() - 1) == label);
}


/// Trailing characters removed leave a prefix.
pub proof fn lemma_trim_end_char_prefix(s: Seq<char>, c: char)
    ensures
        trim_end_char(s, c).len() <= s.len(),
        trim_end_char(s, c) == s.take(trim_end_char(s, c).len() as int),
    decreases s.len(),
{
    if s.len() > 0 && s.last() == c {
        lemma_trim_end_char_prefix(s.drop_last(), c);
        assert(s.drop_last().take(trim_end_char(s, c).len() as int) == s.take(
            trim_end_char(s, c).len() as int,
        ));
    } else {
        assert(s.take(s.len() as int) == s);
    }
}

/// Trailing dots are removed the same before and after ASCII upper-casing.
proof fn lemma_trim_dots_upper(s: Seq<char>)
    ensures
        trim_end_char(ascii_upper(s), '.') == ascii_upper(trim_end_char(s, '.')),
    decreases s.len(),
{
    if s.len() > 0 {
        assert(ascii_upper(s).last() == crate::text::ascii_upper_char(s.last()));
        assert(ascii_upper(s).drop_last() == ascii_upper(s.drop_last()));
        if s.last() == '.' {
            lemma_trim_dots_upper(s.drop_last());
        }
    } else {
        assert(ascii_upper(s) == s);
    }
}

/// For an ASCII target, case and one more final dot do not change the answer, and a
/// blacklist lets through exactly what a whitelist stops.
pub proof fn law_allowed_ascii(mode: Seq<char>, whitelist_mode: Seq<char>, rules: Seq<Seq<char>>, target: Seq<char>)
    requires
        is_ascii(target),
        whitelist_mode != blacklist_mode(),
    ensures
        allowed_key(mode, rules, ascii_target_key(ascii_upper(target) + seq!['.'])) == allowed_key(
            mode,
            rules,
            ascii_target_key(target),
        ),
        allowed_key(blacklist_mode(), rules, ascii_target_key(target)) == !allowed_key(
            whitelist_mode,
            rules,
            ascii_target_key(target),
        ),
{
    let u = ascii_upper(target);
    let ud = u + seq!['.'];
    assert(ud.drop_last() == u);
    assert(trim_end_char(ud, '.') == trim_end_char(u, '.'));
    lemma_trim_dots_upper(target);
    let k = trim_end_char(target, '.');
    lemma_trim_end_char_prefix(target, '.');
    assert(ascii_lower(ascii_upper(k)) =~= ascii_lower(k)) by {
        assert forall|j: int| 0 <= j < k.len() implies ascii_lower(ascii_upper(k))[j] == ascii_lower(k)[j] by {
            assert(k[j] == target[j]);
            assert((target[j] as u32) < 128);
        }
    }
}

/// A plain rule reaches only down: a target it covers is the rule itself or ends with a dot
/// followed by the rule, so it is never shorter than the rule and never one of its parents.
pub proof fn law_plain_rule_reaches_only_down(x: Seq<char>, t: Seq<char>)
    requires
        !starts_with(x, wildcard()),
        rule_matches(x, t),
    ensures
        t.len() >= x.len(),
        t == x || (t.len() > x.len() && t[t.len() - x.len() - 1] == '.' && forall|k: int|
            0 <= k < x.len() ==> #[trigger] t[t.len() - x.len() + k] == x[k]),
{
    if t != x {
        let d = dot(x);
        assert(t.skip(t.len() - d.len()) == d);
        assert forall|k: int| 0 <= k < x.len() implies #[trigger] t[t.len() - x.len() + k] == x[k] by {
            assert(t.skip(t.len() - d.len())[k + 1] == d[k + 1]);
        }
        assert(t.skip(t.len() - d.len())[0] == d[0]);
    }
}

/// Under a whitelist of one domain rule that is not a wildcard, a domain target is let
/// through only when its key is the rule or lies below it: its key ends with the rule and
/// is at least as long.
pub proof fn law_whitelist_one_plain_rule(mode: Seq<char>, r: Seq<char>, target: Seq<char>)
    requires
        mode != blacklist_mode(),
        ip_parse(target_key(target)) is None,
        !starts_with(normalize_rule(r), wildcard()),
        allowed_spec(mode, seq![r], target),
    ensures
        target_key(target).len() >= normalize_rule(r).len(),
        target_key(target) == normalize_rule(r) || (target_key(target).len() > normalize_rule(r).len()
            && target_key(target)[target_key(target).len() - normalize_rule(r).len() - 1] == '.'),
{
    let t = target_key(target);
    let i = choose|i: int| 0 <= i < seq![r].len() && rule_matches(normalize_rule(#[trigger] seq![r][i]), t);
    assert(seq![r][i] == r);
    law_plain_rule_reaches_only_down(normalize_rule(r), t);
}

} // verus!
