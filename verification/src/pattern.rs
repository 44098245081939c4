//! Verified matchers for the anchored extension micro-patterns: the role
//! suffix `{role}` at the end of a text fragment, the directive header
//! `{name} argument` on a fence language line, and the heading-id trailer
//! `{#id}` at the end of a heading's text.  Each match is anchored exactly as
//! specified; a candidate position wins only if it is the leftmost one.

use vstd::prelude::*;

verus! {

/// Whitespace byte: space, tab, newline, carriage return, vertical tab or
/// form feed.
pub open spec fn is_ws(b: u8) -> bool {
    b == 32 || b == 9 || b == 10 || b == 13 || b == 11 || b == 12
}

/// A byte allowed inside a role, directive name or heading id: anything but
/// `}`, carriage return and newline.
pub open spec fn is_role_char(b: u8) -> bool {
    b != 125 && b != 13 && b != 10
}

/// First index at or after `from` that does not hold a whitespace byte.
pub open spec fn ws_end(t: Seq<u8>, from: int) -> int
    decreases t.len() - from,
{
    if from < t.len() && 0 <= from && is_ws(t[from]) {
        ws_end(t, from + 1)
    } else {
        from
    }
}

/// First index at or after `from` that does not hold a role byte.
pub open spec fn role_end(t: Seq<u8>, from: int) -> int
    decreases t.len() - from,
{
    if from < t.len() && 0 <= from && is_role_char(t[from]) {
        role_end(t, from + 1)
    } else {
        from
    }
}

fn is_ws_byte(b: u8) -> (r: bool)
    ensures
        r == is_ws(b),
{
    b == 32 || b == 9 || b == 10 || b == 13 || b == 11 || b == 12
}

fn is_role_byte(b: u8) -> (r: bool)
    ensures
        r == is_role_char(b),
{
    b != 125 && b != 13 && b != 10
}

/// Scans forward from `from` to the end of the whitespace run.
pub fn ws_end_x(t: &[u8], from: usize) -> (r: usize)
    requires
        from <= t@.len(),
    ensures
        r == ws_end(t@, from as int),
        from <= r <= t@.len(),
{
    let mut i = from;
    while i < t.len() && is_ws_byte(t[i])
        invariant
            from <= i <= t@.len(),
            ws_end(t@, from as int) == ws_end(t@, i as int),
        decreases t@.len() - i,
    {
        i = i + 1;
    }
    i
}

/// Scans forward from `from` to the end of the role-byte run.
pub fn role_end_x(t: &[u8], from: usize) -> (r: usize)
    requires
        from <= t@.len(),
    ensures
        r == role_end(t@, from as int),
        from <= r <= t@.len(),
{
    let mut i = from;
    while i < t.len() && is_role_byte(t[i])
        invariant
            from <= i <= t@.len(),
            role_end(t@, from as int) == role_end(t@, i as int),
        decreases t@.len() - i,
    {
        i = i + 1;
    }
    i
}

/// Whether the role pattern `{role}` matches the suffix of `t` beginning at
/// `p`: an opening brace at `p`, a non-empty run of role bytes, and a closing
/// brace as the very last byte of `t`.
pub open spec fn role_match_at(t: Seq<u8>, p: int) -> bool {
    &&& 0 <= p
    &&& p + 2 < t.len()
    &&& t[p] == 123
    &&& t[t.len() - 1] == 125
    &&& role_end(t, p + 1) == t.len() - 1
}

/// The leftmost position at or after `p` where the role suffix matches.
pub open spec fn role_scan(t: Seq<u8>, p: int) -> Option<int>
    decreases t.len() - p,
{
    if p >= t.len() {
        Option::None
    } else if role_match_at(t, p) {
        Option::Some(p)
    } else {
        role_scan(t, p + 1)
    }
}

/// The leftmost match of the role suffix pattern in `t`.
pub open spec fn role_start(t: Seq<u8>) -> Option<int> {
    role_scan(t, 0)
}

/// A successful role scan really is a match.
pub proof fn lemma_role_scan_match(t: Seq<u8>, from: int)
    requires
        0 <= from,
        role_scan(t, from) is Some,
    ensures
        from <= role_scan(t, from)->Some_0,
        role_match_at(t, role_scan(t, from)->Some_0),
    decreases t.len() - from,
{
    if from >= t.len() {
    } else if role_match_at(t, from) {
    } else {
        lemma_role_scan_match(t, from + 1);
    }
}

fn role_match_at_x(t: &[u8], p: usize) -> (r: bool)
    requires
        p < t@.len(),
    ensures
        r == role_match_at(t@, p as int),
{
    if t.len() < 3 || p >= t.len() - 2 {
        return false;
    }
    if t[p] != 123 || t[t.len() - 1] != 125 {
        return false;
    }
    role_end_x(t, p + 1) == t.len() - 1
}

/// Finds the leftmost match of the role suffix pattern in `t`.
pub fn find_role_suffix(t: &[u8]) -> (r: Option<usize>)
    ensures
        match r {
            Option::Some(p) => role_start(t@) == Option::Some(p as int) && p < t@.len(),
            Option::None => role_start(t@) is None,
        },
{
    let mut p: usize = 0;
    while p < t.len()
        invariant
            p <= t@.len(),
            role_scan(t@, 0) == role_scan(t@, p as int),
        decreases t@.len() - p,
    {
        if role_match_at_x(t, p) {
            return Some(p);
        }
        p = p + 1;
    }
    None
}

/// Whether the heading-id trailer `\s+{#id}\s*` matches the suffix of `t`
/// beginning at `p`: a run of whitespace, `{#`, a non-empty run of role
/// bytes, `}`, and nothing but whitespace up to the end of `t`.
pub open spec fn hid_match_at(t: Seq<u8>, p: int) -> bool {
    let w = ws_end(t, p);
    let j = role_end(t, w + 2);
    &&& 0 <= p < t.len()
    &&& is_ws(t[p])
    &&& w + 1 < t.len()
    &&& t[w] == 123
    &&& t[w + 1] == 35
    &&& j < t.len()
    &&& t[j] == 125
    &&& j > w + 2
    &&& ws_end(t, j + 1) == t.len()
}

/// The leftmost position at or after `p` where the heading-id trailer
/// matches.
pub open spec fn hid_scan(t: Seq<u8>, p: int) -> Option<int>
    decreases t.len() - p,
{
    if p >= t.len() {
        Option::None
    } else if hid_match_at(t, p) {
        Option::Some(p)
    } else {
        hid_scan(t, p + 1)
    }
}

/// The leftmost match of the heading-id trailer pattern in `t`.
pub open spec fn hid_start(t: Seq<u8>) -> Option<int> {
    hid_scan(t, 0)
}

fn hid_match_at_x(t: &[u8], p: usize) -> (r: bool)
    requires
        p < t@.len(),
    ensures
        r == hid_match_at(t@, p as int),
{
    if !is_ws_byte(t[p]) {
        return false;
    }
    let w = ws_end_x(t, p);
    if !(w < t.len() - 1) {
        return false;
    }
    if t[w] != 123 || t[w + 1] != 35 {
        return false;
    }
    let j = role_end_x(t, w + 2);
    if !(j < t.len()) {
        return false;
    }
    if t[j] != 125 || !(j > w + 2) {
        return false;
    }
    ws_end_x(t, j + 1) == t.len()
}

/// Finds the leftmost match of the heading-id trailer in `t`, returning the
/// match position and the id's byte range `[a, b)` within `t`.
pub fn find_heading_id(t: &[u8]) -> (r: Option<(usize, usize, usize)>)
    ensures
        match r {
            Option::Some((p, a, b)) => {
                &&& hid_start(t@) == Option::Some(p as int)
                &&& p < t@.len()
                &&& a == ws_end(t@, p as int) + 2
                &&& b == role_end(t@, a as int)
                &&& a as int <= b as int <= t@.len()
            },
            Option::None => hid_start(t@) is None,
        },
{
    let mut p: usize = 0;
    while p < t.len()
        invariant
            p <= t@.len(),
            hid_scan(t@, 0) == hid_scan(t@, p as int),
        decreases t@.len() - p,
    {
        if hid_match_at_x(t, p) {
            let a = ws_end_x(t, p) + 2;
            let b = role_end_x(t, a);
            return Some((p, a, b));
        }
        p = p + 1;
    }
    None
}

/// No newline byte at or after `from`.
pub open spec fn no_newline_from(t: Seq<u8>, from: int) -> bool {
    forall|k: int| from <= k < t.len() ==> t[k] != 10
}

/// Whether a fence language line is a directive header `{name}` optionally
/// followed by whitespace and an argument: an opening brace first, a
/// non-empty run of role bytes, a closing brace, and then either nothing or
/// a run of whitespace and an argument free of newlines.
pub open spec fn directive_match(l: Seq<u8>) -> bool {
    let j = role_end(l, 1);
    &&& l.len() >= 3
    &&& l[0] == 123
    &&& j < l.len()
    &&& l[j] == 125
    &&& j > 1
    &&& (j == l.len() - 1 || (is_ws(l[j + 1]) && no_newline_from(l, ws_end(l, j + 1))))
}

/// End of the directive name within a matching header: the index of the
/// closing brace.
pub open spec fn directive_name_end(l: Seq<u8>) -> int {
    role_end(l, 1)
}

/// Start of the directive argument within a matching header; equals the
/// line's length when there is no argument.
pub open spec fn directive_arg_start(l: Seq<u8>) -> int {
    let j = role_end(l, 1);
    if j == l.len() - 1 {
        l.len() as int
    } else {
        ws_end(l, j + 1)
    }
}

fn no_newline_from_x(t: &[u8], from: usize) -> (r: bool)
    requires
        from <= t@.len(),
    ensures
        r == no_newline_from(t@, from as int),
{
    let mut i = from;
    while i < t.len()
        invariant
            from <= i <= t@.len(),
            forall|k: int| from <= k < i ==> t@[k] != 10,
        decreases t@.len() - i,
    {
        if t[i] == 10 {
            return false;
        }
        i = i + 1;
    }
    true
}

/// Matches the directive header pattern against a fence language line,
/// returning the name's end index and the argument's start index.
pub fn match_directive(l: &[u8]) -> (r: Option<(usize, usize)>)
    ensures
        match r {
            Option::Some((j, a)) => {
                &&& directive_match(l@)
                &&& j == directive_name_end(l@)
                &&& a == directive_arg_start(l@)
                &&& 1 < j as int
                &&& (j as int) < l@.len()
                &&& (j as int) < a as int
                &&& a as int <= l@.len()
            },
            Option::None => !directive_match(l@),
        },
{
    if l.len() < 3 || l[0] != 123 {
        return None;
    }
    let j = role_end_x(l, 1);
    if !(j < l.len()) || l[j] != 125 || !(j > 1) {
        return None;
    }
    if j == l.len() - 1 {
        return Some((j, l.len()));
    }
    if !is_ws_byte(l[j + 1]) {
        return None;
    }
    let a = ws_end_x(l, j + 1);
    if !no_newline_from_x(l, a) {
        return None;
    }
    Some((j, a))
}

} // verus!
