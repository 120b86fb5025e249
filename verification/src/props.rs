use vstd::prelude::*;
use vstd::string::{StrSliceExecFns, StringExecFns};

verus! {

/// An ASCII control character (code below 32, or delete): it terminates a
/// property value.
pub open spec fn is_ctl(c: char) -> bool {
    (c as u32) < 32 || c as u32 == 127
}

/// A Unicode whitespace character.
pub open spec fn is_ws(c: char) -> bool {
    let u = c as u32;
    u == 32 || (9 <= u <= 13) || u == 0x85 || u == 0xa0 || u == 0x1680 || (0x2000 <= u <= 0x200a)
        || u == 0x2028 || u == 0x2029 || u == 0x202f || u == 0x205f || u == 0x3000
}

/// A separator between a key and its value: `=`, `:`, or non-newline
/// whitespace.
pub open spec fn is_sep(c: char) -> bool {
    c == '=' || c == ':' || (is_ws(c) && c != '\n')
}

/// The pattern occurs in `s` at position `i`.
pub open spec fn match_at(s: Seq<char>, pat: Seq<char>, i: int) -> bool {
    0 <= i && i + pat.len() <= s.len() && (forall|k: int| 0 <= k < pat.len() ==> s[i + k] == pat[k])
}

/// `i` is the first position where the pattern occurs.
pub open spec fn found_first(s: Seq<char>, pat: Seq<char>, i: int) -> bool {
    match_at(s, pat, i) && (forall|j: int| 0 <= j < i ==> !match_at(s, pat, j))
}

/// `e` is the position of the first control character at or after `start`
/// (or the end of the text when there is none).
pub open spec fn ctl_end(s: Seq<char>, start: int, e: int) -> bool {
    start <= e <= s.len() && (forall|j: int| start <= j < e ==> !is_ctl(s[j])) && (e == s.len()
        || is_ctl(s[e]))
}

/// `v` is the first non-separator position in `[from, end)` (or `end`).
pub open spec fn value_start(s: Seq<char>, from: int, end: int, v: int) -> bool {
    from <= v <= end && (forall|j: int| from <= j < v ==> is_sep(s[j])) && (v == end || !is_sep(
        s[v],
    ))
}

/// Where a key's value sits in the text: after the first occurrence of the
/// key, separators skipped, running to the first control character.
pub open spec fn find_field_spec(s: Seq<char>, f: Seq<char>) -> Option<(int, int)> {
    if exists|i: int| match_at(s, f, i) {
        let start = choose|start: int| found_first(s, f, start);
        let ve = choose|e: int| ctl_end(s, start, e);
        let from = start + f.len();
        let vs = if from >= ve {
            ve
        } else {
            choose|v: int| value_start(s, from, ve, v)
        };
        Some((vs, ve))
    } else {
        None
    }
}

/// The first non-whitespace position of the text (or its length).
pub open spec fn trim_lead(s: Seq<char>, a: int) -> bool {
    0 <= a <= s.len() && (forall|j: int| 0 <= j < a ==> is_ws(s[j])) && (a == s.len() || !is_ws(
        s[a],
    ))
}

/// One past the last non-whitespace position of the text (or zero).
pub open spec fn trim_trail(s: Seq<char>, b: int) -> bool {
    0 <= b <= s.len() && (forall|j: int| b <= j < s.len() ==> is_ws(s[j])) && (b == 0 || !is_ws(
        s[b - 1],
    ))
}

/// The text with leading and trailing whitespace removed.
pub open spec fn trim_spec(s: Seq<char>) -> Seq<char> {
    let a = choose|a: int| trim_lead(s, a);
    let b = choose|b: int| trim_trail(s, b);
    if a >= b {
        Seq::empty()
    } else {
        s.subrange(a, b)
    }
}

/// The text after deleting the field that starts at the key's first
/// occurrence and runs to the first control character, the remainder
/// re-joined and trimmed.
pub open spec fn delete_field_spec(s: Seq<char>, f: Seq<char>) -> Seq<char> {
    if exists|i: int| match_at(s, f, i) {
        let start = choose|start: int| found_first(s, f, start);
        let e = choose|e: int| ctl_end(s, start, e);
        trim_spec(s.take(start) + s.skip(e))
    } else {
        s
    }
}

pub proof fn lemma_found_first_unique(s: Seq<char>, pat: Seq<char>, i1: int, i2: int)
    requires
        found_first(s, pat, i1),
        found_first(s, pat, i2),
    ensures
        i1 == i2,
{
}

proof fn lemma_ctl_end_unique(s: Seq<char>, start: int, e1: int, e2: int)
    requires
        ctl_end(s, start, e1),
        ctl_end(s, start, e2),
    ensures
        e1 == e2,
{
    if e1 < e2 {
        assert(!is_ctl(s[e1]));
    } else if e2 < e1 {
        assert(!is_ctl(s[e2]));
    }
}

proof fn lemma_value_start_unique(s: Seq<char>, from: int, end: int, v1: int, v2: int)
    requires
        value_start(s, from, end, v1),
        value_start(s, from, end, v2),
    ensures
        v1 == v2,
{
    if v1 < v2 {
        assert(is_sep(s[v1]));
    } else if v2 < v1 {
        assert(is_sep(s[v2]));
    }
}

proof fn lemma_trim_lead_unique(s: Seq<char>, a1: int, a2: int)
    requires
        trim_lead(s, a1),
        trim_lead(s, a2),
    ensures
        a1 == a2,
{
    if a1 < a2 {
        assert(is_ws(s[a1]));
    } else if a2 < a1 {
        assert(is_ws(s[a2]));
    }
}

proof fn lemma_trim_trail_unique(s: Seq<char>, b1: int, b2: int)
    requires
        trim_trail(s, b1),
        trim_trail(s, b2),
    ensures
        b1 == b2,
{
    if b1 < b2 {
        assert(is_ws(s[b2 - 1]));
    } else if b2 < b1 {
        assert(is_ws(s[b1 - 1]));
    }
}

/// Whether a character terminates a property value.
fn is_ctl_char(c: char) -> (r: bool)
    ensures
        r == is_ctl(c),
{
    let u = c as u32;
    u < 32 || u == 127
}

/// Whether a character is whitespace.
fn is_ws_char(c: char) -> (r: bool)
    ensures
        r == is_ws(c),
{
    let u = c as u32;
    u == 32 || (9 <= u && u <= 13) || u == 0x85 || u == 0xa0 || u == 0x1680 || (0x2000 <= u && u
        <= 0x200a) || u == 0x2028 || u == 0x2029 || u == 0x202f || u == 0x205f || u == 0x3000
}

/// Whether a character separates a key from its value.
fn is_sep_char(c: char) -> (r: bool)
    ensures
        r == is_sep(c),
{
    c == '=' || c == ':' || (is_ws_char(c) && c != '\n')
}

/// The first occurrence of `pat` in `s`, by character position.
pub fn find_str(s: &str, pat: &str) -> (r: Option<usize>)
    ensures
        (match r {
            Some(i) => found_first(s@, pat@, i as int),
            None => forall|j: int| !match_at(s@, pat@, j),
        }),
{
    let n = s.unicode_len();
    let m = pat.unicode_len();
    if m > n {
        assert(forall|j: int| !match_at(s@, pat@, j));
        return None;
    }
    if m == 0 {
        assert(match_at(s@, pat@, 0));
        return Some(0);
    }
    let mut i: usize = 0;
    while i <= n - m
        invariant
            0 < m <= n == s@.len(),
            m == pat@.len(),
            0 <= i <= n - m + 1,
            forall|j: int| 0 <= j < i ==> !match_at(s@, pat@, j),
        decreases n - m + 1 - i,
    {
        let mut k: usize = 0;
        let mut matched = true;
        while k < m && matched
            invariant
                0 < m <= n == s@.len(),
                m == pat@.len(),
                0 <= i <= n - m,
                0 <= k <= m,
                matched ==> forall|k2: int| 0 <= k2 < k ==> s@[i + k2] == pat@[k2],
                !matched ==> !match_at(s@, pat@, i as int),
            decreases m - k + (if matched { 1int } else { 0 }),
        {
            if s.get_char(i + k) != pat.get_char(k) {
                matched = false;
            } else {
                k += 1;
            }
        }
        if matched {
            return Some(i);
        }
        i += 1;
    }
    assert(forall|j: int| !match_at(s@, pat@, j)) by {
        assert(forall|j: int| j > n - m ==> !match_at(s@, pat@, j));
    }
    None
}

/// The position of the first control character at or after `start`.
fn scan_ctl_end(s: &str, start: usize) -> (e: usize)
    requires
        start <= s@.len(),
    ensures
        ctl_end(s@, start as int, e as int),
{
    let n = s.unicode_len();
    let mut e: usize = start;
    while e < n
        invariant
            start <= e <= n == s@.len(),
            forall|j: int| start <= j < e ==> !is_ctl(s@[j]),
        decreases n - e,
    {
        if is_ctl_char(s.get_char(e)) {
            return e;
        }
        e += 1;
    }
    e
}

/// The first non-whitespace position (for the leading side of a trim).
fn scan_trim_lead(s: &str) -> (a: usize)
    ensures
        trim_lead(s@, a as int),
{
    let n = s.unicode_len();
    let mut a: usize = 0;
    while a < n
        invariant
            0 <= a <= n == s@.len(),
            forall|j: int| 0 <= j < a ==> is_ws(s@[j]),
        decreases n - a,
    {
        if !is_ws_char(s.get_char(a)) {
            return a;
        }
        a += 1;
    }
    a
}

/// One past the last non-whitespace position (for the trailing side).
fn scan_trim_trail(s: &str) -> (b: usize)
    ensures
        trim_trail(s@, b as int),
{
    let n = s.unicode_len();
    let mut b: usize = n;
    while b > 0
        invariant
            0 <= b <= n == s@.len(),
            forall|j: int| b <= j < n ==> is_ws(s@[j]),
        decreases b,
    {
        if !is_ws_char(s.get_char(b - 1)) {
            return b;
        }
        b -= 1;
    }
    b
}

/// The text with leading and trailing whitespace removed.
fn trim_str(s: &str) -> (r: String)
    ensures
        r@ == trim_spec(s@),
{
    let a = scan_trim_lead(s);
    let b = scan_trim_trail(s);
    proof {
        lemma_trim_lead_unique(s@, a as int, choose|x: int| trim_lead(s@, x));
        lemma_trim_trail_unique(s@, b as int, choose|x: int| trim_trail(s@, x));
    }
    if a >= b {
        let r = String::new();
        proof {
            assert(r@ =~= trim_spec(s@));
        }
        r
    } else {
        let piece = s.substring_char(a, b);
        piece.to_owned()
    }
}

/// Locates a key's value in a property text: `Some((value_start, value_end))`
/// character positions when the key occurs, else `None`. The value begins
/// after the key and any separators, and ends at the first control character.
pub fn properties_find_field(properties: &str, field: &str) -> (r: Option<(usize, usize)>)
    ensures
        (match r {
            Some((vs, ve)) => find_field_spec(properties@, field@) == Some(
                (vs as int, ve as int),
            ) && vs <= ve <= properties@.len(),
            None => find_field_spec(properties@, field@) is None,
        }),
{
    let s_len = properties.unicode_len();
    match find_str(properties, field) {
        None => None,
        Some(start) => {
            let ve = scan_ctl_end(properties, start);
            let from = start + field.unicode_len();
            let mut vs: usize;
            if from >= ve {
                vs = ve;
            } else {
                vs = from;
                let mut stopped = false;
                while vs < ve && !stopped
                    invariant
                        from <= vs <= ve <= properties@.len(),
                        forall|j: int| from <= j < vs ==> is_sep(properties@[j]),
                        stopped ==> vs < ve && !is_sep(properties@[vs as int]),
                    decreases ve - vs + (if stopped { 0int } else { 1 }),
                {
                    if !is_sep_char(properties.get_char(vs)) {
                        stopped = true;
                    } else {
                        vs += 1;
                    }
                }
                proof {
                    assert(value_start(properties@, from as int, ve as int, vs as int));
                }
            }
            proof {
                let s = properties@;
                let f = field@;
                assert(match_at(s, f, start as int));
                let c_start = choose|x: int| found_first(s, f, x);
                lemma_found_first_unique(s, f, start as int, c_start);
                let c_ve = choose|e: int| ctl_end(s, c_start, e);
                lemma_ctl_end_unique(s, c_start, ve as int, c_ve);
                if from < ve {
                    let c_vs = choose|v: int| value_start(s, from as int, ve as int, v);
                    lemma_value_start_unique(s, from as int, ve as int, vs as int, c_vs);
                }
            }
            Some((vs, ve))
        },
    }
}

/// Returns the trimmed-boundary value of a key: the text between the key's
/// separators and the first control character, or `None` when the key is
/// absent.
pub fn properties_get_field<'a>(properties: &'a str, field: &str) -> (r: Option<&'a str>)
    ensures
        (match r {
            Some(v) => find_field_spec(properties@, field@) matches Some((vs, ve)) && v@
                == properties@.subrange(vs, ve),
            None => find_field_spec(properties@, field@) is None,
        }),
{
    match properties_find_field(properties, field) {
        Some((vs, ve)) => Some(properties.substring_char(vs, ve)),
        None => None,
    }
}

/// Deletes a key and its value: the text from the key's first occurrence to
/// the first control character is cut out, and the remainder is re-joined and
/// trimmed. Absent keys leave the text unchanged.
pub fn properties_delete_field(properties: &mut String, field: &str)
    ensures
        final(properties)@ == delete_field_spec(old(properties)@, field@),
{
    let found = find_str(properties.as_str(), field);
    match found {
        None => {},
        Some(start) => {
            let e = scan_ctl_end(properties.as_str(), start);
            let n = properties.as_str().unicode_len();
            let head = properties.as_str().substring_char(0, start);
            let mut joined = head.to_owned();
            let tail = properties.as_str().substring_char(e, n);
            joined.append(tail);
            proof {
                let s = old(properties)@;
                let f = field@;
                assert(match_at(s, f, start as int));
                let c_start = choose|x: int| found_first(s, f, x);
                lemma_found_first_unique(s, f, start as int, c_start);
                let c_e = choose|x: int| ctl_end(s, c_start, x);
                lemma_ctl_end_unique(s, c_start, e as int, c_e);
                assert(joined@ =~= s.take(start as int) + s.skip(e as int));
            }
            *properties = trim_str(joined.as_str());
        },
    }
}

/// Sets a key's value: an existing value is replaced in place; an absent key
/// is appended as a new `key=value` line; an empty value deletes the key.
pub fn properties_update_field(properties: &mut String, field: &str, val: &str)
    ensures
        val@.len() == 0 ==> final(properties)@ == delete_field_spec(old(properties)@, field@),
        val@.len() > 0 && old(properties)@.len() == 0 ==> final(properties)@ == field@ + "="@
            + val@,
        val@.len() > 0 && old(properties)@.len() > 0 ==> (match find_field_spec(
            old(properties)@,
            field@,
        ) {
            Some((vs, ve)) => final(properties)@ == old(properties)@.take(vs) + val@ + old(
                properties,
            )@.skip(ve),
            None => final(properties)@ == old(properties)@ + "\n"@ + field@ + "="@ + val@,
        }),
{
    if val.unicode_len() == 0 {
        properties_delete_field(properties, field);
    } else if properties.as_str().unicode_len() == 0 {
        let mut out = field.to_owned();
        out.append("=");
        out.append(val);
        *properties = out;
    } else {
        match properties_find_field(properties.as_str(), field) {
            Some((vs, ve)) => {
                let n = properties.as_str().unicode_len();
                let mut out = properties.as_str().substring_char(0, vs).to_owned();
                out.append(val);
                let tail = properties.as_str().substring_char(ve, n);
                out.append(tail);
                proof {
                    assert(out@ =~= old(properties)@.take(vs as int) + val@ + old(
                        properties,
                    )@.skip(ve as int));
                }
                *properties = out;
            },
            None => {
                let mut out = properties.as_str().to_owned();
                out.append("\n");
                out.append(field);
                out.append("=");
                out.append(val);
                *properties = out;
            },
        }
    }
}

/// Adds a bare flag line when the flag is not yet present.
pub fn properties_set_flag(properties: &mut String, flag: &str)
    ensures
        (match find_field_spec(old(properties)@, flag@) {
            Some(_) => final(properties)@ == old(properties)@,
            None => final(properties)@ == old(properties)@ + "\n"@ + flag@,
        }),
{
    let found = properties_find_field(properties.as_str(), flag);
    if found.is_none() {
        let mut out = properties.as_str().to_owned();
        out.append("\n");
        out.append(flag);
        *properties = out;
    }
}

/// Removes a flag line (the same cut-and-rejoin as deleting a field).
pub fn properties_remove_flag(properties: &mut String, flag: &str)
    ensures
        final(properties)@ == delete_field_spec(old(properties)@, flag@),
{
    properties_delete_field(properties, flag);
}

} // verus!
