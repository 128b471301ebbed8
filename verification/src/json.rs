//! A small ordered JSON model for directive bodies.
//!
//! A directive body is an object with string keys, kept in insertion order
//! (last occurrence of a key wins). Scalar members are parsed into plain
//! values; a nested array or object is carried verbatim as a balanced span,
//! so that regeneration reproduces it byte for byte. Strings decode the
//! common escapes and `\u` escapes for ASCII code points; a body using a
//! `\u` escape beyond ASCII is treated as unparseable and dropped, as any
//! malformed body is.

use vstd::prelude::*;

use crate::text::{is_digit, is_digit_char, skip_ws, string_from_chars, subvec, ws_end};

verus! {

/// A member value of a directive body.
#[derive(Debug)]
pub enum JsonValue {
    Null,
    Bool(bool),
    /// The number token exactly as written.
    Num(String),
    /// Decoded string contents.
    Str(String),
    /// A nested array or object, kept verbatim.
    Raw(String),
}

/// The mathematical value of a `JsonValue`.
pub enum JsonValView {
    Null,
    Bool(bool),
    Num(Seq<char>),
    Str(Seq<char>),
    Raw(Seq<char>),
}

impl View for JsonValue {
    type V = JsonValView;

    open spec fn view(&self) -> JsonValView {
        match self {
            JsonValue::Null => JsonValView::Null,
            JsonValue::Bool(b) => JsonValView::Bool(*b),
            JsonValue::Num(t) => JsonValView::Num(t@),
            JsonValue::Str(s) => JsonValView::Str(s@),
            JsonValue::Raw(r) => JsonValView::Raw(r@),
        }
    }
}

impl Clone for JsonValue {
    fn clone(&self) -> (r: Self)
        ensures
            r@ == self@,
    {
        match self {
            JsonValue::Null => JsonValue::Null,
            JsonValue::Bool(b) => JsonValue::Bool(*b),
            JsonValue::Num(t) => JsonValue::Num(t.clone()),
            JsonValue::Str(s) => JsonValue::Str(s.clone()),
            JsonValue::Raw(r) => JsonValue::Raw(r.clone()),
        }
    }
}

/// An ordered object: string keys, insertion order, unique keys.
#[derive(Debug)]
pub struct JsonObject {
    pub entries: Vec<(String, JsonValue)>,
}

/// The mathematical value of an object: its key/value sequence.
pub open spec fn obj_view(entries: Seq<(String, JsonValue)>) -> Seq<(Seq<char>, JsonValView)> {
    entries.map(|i: int, e: (String, JsonValue)| (e.0@, e.1@))
}

impl View for JsonObject {
    type V = Seq<(Seq<char>, JsonValView)>;

    open spec fn view(&self) -> Seq<(Seq<char>, JsonValView)> {
        obj_view(self.entries@)
    }
}

/// Index of the first entry with the given key.
pub open spec fn obj_index_of(m: Seq<(Seq<char>, JsonValView)>, k: Seq<char>) -> Option<int>
    decreases m.len(),
{
    if m.len() == 0 {
        None
    } else if m[0].0 == k {
        Some(0)
    } else {
        match obj_index_of(m.drop_first(), k) {
            Some(i) => Some(i + 1),
            None => None,
        }
    }
}

pub proof fn lemma_obj_index_of(m: Seq<(Seq<char>, JsonValView)>, k: Seq<char>)
    ensures
        match obj_index_of(m, k) {
            Some(i) => 0 <= i < m.len() && m[i].0 == k && forall|j: int|
                0 <= j < i ==> m[j].0 != k,
            None => forall|j: int| 0 <= j < m.len() ==> m[j].0 != k,
        },
    decreases m.len(),
{
    if m.len() > 0 && m[0].0 != k {
        lemma_obj_index_of(m.drop_first(), k);
        match obj_index_of(m.drop_first(), k) {
            Some(i) => {
                assert(m[i + 1] == m.drop_first()[i]);
                assert forall|j: int| 0 <= j < i + 1 implies m[j].0 != k by {
                    if j > 0 {
                        assert(m[j] == m.drop_first()[j - 1]);
                    }
                }
            },
            None => {
                assert forall|j: int| 0 <= j < m.len() implies m[j].0 != k by {
                    if j > 0 {
                        assert(m[j] == m.drop_first()[j - 1]);
                    }
                }
            },
        }
    }
}

/// The value at the given key, if any.
pub open spec fn obj_get_spec(m: Seq<(Seq<char>, JsonValView)>, k: Seq<char>) -> Option<
    JsonValView,
> {
    match obj_index_of(m, k) {
        Some(i) => Some(m[i].1),
        None => None,
    }
}

/// Replace the value at an existing key in place, or append a new entry.
pub open spec fn obj_put_spec(
    m: Seq<(Seq<char>, JsonValView)>,
    k: Seq<char>,
    v: JsonValView,
) -> Seq<(Seq<char>, JsonValView)> {
    match obj_index_of(m, k) {
        Some(i) => m.update(i, (k, v)),
        None => m.push((k, v)),
    }
}

// ---------------------------------------------------------------------------
// Parsing: specification
// ---------------------------------------------------------------------------

pub open spec fn hex_val(c: char) -> Option<int> {
    if '0' <= c && c <= '9' {
        Some((c as u32) as int - ('0' as u32) as int)
    } else if 'a' <= c && c <= 'f' {
        Some((c as u32) as int - ('a' as u32) as int + 10)
    } else if 'A' <= c && c <= 'F' {
        Some((c as u32) as int - ('A' as u32) as int + 10)
    } else {
        None
    }
}

/// String body scan, starting after the opening quote; `acc` holds the
/// decoded contents so far. Returns the decoded contents and the position
/// after the closing quote.
pub open spec fn p_str_body(s: Seq<char>, i: int, acc: Seq<char>) -> Option<(Seq<char>, int)>
    decreases s.len() - i,
{
    if i < 0 || i >= s.len() {
        None
    } else if s[i] == '"' {
        Some((acc, i + 1))
    } else if s[i] == '\\' {
        if i + 1 < s.len() {
            let c = s[i + 1];
            if c == '"' || c == '\\' || c == '/' {
                p_str_body(s, i + 2, acc.push(c))
            } else if c == 'n' {
                p_str_body(s, i + 2, acc.push('\n'))
            } else if c == 'r' {
                p_str_body(s, i + 2, acc.push('\r'))
            } else if c == 't' {
                p_str_body(s, i + 2, acc.push('\t'))
            } else if c == 'b' {
                p_str_body(s, i + 2, acc.push('\u{8}'))
            } else if c == 'f' {
                p_str_body(s, i + 2, acc.push('\u{c}'))
            } else if c == 'u' {
                if i + 6 <= s.len() {
                    match (hex_val(s[i + 2]), hex_val(s[i + 3]), hex_val(s[i + 4]), hex_val(
                        s[i + 5],
                    )) {
                        (Some(h1), Some(h2), Some(h3), Some(h4)) => {
                            let code = h1 * 4096 + h2 * 256 + h3 * 16 + h4;
                            if code < 128 {
                                p_str_body(s, i + 6, acc.push(((code as u8) as char)))
                            } else {
                                None
                            }
                        },
                        _ => None,
                    }
                } else {
                    None
                }
            } else {
                None
            }
        } else {
            None
        }
    } else if (s[i] as u32) < 32 {
        None
    } else {
        p_str_body(s, i + 1, acc.push(s[i]))
    }
}

/// End of the run of decimal digits starting at `i`.
pub open spec fn digit_end(s: Seq<char>, i: int) -> int
    decreases s.len() - i,
{
    if 0 <= i < s.len() && is_digit_char(s[i]) {
        digit_end(s, i + 1)
    } else {
        i
    }
}

pub proof fn lemma_digit_end_bounds(s: Seq<char>, i: int)
    requires
        0 <= i <= s.len(),
    ensures
        i <= digit_end(s, i) <= s.len(),
    decreases s.len() - i,
{
    if i < s.len() && is_digit_char(s[i]) {
        lemma_digit_end_bounds(s, i + 1);
    }
}

/// Number token scan: `-?(0|[1-9][0-9]*)(\.[0-9]+)?([eE][+-]?[0-9]+)?`.
/// Returns the token text and the position after it.
pub open spec fn p_number_spec(s: Seq<char>, i: int) -> Option<(Seq<char>, int)> {
    if !(0 <= i < s.len()) {
        None
    } else {
        let j0 = if s[i] == '-' {
            i + 1
        } else {
            i
        };
        if !(j0 < s.len() && is_digit_char(s[j0])) {
            None
        } else {
            let j1 = if s[j0] == '0' {
                j0 + 1
            } else {
                digit_end(s, j0)
            };
            let j2 = if j1 < s.len() && s[j1] == '.' {
                if j1 + 1 < s.len() && is_digit_char(s[j1 + 1]) {
                    digit_end(s, j1 + 1)
                } else {
                    -1
                }
            } else {
                j1
            };
            if j2 < 0 {
                None
            } else {
                let j3 = if j2 < s.len() && (s[j2] == 'e' || s[j2] == 'E') {
                    let k = if j2 + 1 < s.len() && (s[j2 + 1] == '+' || s[j2 + 1] == '-') {
                        j2 + 2
                    } else {
                        j2 + 1
                    };
                    if k < s.len() && is_digit_char(s[k]) {
                        digit_end(s, k)
                    } else {
                        -1
                    }
                } else {
                    j2
                };
                if j3 < 0 {
                    None
                } else {
                    Some((s.subrange(i, j3), j3))
                }
            }
        }
    }
}

/// Balanced-composite scan. `stack` holds the closers still expected,
/// innermost last; `in_str`/`esc` track string state. Returns the position
/// just after the closer matching the first opener.
pub open spec fn raw_end(
    s: Seq<char>,
    i: int,
    stack: Seq<char>,
    in_str: bool,
    esc: bool,
) -> Option<int>
    decreases s.len() - i,
{
    if i < 0 || i >= s.len() {
        None
    } else {
        let c = s[i];
        if in_str {
            if esc {
                raw_end(s, i + 1, stack, true, false)
            } else if c == '\\' {
                raw_end(s, i + 1, stack, true, true)
            } else if c == '"' {
                raw_end(s, i + 1, stack, false, false)
            } else {
                raw_end(s, i + 1, stack, true, false)
            }
        } else if c == '"' {
            raw_end(s, i + 1, stack, true, false)
        } else if c == '{' {
            raw_end(s, i + 1, stack.push('}'), false, false)
        } else if c == '[' {
            raw_end(s, i + 1, stack.push(']'), false, false)
        } else if c == '}' || c == ']' {
            if stack.len() > 0 && stack.last() == c {
                if stack.len() == 1 {
                    Some(i + 1)
                } else {
                    raw_end(s, i + 1, stack.drop_last(), false, false)
                }
            } else {
                None
            }
        } else {
            raw_end(s, i + 1, stack, false, false)
        }
    }
}


/// A composite value at `i`: an opener, then a balanced span. Returns the
/// verbatim span including both brackets, and the position after it.
pub open spec fn p_raw_spec(s: Seq<char>, i: int) -> Option<(Seq<char>, int)> {
    if 0 <= i < s.len() && (s[i] == '{' || s[i] == '[') {
        let closer = if s[i] == '{' {
            '}'
        } else {
            ']'
        };
        match raw_end(s, i + 1, Seq::empty().push(closer), false, false) {
            Some(j) => Some((s.subrange(i, j), j)),
            None => None,
        }
    } else {
        None
    }
}

/// A single member value at `i`.
pub open spec fn p_value_spec(s: Seq<char>, i: int) -> Option<(JsonValView, int)> {
    if !(0 <= i < s.len()) {
        None
    } else if s[i] == '"' {
        match p_str_body(s, i + 1, Seq::empty()) {
            Some((t, j)) => Some((JsonValView::Str(t), j)),
            None => None,
        }
    } else if s[i] == '-' || is_digit_char(s[i]) {
        match p_number_spec(s, i) {
            Some((t, j)) => Some((JsonValView::Num(t), j)),
            None => None,
        }
    } else if s[i] == '{' || s[i] == '[' {
        match p_raw_spec(s, i) {
            Some((t, j)) => Some((JsonValView::Raw(t), j)),
            None => None,
        }
    } else if crate::text::lit_at_spec(s, "true"@, i) {
        Some((JsonValView::Bool(true), i + 4))
    } else if crate::text::lit_at_spec(s, "false"@, i) {
        Some((JsonValView::Bool(false), i + 5))
    } else if crate::text::lit_at_spec(s, "null"@, i) {
        Some((JsonValView::Null, i + 4))
    } else {
        None
    }
}

/// Members of an object, starting at `i` (just after `{` or a `,`); `acc`
/// holds the entries seen so far, with a later duplicate key replacing the
/// earlier value in place. Returns the entries and the position after `}`.
pub open spec fn p_members(
    s: Seq<char>,
    i: int,
    acc: Seq<(Seq<char>, JsonValView)>,
) -> Option<(Seq<(Seq<char>, JsonValView)>, int)>
    decreases s.len() - i,
{
    if !(0 <= i <= s.len()) {
        None
    } else {
        let a = ws_end(s, i);
        if !(0 <= a < s.len() && s[a] == '"') {
            None
        } else {
            match p_str_body(s, a + 1, Seq::empty()) {
                None => None,
                Some((key, b)) => {
                    let c0 = ws_end(s, b);
                    if !(0 <= c0 < s.len() && s[c0] == ':') {
                        None
                    } else {
                        let d = ws_end(s, c0 + 1);
                        match p_value_spec(s, d) {
                            None => None,
                            Some((val, e)) => {
                                let f = ws_end(s, e);
                                let acc2 = obj_put_spec(acc, key, val);
                                if 0 <= f < s.len() && s[f] == ',' {
                                    if f + 1 > i {
                                        p_members(s, f + 1, acc2)
                                    } else {
                                        None
                                    }
                                } else if 0 <= f < s.len() && s[f] == '}' {
                                    Some((acc2, f + 1))
                                } else {
                                    None
                                }
                            },
                        }
                    }
                },
            }
        }
    }
}

/// An object at `i`: `{`, members, `}`. Returns the entries and the
/// position after the closing brace.
pub open spec fn p_object_spec(s: Seq<char>, i: int) -> Option<
    (Seq<(Seq<char>, JsonValView)>, int),
> {
    if 0 <= i < s.len() && s[i] == '{' {
        let a = ws_end(s, i + 1);
        if 0 <= a < s.len() && s[a] == '}' {
            Some((Seq::empty(), a + 1))
        } else {
            p_members(s, i + 1, Seq::empty())
        }
    } else {
        None
    }
}

/// A directive body: one object covering the whole of `s` but for trailing
/// whitespace.
pub open spec fn body_object_spec(s: Seq<char>) -> Option<Seq<(Seq<char>, JsonValView)>> {
    match p_object_spec(s, 0) {
        Some((m, j)) => if ws_end(s, j) == s.len() {
            Some(m)
        } else {
            None
        },
        None => None,
    }
}

// ---------------------------------------------------------------------------
// Parsing: executable
// ---------------------------------------------------------------------------

pub fn hexv(c: char) -> (r: Option<u8>)
    ensures
        match r {
            Some(h) => hex_val(c) == Some(h as int) && h < 16,
            None => hex_val(c) is None,
        },
{
    if '0' <= c && c <= '9' {
        Some(((c as u32) - ('0' as u32)) as u8)
    } else if 'a' <= c && c <= 'f' {
        Some(((c as u32) - ('a' as u32) + 10) as u8)
    } else if 'A' <= c && c <= 'F' {
        Some(((c as u32) - ('A' as u32) + 10) as u8)
    } else {
        None
    }
}

/// Advance past decimal digits starting at `i`.
pub fn skip_digits(v: &Vec<char>, i: usize) -> (r: usize)
    requires
        i <= v@.len(),
    ensures
        r == digit_end(v@, i as int),
        i <= r <= v@.len(),
        forall|k: int| i <= k < r ==> is_digit_char(v@[k]),
        r < v@.len() ==> !is_digit_char(v@[r as int]),
{
    let mut j = i;
    while j < v.len() && is_digit(v[j])
        invariant
            i <= j <= v@.len(),
            digit_end(v@, i as int) == digit_end(v@, j as int),
            forall|k: int| i <= k < j ==> is_digit_char(v@[k]),
        decreases v@.len() - j,
    {
        j = j + 1;
    }
    proof {
        lemma_digit_end_bounds(v@, j as int);
    }
    j
}

/// Scan a string body starting just after the opening quote.
#[verifier::loop_isolation(false)]
pub fn scan_string(v: &Vec<char>, i: usize) -> (r: Option<(Vec<char>, usize)>)
    requires
        i <= v@.len(),
    ensures
        match r {
            Some(p) => p_str_body(v@, i as int, Seq::empty()) == Some((p.0@, p.1 as int))
                && i < p.1 <= v@.len(),
            None => p_str_body(v@, i as int, Seq::empty()) is None,
        },
{
    let mut pos = i;
    let mut acc: Vec<char> = Vec::new();
    loop
        invariant
            i <= pos <= v.len(),
            p_str_body(v@, i as int, Seq::empty()) == p_str_body(v@, pos as int, acc@),
        decreases v@.len() - pos,
    {
        if pos >= v.len() {
            return None;
        }
        let c = v[pos];
        if c == '"' {
            return Some((acc, pos + 1));
        }
        if c == '\\' {
            if pos + 1 >= v.len() {
                return None;
            }
            let e = v[pos + 1];
            if e == '"' || e == '\\' || e == '/' {
                acc.push(e);
                pos = pos + 2;
            } else if e == 'n' {
                acc.push('\n');
                pos = pos + 2;
            } else if e == 'r' {
                acc.push('\r');
                pos = pos + 2;
            } else if e == 't' {
                acc.push('\t');
                pos = pos + 2;
            } else if e == 'b' {
                acc.push('\u{8}');
                pos = pos + 2;
            } else if e == 'f' {
                acc.push('\u{c}');
                pos = pos + 2;
            } else if e == 'u' {
                if v.len() - pos < 6 {
                    return None;
                }
                let h1 = hexv(v[pos + 2]);
                let h2 = hexv(v[pos + 3]);
                let h3 = hexv(v[pos + 4]);
                let h4 = hexv(v[pos + 5]);
                match (h1, h2, h3, h4) {
                    (Some(a), Some(b), Some(cc), Some(d)) => {
                        let code: u32 = (a as u32) * 4096 + (b as u32) * 256 + (cc as u32) * 16
                            + (d as u32);
                        if code < 128 {
                            acc.push((code as u8) as char);
                            pos = pos + 6;
                        } else {
                            return None;
                        }
                    },
                    _ => {
                        return None;
                    },
                }
            } else {
                return None;
            }
        } else if (c as u32) < 32 {
            return None;
        } else {
            acc.push(c);
            pos = pos + 1;
        }
    }
}

/// Scan a number token starting at `i`.
pub fn scan_number(v: &Vec<char>, i: usize) -> (r: Option<(Vec<char>, usize)>)
    requires
        i <= v@.len(),
    ensures
        match r {
            Some(p) => p_number_spec(v@, i as int) == Some((p.0@, p.1 as int)) && i < p.1
                <= v@.len(),
            None => p_number_spec(v@, i as int) is None,
        },
{
    if i >= v.len() {
        return None;
    }
    let j0 = if v[i] == '-' {
        i + 1
    } else {
        i
    };
    if j0 >= v.len() || !is_digit(v[j0]) {
        return None;
    }
    let j1 = if v[j0] == '0' {
        j0 + 1
    } else {
        skip_digits(v, j0)
    };
    let j2 = if j1 < v.len() && v[j1] == '.' {
        if j1 + 1 < v.len() && is_digit(v[j1 + 1]) {
            skip_digits(v, j1 + 1)
        } else {
            return None;
        }
    } else {
        j1
    };
    let j3 = if j2 < v.len() && (v[j2] == 'e' || v[j2] == 'E') {
        let k = if j2 + 1 < v.len() && (v[j2 + 1] == '+' || v[j2 + 1] == '-') {
            j2 + 2
        } else {
            j2 + 1
        };
        if k < v.len() && is_digit(v[k]) {
            skip_digits(v, k)
        } else {
            return None;
        }
    } else {
        j2
    };
    Some((subvec(v, i, j3), j3))
}

/// Scan a balanced composite (array or object) starting at `i`.
#[verifier::loop_isolation(false)]
pub fn scan_raw(v: &Vec<char>, i: usize) -> (r: Option<(Vec<char>, usize)>)
    requires
        i <= v@.len(),
    ensures
        match r {
            Some(p) => p_raw_spec(v@, i as int) == Some((p.0@, p.1 as int)) && i < p.1 <= v@.len(),
            None => p_raw_spec(v@, i as int) is None,
        },
{
    if i >= v.len() {
        return None;
    }
    let c0 = v[i];
    if !(c0 == '{' || c0 == '[') {
        return None;
    }
    let closer = if c0 == '{' {
        '}'
    } else {
        ']'
    };
    let mut stack: Vec<char> = Vec::new();
    stack.push(closer);
    let ghost stack0 = stack@;
    let mut pos = i + 1;
    let mut in_str = false;
    let mut esc = false;
    loop
        invariant
            i < pos <= v.len(),
            !in_str ==> !esc,
            raw_end(v@, (i + 1) as int, stack0, false, false) == raw_end(
                v@,
                pos as int,
                stack@,
                in_str,
                esc,
            ),
            stack0 == Seq::empty().push(closer),
        decreases v@.len() - pos,
    {
        if pos >= v.len() {
            return None;
        }
        let c = v[pos];
        if in_str {
            if esc {
                esc = false;
            } else if c == '\\' {
                esc = true;
            } else if c == '"' {
                in_str = false;
            }
            pos = pos + 1;
        } else if c == '"' {
            in_str = true;
            pos = pos + 1;
        } else if c == '{' {
            stack.push('}');
            pos = pos + 1;
        } else if c == '[' {
            stack.push(']');
            pos = pos + 1;
        } else if c == '}' || c == ']' {
            if stack.len() > 0 && stack[stack.len() - 1] == c {
                if stack.len() == 1 {
                    return Some((subvec(v, i, pos + 1), pos + 1));
                }
                stack.pop();
                pos = pos + 1;
            } else {
                return None;
            }
        } else {
            pos = pos + 1;
        }
    }
}

/// Scan a single member value starting at `i`.
pub fn scan_value(v: &Vec<char>, i: usize) -> (r: Option<(JsonValue, usize)>)
    requires
        i <= v@.len(),
    ensures
        match r {
            Some(p) => p_value_spec(v@, i as int) == Some((p.0@, p.1 as int)) && i < p.1
                <= v@.len(),
            None => p_value_spec(v@, i as int) is None,
        },
{
    if i >= v.len() {
        return None;
    }
    let c = v[i];
    if c == '"' {
        match scan_string(v, i + 1) {
            Some((t, j)) => Some((JsonValue::Str(string_from_chars(&t)), j)),
            None => None,
        }
    } else if c == '-' || is_digit(c) {
        match scan_number(v, i) {
            Some((t, j)) => Some((JsonValue::Num(string_from_chars(&t)), j)),
            None => None,
        }
    } else if c == '{' || c == '[' {
        match scan_raw(v, i) {
            Some((t, j)) => Some((JsonValue::Raw(string_from_chars(&t)), j)),
            None => None,
        }
    } else if crate::text::lit_at(v, i, "true") {
        proof {
            reveal_strlit("true");
        }
        Some((JsonValue::Bool(true), i + 4))
    } else if crate::text::lit_at(v, i, "false") {
        proof {
            reveal_strlit("false");
        }
        Some((JsonValue::Bool(false), i + 5))
    } else if crate::text::lit_at(v, i, "null") {
        proof {
            reveal_strlit("null");
        }
        Some((JsonValue::Null, i + 4))
    } else {
        None
    }
}

pub proof fn lemma_obj_index_of_is(m: Seq<(Seq<char>, JsonValView)>, k: Seq<char>, ix: int)
    requires
        0 <= ix < m.len(),
        m[ix].0 == k,
        forall|j: int| 0 <= j < ix ==> m[j].0 != k,
    ensures
        obj_index_of(m, k) == Some(ix),
    decreases m.len(),
{
    if ix > 0 {
        assert(m.drop_first()[ix - 1] == m[ix]);
        assert(forall|j: int| 0 <= j < ix - 1 ==> m.drop_first()[j] == m[j + 1]);
        lemma_obj_index_of_is(m.drop_first(), k, ix - 1);
    }
}

/// Replace the value at an existing key in place, or append a new entry.
#[verifier::loop_isolation(false)]
pub fn obj_put(m: &mut Vec<(String, JsonValue)>, key: String, val: JsonValue)
    ensures
        obj_view(final(m)@) == obj_put_spec(obj_view(old(m)@), key@, val@),
{
    let ghost m0 = obj_view(old(m)@);
    let mut ix: usize = 0;
    loop
        invariant
            0 <= ix <= m.len(),
            obj_view(m@) == m0,
            forall|j: int| 0 <= j < ix ==> m0[j].0 != key@,
        decreases m@.len() - ix,
    {
        if ix >= m.len() {
            proof {
                lemma_obj_index_of(m0, key@);
                if obj_index_of(m0, key@) is Some {
                    assert(m0[obj_index_of(m0, key@)->0].0 == key@);
                    assert(false);
                }
            }
            m.push((key, val));
            proof {
                assert(obj_view(m@) =~= obj_put_spec(m0, key@, val@));
            }
            return;
        }
        if crate::text::str_eq(m[ix].0.as_str(), key.as_str()) {
            proof {
                assert(m0[ix as int].0 == m@[ix as int].0@);
                lemma_obj_index_of_is(m0, key@, ix as int);
            }
            m.remove(ix);
            m.insert(ix, (key, val));
            proof {
                assert(obj_view(m@) =~= obj_put_spec(m0, key@, val@));
            }
            return;
        }
        proof {
            assert(m0[ix as int].0 == m@[ix as int].0@);
        }
        ix = ix + 1;
    }
}

/// Scan an object starting at `i`.
#[verifier::loop_isolation(false)]
pub fn scan_object(v: &Vec<char>, i: usize) -> (r: Option<(Vec<(String, JsonValue)>, usize)>)
    requires
        i <= v@.len(),
    ensures
        match r {
            Some(p) => p_object_spec(v@, i as int) == Some((obj_view(p.0@), p.1 as int)) && i < p.1
                <= v@.len(),
            None => p_object_spec(v@, i as int) is None,
        },
{
    if i >= v.len() || v[i] != '{' {
        return None;
    }
    let a = skip_ws(v, i + 1);
    if a < v.len() && v[a] == '}' {
        let empty: Vec<(String, JsonValue)> = Vec::new();
        proof {
            assert(obj_view(empty@) =~= Seq::<(Seq<char>, JsonValView)>::empty());
        }
        return Some((empty, a + 1));
    }
    let mut pos = i + 1;
    let mut acc: Vec<(String, JsonValue)> = Vec::new();
    proof {
        assert(obj_view(acc@) =~= Seq::<(Seq<char>, JsonValView)>::empty());
    }
    loop
        invariant
            i < pos <= v.len(),
            p_members(v@, (i + 1) as int, Seq::empty()) == p_members(
                v@,
                pos as int,
                obj_view(acc@),
            ),
        decreases v@.len() - pos,
    {
        let a2 = skip_ws(v, pos);
        if a2 >= v.len() || v[a2] != '"' {
            return None;
        }
        match scan_string(v, a2 + 1) {
            None => {
                return None;
            },
            Some((kv, b)) => {
                let c0 = skip_ws(v, b);
                if c0 >= v.len() || v[c0] != ':' {
                    return None;
                }
                let d = skip_ws(v, c0 + 1);
                match scan_value(v, d) {
                    None => {
                        return None;
                    },
                    Some((val, e)) => {
                        let f = skip_ws(v, e);
                        let key = string_from_chars(&kv);
                        obj_put(&mut acc, key, val);
                        if f < v.len() && v[f] == ',' {
                            pos = f + 1;
                        } else if f < v.len() && v[f] == '}' {
                            return Some((acc, f + 1));
                        } else {
                            return None;
                        }
                    },
                }
            },
        }
    }
}

/// Parse a whole directive body: one object, nothing after it but
/// whitespace.
pub fn parse_body(v: &Vec<char>) -> (r: Option<JsonObject>)
    ensures
        match r {
            Some(o) => body_object_spec(v@) == Some(o@),
            None => body_object_spec(v@) is None,
        },
{
    match scan_object(v, 0) {
        Some((entries, j)) => {
            let t = skip_ws(v, j);
            if t == v.len() {
                Some(JsonObject { entries })
            } else {
                None
            }
        },
        None => None,
    }
}

impl JsonObject {
    /// The value at the given key, if any.
    pub fn get(&self, key: &str) -> (r: Option<&JsonValue>)
        ensures
            match r {
                Some(val) => obj_get_spec(self@, key@) == Some(val@),
                None => obj_get_spec(self@, key@) is None,
            },
    {
        let mut ix: usize = 0;
        loop
            invariant
                0 <= ix <= self.entries@.len(),
                forall|j: int| 0 <= j < ix ==> self@[j].0 != key@,
            decreases self.entries@.len() - ix,
        {
            if ix >= self.entries.len() {
                proof {
                    lemma_obj_index_of(self@, key@);
                    if obj_index_of(self@, key@) is Some {
                        assert(self@[obj_index_of(self@, key@)->0].0 == key@);
                        assert(false);
                    }
                }
                return None;
            }
            if crate::text::str_eq(self.entries[ix].0.as_str(), key) {
                proof {
                    lemma_obj_index_of_is(self@, key@, ix as int);
                }
                return Some(&self.entries[ix].1);
            }
            ix = ix + 1;
        }
    }

    /// Replace the value at an existing key in place, or append it.
    pub fn set(&mut self, key: String, val: JsonValue)
        ensures
            final(self)@ == obj_put_spec(old(self)@, key@, val@),
    {
        obj_put(&mut self.entries, key, val);
    }
}

// ---------------------------------------------------------------------------
// Number coercion
// ---------------------------------------------------------------------------

/// Saturating decimal accumulation of the digits in `s[i..end]`, capped just
/// above the magnitude of any 32-bit value.
pub open spec fn digits_sat(s: Seq<char>, i: int, end: int, acc: int) -> int
    decreases end - i,
{
    if !(0 <= i < end && i < s.len()) {
        acc
    } else {
        let d = (s[i] as u32) as int - ('0' as u32) as int;
        let acc2 = acc * 10 + d;
        digits_sat(s, i + 1, end, if acc2 > 0x8000_0000 {
            0x8000_0001
        } else {
            acc2
        })
    }
}

/// Saturating accumulation of exponent digits, capped well past any
/// magnitude that matters to a 32-bit result.
pub open spec fn exp_digits_sat(s: Seq<char>, i: int, end: int, acc: int) -> int
    decreases end - i,
{
    if !(0 <= i < end && i < s.len()) {
        acc
    } else {
        let d = (s[i] as u32) as int - ('0' as u32) as int;
        let acc2 = acc * 10 + d;
        exp_digits_sat(s, i + 1, end, if acc2 > 100000 {
            100000
        } else {
            acc2
        })
    }
}

/// A saturated magnitude multiplied by ten, `k` times.
pub open spec fn shift_sat(m: int, k: int) -> int
    decreases k,
{
    if k <= 0 {
        m
    } else {
        let m2 = m * 10;
        shift_sat(if m2 > 0x8000_0000 {
            0x8000_0001
        } else {
            m2
        }, k - 1)
    }
}

/// The coordinate a number token coerces to: its digits shifted by the
/// decimal point and exponent, rounded half away from zero on the first
/// fractional digit, saturated to the 32-bit range.
pub open spec fn num_coerce_spec(t: Seq<char>) -> Option<i32> {
    if t.len() == 0 {
        None
    } else {
        let neg = t[0] == '-';
        let a = if neg {
            1
        } else {
            0
        };
        let b = digit_end(t, a);
        if b <= a {
            None
        } else {
            // fraction digits, if any
            let c = if b < t.len() && t[b] == '.' {
                b + 1
            } else {
                b
            };
            let e = digit_end(t, c);
            if c > b && e <= c {
                None
            } else {
                // exponent, if any
                let expv: Option<int> = if e < t.len() && (t[e] == 'e' || t[e] == 'E') {
                    let g = if e + 1 < t.len() && (t[e + 1] == '+' || t[e + 1] == '-') {
                        e + 2
                    } else {
                        e + 1
                    };
                    let h = digit_end(t, g);
                    if h <= g || h < t.len() {
                        None
                    } else {
                        let ev = exp_digits_sat(t, g, h, 0);
                        Some(
                            if e + 1 < t.len() && t[e + 1] == '-' {
                                -ev
                            } else {
                                ev
                            },
                        )
                    }
                } else if e < t.len() {
                    None
                } else {
                    Some(0)
                };
                match expv {
                    None => None,
                    Some(ev) => {
                        let digits = t.subrange(a, b) + t.subrange(c, e);
                        let p = (b - a) + ev;
                        let ip = if p <= 0 {
                            0
                        } else {
                            let take = if p < digits.len() {
                                p
                            } else {
                                digits.len() as int
                            };
                            let extra = if p > digits.len() {
                                if p - digits.len() > 12 {
                                    12int
                                } else {
                                    p - digits.len()
                                }
                            } else {
                                0int
                            };
                            shift_sat(digits_sat(digits, 0, take, 0), extra)
                        };
                        let rd = if 0 <= p < digits.len() {
                            (digits[p] as u32) as int - ('0' as u32) as int
                        } else {
                            0int
                        };
                        let mag = ip + if rd >= 5 {
                            1int
                        } else {
                            0int
                        };
                        let v = if neg {
                            -mag
                        } else {
                            mag
                        };
                        if v > 0x7fff_ffff {
                            Some(0x7fff_ffffi32)
                        } else if v < -0x8000_0000 {
                            Some(-0x8000_0000i32)
                        } else {
                            Some(v as i32)
                        }
                    },
                }
            }
        }
    }
}

/// The integer a number token yields when read as an unsigned 64-bit value:
/// a plain run of digits in range, nothing else.
pub open spec fn num_u64_spec(t: Seq<char>, i: int, acc: int) -> Option<int>
    decreases t.len() - i,
{
    if !(0 <= i <= t.len()) {
        None
    } else if i == t.len() {
        Some(acc)
    } else if is_digit_char(t[i]) {
        let acc2 = acc * 10 + ((t[i] as u32) as int - ('0' as u32) as int);
        if acc2 > 0xffff_ffff_ffff_ffff {
            None
        } else {
            num_u64_spec(t, i + 1, acc2)
        }
    } else {
        None
    }
}

/// Coerce a number token to a coordinate.
#[verifier::loop_isolation(false)]
#[verifier::rlimit(60)]
pub fn num_coerce(t: &str) -> (r: Option<i32>)
    ensures
        r == num_coerce_spec(t@),
{
    let v = crate::text::chars_vec(t);
    if v.len() == 0 {
        return None;
    }
    let neg = v[0] == '-';
    let a: usize = if neg {
        1
    } else {
        0
    };
    let b = skip_digits(&v, a);
    if b <= a {
        return None;
    }
    let c: usize = if b < v.len() && v[b] == '.' {
        b + 1
    } else {
        b
    };
    let e = skip_digits(&v, c);
    if c > b && e <= c {
        return None;
    }
    let ev: i64 = if e < v.len() && (v[e] == 'e' || v[e] == 'E') {
        let g: usize = if e + 1 < v.len() && (v[e + 1] == '+' || v[e + 1] == '-') {
            e + 2
        } else {
            e + 1
        };
        let h = skip_digits(&v, g);
        if h <= g || h < v.len() {
            return None;
        }
        let mut acc: i64 = 0;
        let mut ix = g;
        while ix < h
            invariant
                g <= ix <= h,
                0 <= acc <= 100000,
                exp_digits_sat(v@, g as int, h as int, 0) == exp_digits_sat(
                    v@,
                    ix as int,
                    h as int,
                    acc as int,
                ),
            decreases h - ix,
        {
            let d: i64 = (((v[ix] as u32) - ('0' as u32)) as i64);
            proof {
                assert(is_digit_char(v@[ix as int]));
                assert(0 <= d < 10);
            }
            let acc2 = acc * 10 + d;
            acc = if acc2 > 100000 {
                100000
            } else {
                acc2
            };
            ix = ix + 1;
        }
        if e + 1 < v.len() && v[e + 1] == '-' {
            -acc
        } else {
            acc
        }
    } else if e < v.len() {
        return None;
    } else {
        0
    };
    // the combined digit string: integer digits then fraction digits
    let mut digits = subvec(&v, a, b);
    let frac = subvec(&v, c, e);
    crate::text::push_all(&mut digits, &frac);
    proof {
        assert(digits@ == v@.subrange(a as int, b as int) + v@.subrange(c as int, e as int));
    }
    let p: i128 = ((b - a) as i128) + (ev as i128);
    let ip: i64 = if p <= 0 {
        0
    } else {
        let take: usize = if p < digits.len() as i128 {
            p as usize
        } else {
            digits.len()
        };
        let mut acc: i64 = 0;
        let mut ix: usize = 0;
        while ix < take
            invariant
                0 <= ix <= take <= digits@.len(),
                0 <= acc <= 0x8000_0001,
                digits_sat(digits@, 0, take as int, 0) == digits_sat(
                    digits@,
                    ix as int,
                    take as int,
                    acc as int,
                ),
            decreases take - ix,
        {
            let d: i64 = (((digits[ix] as u32) - ('0' as u32)) as i64);
            proof {
                assert(is_digit_char(digits@[ix as int]));
                assert(0 <= d < 10);
            }
            let acc2 = acc * 10 + d;
            acc = if acc2 > 0x8000_0000 {
                0x8000_0001
            } else {
                acc2
            };
            ix = ix + 1;
        }
        let extra: i64 = if p > digits.len() as i128 {
            if p - (digits.len() as i128) > 12 {
                12
            } else {
                (p - (digits.len() as i128)) as i64
            }
        } else {
            0
        };
        let mut sh: i64 = 0;
        let mut m = acc;
        while sh < extra
            invariant
                0 <= sh <= (if extra > 0 {
                    extra as int
                } else {
                    0int
                }),
                0 <= m <= 0x8000_0001,
                shift_sat(digits_sat(digits@, 0, take as int, 0), extra as int) == shift_sat(
                    m as int,
                    extra - sh,
                ),
            decreases extra - sh,
        {
            let m2 = m * 10;
            m = if m2 > 0x8000_0000 {
                0x8000_0001
            } else {
                m2
            };
            sh = sh + 1;
        }
        m
    };
    let rd: i64 = if 0 <= p && p < digits.len() as i128 {
        (((digits[p as usize] as u32) - ('0' as u32)) as i64)
    } else {
        0
    };
    proof {
        if 0 <= p && (p as int) < digits@.len() {
            assert(is_digit_char(digits@[p as int]));
        }
    }
    let mag: i64 = ip + (if rd >= 5 {
        1
    } else {
        0
    });
    let sv: i64 = if neg {
        -mag
    } else {
        mag
    };
    if sv > 0x7fff_ffff {
        Some(0x7fff_ffff)
    } else if sv < -0x8000_0000 {
        Some(-0x8000_0000)
    } else {
        Some(sv as i32)
    }
}

/// Read a number token as an unsigned 64-bit value.
#[verifier::loop_isolation(false)]
pub fn num_as_u64(t: &str) -> (r: Option<u64>)
    ensures
        match r {
            Some(n) => num_u64_spec(t@, 0, 0) == Some(n as int),
            None => num_u64_spec(t@, 0, 0) is None,
        },
{
    let v = crate::text::chars_vec(t);
    let mut acc: u64 = 0;
    let mut ix: usize = 0;
    loop
        invariant
            0 <= ix <= v@.len(),
            num_u64_spec(v@, 0, 0) == num_u64_spec(v@, ix as int, acc as int),
        decreases v@.len() - ix,
    {
        if ix >= v.len() {
            return Some(acc);
        }
        if !is_digit(v[ix]) {
            return None;
        }
        let d: u64 = ((v[ix] as u32) - ('0' as u32)) as u64;
        proof {
            assert(0 <= d < 10);
        }
        if acc > 0xffff_ffff_ffff_ffff / 10 || (acc == 0xffff_ffff_ffff_ffff / 10 && d > 0xffff_ffff_ffff_ffff % 10) {
            proof {
                let mx: int = 0xffff_ffff_ffff_ffff;
                assert((acc as int) * 10 + (d as int) > mx) by (nonlinear_arith)
                    requires
                        mx == 0xffff_ffff_ffff_ffff,
                        (acc as int) > mx / 10 || ((acc as int) == mx / 10 && (d as int) > mx
                            % 10),
                        0 <= (d as int) < 10,
                        (acc as int) >= 0,
                ;
            }
            return None;
        }
        proof {
            let mx: int = 0xffff_ffff_ffff_ffff;
            assert((acc as int) * 10 + (d as int) <= mx) by (nonlinear_arith)
                requires
                    mx == 0xffff_ffff_ffff_ffff,
                    !((acc as int) > mx / 10) && !((acc as int) == mx / 10 && (d as int) > mx
                        % 10),
                    0 <= (d as int) < 10,
                    (acc as int) >= 0,
            ;
        }
        acc = acc * 10 + d;
        ix = ix + 1;
    }
}

// ---------------------------------------------------------------------------
// Canonical serialization
// ---------------------------------------------------------------------------

pub open spec fn hex_char(n: int) -> char {
    if n < 10 {
        crate::text::digit_char(n)
    } else if n == 10 {
        'a'
    } else if n == 11 {
        'b'
    } else if n == 12 {
        'c'
    } else if n == 13 {
        'd'
    } else if n == 14 {
        'e'
    } else {
        'f'
    }
}

/// How one character is written inside a JSON string.
pub open spec fn esc_char(c: char) -> Seq<char> {
    if c == '"' {
        seq!['\\', '"']
    } else if c == '\\' {
        seq!['\\', '\\']
    } else if c == '\n' {
        seq!['\\', 'n']
    } else if c == '\r' {
        seq!['\\', 'r']
    } else if c == '\t' {
        seq!['\\', 't']
    } else if c == '\u{8}' {
        seq!['\\', 'b']
    } else if c == '\u{c}' {
        seq!['\\', 'f']
    } else if (c as u32) < 32 {
        seq!['\\', 'u', '0', '0', hex_char(((c as u32) as int) / 16), hex_char(
            ((c as u32) as int) % 16,
        )]
    } else {
        seq![c]
    }
}

/// The escaped form of a string's contents.
pub open spec fn esc_seq(s: Seq<char>, i: int, acc: Seq<char>) -> Seq<char>
    decreases s.len() - i,
{
    if !(0 <= i < s.len()) {
        acc
    } else {
        esc_seq(s, i + 1, acc + esc_char(s[i]))
    }
}

/// The canonical text of one member value.
pub open spec fn ser_value_spec(v: JsonValView) -> Seq<char> {
    match v {
        JsonValView::Null => "null"@,
        JsonValView::Bool(b) => if b {
            "true"@
        } else {
            "false"@
        },
        JsonValView::Num(t) => t,
        JsonValView::Str(s) => seq!['"'] + esc_seq(s, 0, Seq::empty()) + seq!['"'],
        JsonValView::Raw(r) => r,
    }
}

/// The canonical text of the members from `i` on, appended to `acc`.
pub open spec fn ser_entries(
    m: Seq<(Seq<char>, JsonValView)>,
    i: int,
    acc: Seq<char>,
) -> Seq<char>
    decreases m.len() - i,
{
    if !(0 <= i < m.len()) {
        acc
    } else {
        let sep: Seq<char> = if i > 0 {
            seq![',']
        } else {
            Seq::empty()
        };
        ser_entries(
            m,
            i + 1,
            acc + sep + seq!['"'] + esc_seq(m[i].0, 0, Seq::empty()) + seq!['"', ':']
                + ser_value_spec(m[i].1),
        )
    }
}

/// The canonical text of a whole object.
pub open spec fn ser_object_spec(m: Seq<(Seq<char>, JsonValView)>) -> Seq<char> {
    seq!['{'] + ser_entries(m, 0, Seq::empty()) + seq!['}']
}

pub fn hex_to_char(n: u32) -> (r: char)
    requires
        n < 16,
    ensures
        r == hex_char(n as int),
{
    if n < 10 {
        crate::text::digit_to_char(n as u64)
    } else if n == 10 {
        'a'
    } else if n == 11 {
        'b'
    } else if n == 12 {
        'c'
    } else if n == 13 {
        'd'
    } else if n == 14 {
        'e'
    } else {
        'f'
    }
}

/// Append the escaped form of the characters of `s`.
#[verifier::loop_isolation(false)]
pub fn push_escaped(dst: &mut Vec<char>, s: &str)
    ensures
        final(dst)@ == esc_seq(s@, 0, old(dst)@),
{
    let v = crate::text::chars_vec(s);
    let mut ix: usize = 0;
    while ix < v.len()
        invariant
            0 <= ix <= v@.len(),
            esc_seq(s@, 0, old(dst)@) == esc_seq(s@, ix as int, dst@),
        decreases v@.len() - ix,
    {
        let ghost d0 = dst@;
        let c = v[ix];
        if c == '"' {
            dst.push('\\');
            dst.push('"');
        } else if c == '\\' {
            dst.push('\\');
            dst.push('\\');
        } else if c == '\n' {
            dst.push('\\');
            dst.push('n');
        } else if c == '\r' {
            dst.push('\\');
            dst.push('r');
        } else if c == '\t' {
            dst.push('\\');
            dst.push('t');
        } else if c == '\u{8}' {
            dst.push('\\');
            dst.push('b');
        } else if c == '\u{c}' {
            dst.push('\\');
            dst.push('f');
        } else if (c as u32) < 32 {
            dst.push('\\');
            dst.push('u');
            dst.push('0');
            dst.push('0');
            dst.push(hex_to_char((c as u32) / 16));
            dst.push(hex_to_char((c as u32) % 16));
        } else {
            dst.push(c);
        }
        proof {
            assert(dst@ =~= d0 + esc_char(s@[ix as int]));
        }
        ix = ix + 1;
    }
}

/// Append the canonical text of one member value.
pub fn push_value(dst: &mut Vec<char>, v: &JsonValue)
    ensures
        final(dst)@ == old(dst)@ + ser_value_spec(v@),
{
    match v {
        JsonValue::Null => {
            crate::text::push_lit(dst, "null");
        },
        JsonValue::Bool(b) => {
            if *b {
                crate::text::push_lit(dst, "true");
            } else {
                crate::text::push_lit(dst, "false");
            }
        },
        JsonValue::Num(t) => {
            crate::text::push_lit(dst, t.as_str());
        },
        JsonValue::Str(s) => {
            dst.push('"');
            proof {
                assert(dst@ =~= old(dst)@ + seq!['"']);
            }
            push_escaped(dst, s.as_str());
            dst.push('"');
            proof {
                lemma_esc_seq_shift(s@, old(dst)@ + seq!['"']);
                assert(dst@ =~= old(dst)@ + ser_value_spec(v@));
            }
        },
        JsonValue::Raw(r) => {
            crate::text::push_lit(dst, r.as_str());
        },
    }
}

/// Append the canonical text of a whole object.
#[verifier::loop_isolation(false)]
pub fn push_object(dst: &mut Vec<char>, entries: &Vec<(String, JsonValue)>)
    ensures
        final(dst)@ == old(dst)@ + ser_object_spec(obj_view(entries@)),
{
    let ghost m = obj_view(entries@);
    let mut body: Vec<char> = Vec::new();
    let mut ix: usize = 0;
    while ix < entries.len()
        invariant
            0 <= ix <= entries@.len(),
            ser_entries(m, 0, Seq::empty()) == ser_entries(m, ix as int, body@),
        decreases entries@.len() - ix,
    {
        let ghost b0 = body@;
        let ghost sep: Seq<char> = if ix > 0 {
            seq![',']
        } else {
            Seq::empty()
        };
        if ix > 0 {
            body.push(',');
        }
        body.push('"');
        proof {
            assert(body@ =~= b0 + sep + seq!['"']);
        }
        push_escaped(&mut body, entries[ix].0.as_str());
        body.push('"');
        body.push(':');
        push_value(&mut body, &entries[ix].1);
        proof {
            assert(m[ix as int].0 == entries@[ix as int].0@);
            assert(m[ix as int].1 == entries@[ix as int].1@);
            lemma_esc_seq_shift(entries@[ix as int].0@, b0 + sep + seq!['"']);
            assert(body@ =~= b0 + sep + seq!['"'] + esc_seq(m[ix as int].0, 0, Seq::empty())
                + seq!['"', ':'] + ser_value_spec(m[ix as int].1));
        }
        ix = ix + 1;
    }
    dst.push('{');
    crate::text::push_all(dst, &body);
    dst.push('}');
    proof {
        assert(dst@ =~= old(dst)@ + ser_object_spec(m));
    }
}

/// Escaping into a non-empty accumulator appends the same text as escaping
/// into an empty one.
pub proof fn lemma_esc_seq_shift(s: Seq<char>, acc: Seq<char>)
    ensures
        esc_seq(s, 0, acc) == acc + esc_seq(s, 0, Seq::empty()),
{
    lemma_esc_seq_shift_from(s, 0, acc);
    assert(acc =~= acc + Seq::<char>::empty());
}

proof fn lemma_esc_seq_shift_from(s: Seq<char>, i: int, acc: Seq<char>)
    ensures
        esc_seq(s, i, acc) == acc + esc_seq(s, i, Seq::empty()),
    decreases s.len() - i,
{
    if 0 <= i < s.len() {
        lemma_esc_seq_shift_from(s, i + 1, acc + esc_char(s[i]));
        lemma_esc_seq_shift_from(s, i + 1, Seq::<char>::empty() + esc_char(s[i]));
        assert(acc + esc_char(s[i]) + esc_seq(s, i + 1, Seq::empty()) =~= acc + (Seq::<
            char,
        >::empty() + esc_char(s[i]) + esc_seq(s, i + 1, Seq::empty())));
    } else {
        assert(esc_seq(s, i, acc) == acc);
        assert(acc =~= acc + Seq::<char>::empty());
    }
}

impl Clone for JsonObject {
    fn clone(&self) -> (r: Self)
        ensures
            r@ == self@,
    {
        let mut entries: Vec<(String, JsonValue)> = Vec::new();
        let mut ix: usize = 0;
        while ix < self.entries.len()
            invariant
                0 <= ix <= self.entries@.len(),
                entries@.len() == ix,
                forall|j: int| 0 <= j < ix ==> entries@[j].0@ == self.entries@[j].0@
                    && entries@[j].1@ == self.entries@[j].1@,
            decreases self.entries@.len() - ix,
        {
            let k = self.entries[ix].0.clone();
            let v = self.entries[ix].1.clone();
            entries.push((k, v));
            ix = ix + 1;
        }
        proof {
            assert(obj_view(entries@) =~= obj_view(self.entries@));
        }
        JsonObject { entries }
    }
}

} // verus!
