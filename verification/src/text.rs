//! Character-level text utilities shared by the parsers and the writer.
//!
//! Executable code works on `Vec<char>` while specifications speak of
//! `Seq<char>`; the two are tied together by exact `ensures` clauses.

use vstd::prelude::*;

verus! {

/// Whitespace as the directive grammar understands it (ASCII).
pub open spec fn is_ws_char(c: char) -> bool {
    c == ' ' || c == '\t' || c == '\r' || c == '\n' || c == '\u{b}' || c == '\u{c}'
}

/// Space as the topology grammar understands it: blanks and tabs only.
pub open spec fn is_space_char(c: char) -> bool {
    c == ' ' || c == '\t'
}

/// Characters allowed in a mermaid id and in a directive key.
pub open spec fn is_id_char(c: char) -> bool {
    ('a' <= c && c <= 'z') || ('A' <= c && c <= 'Z') || ('0' <= c && c <= '9') || c == '_'
}

pub open spec fn is_digit_char(c: char) -> bool {
    '0' <= c && c <= '9'
}

/// First index at or after `i` whose character is not whitespace.
pub open spec fn ws_end(s: Seq<char>, i: int) -> int
    decreases s.len() - i,
{
    if 0 <= i < s.len() && is_ws_char(s[i]) {
        ws_end(s, i + 1)
    } else {
        i
    }
}

pub proof fn lemma_ws_end_bounds(s: Seq<char>, i: int)
    requires
        0 <= i <= s.len(),
    ensures
        i <= ws_end(s, i) <= s.len(),
    decreases s.len() - i,
{
    if i < s.len() && is_ws_char(s[i]) {
        lemma_ws_end_bounds(s, i + 1);
    }
}

/// First index at or after `i` whose character is not a blank or tab.
pub open spec fn space_end(s: Seq<char>, i: int) -> int
    decreases s.len() - i,
{
    if 0 <= i < s.len() && is_space_char(s[i]) {
        space_end(s, i + 1)
    } else {
        i
    }
}

pub proof fn lemma_space_end_bounds(s: Seq<char>, i: int)
    requires
        0 <= i <= s.len(),
    ensures
        i <= space_end(s, i) <= s.len(),
    decreases s.len() - i,
{
    if i < s.len() && is_space_char(s[i]) {
        lemma_space_end_bounds(s, i + 1);
    }
}

/// End of the run of id characters starting at `i`.
pub open spec fn id_end(s: Seq<char>, i: int) -> int
    decreases s.len() - i,
{
    if 0 <= i < s.len() && is_id_char(s[i]) {
        id_end(s, i + 1)
    } else {
        i
    }
}

pub proof fn lemma_id_end_bounds(s: Seq<char>, i: int)
    requires
        0 <= i <= s.len(),
    ensures
        i <= id_end(s, i) <= s.len(),
    decreases s.len() - i,
{
    if i < s.len() && is_id_char(s[i]) {
        lemma_id_end_bounds(s, i + 1);
    }
}

/// Start of the trailing whitespace run that ends at `j`.
pub open spec fn ws_start_back(s: Seq<char>, j: int) -> int
    decreases j,
{
    if 0 < j <= s.len() && is_ws_char(s[j - 1]) {
        ws_start_back(s, j - 1)
    } else {
        j
    }
}

/// `s` trimmed of leading and trailing whitespace.
pub open spec fn trim_spec(s: Seq<char>) -> Seq<char> {
    let a = ws_end(s, 0);
    let b = ws_start_back(s, s.len() as int);
    if a <= b {
        s.subrange(a, b)
    } else {
        Seq::empty()
    }
}

/// Does the pattern `p` occur in `s` at position `i`?
pub open spec fn lit_at_spec(s: Seq<char>, p: Seq<char>, i: int) -> bool {
    0 <= i && i + p.len() <= s.len() && s.subrange(i, i + p.len()) == p
}

/// First position at or after `i` where `c` occurs.
pub open spec fn find_char_from(s: Seq<char>, c: char, i: int) -> Option<int>
    decreases s.len() - i,
{
    if i < 0 || i >= s.len() {
        None
    } else if s[i] == c {
        Some(i)
    } else {
        find_char_from(s, c, i + 1)
    }
}

/// First position at or after `i` where the pattern `p` occurs.
pub open spec fn find_lit_from(s: Seq<char>, p: Seq<char>, i: int) -> Option<int>
    decreases s.len() - i,
{
    if i < 0 || i + p.len() > s.len() {
        None
    } else if lit_at_spec(s, p, i) {
        Some(i)
    } else if i < s.len() {
        find_lit_from(s, p, i + 1)
    } else {
        None
    }
}

// ---------------------------------------------------------------------------
// Executable counterparts
// ---------------------------------------------------------------------------

/// Relies on `str::chars`: yields exactly the characters of the string,
/// in order.
#[verifier::external_body]
pub fn chars_vec(s: &str) -> (r: Vec<char>)
    ensures
        r@ == s@,
{
    s.chars().collect()
}

/// Relies on `String as FromIterator<char>`: collecting characters builds
/// the string of exactly those characters, in order.
#[verifier::external_body]
pub fn string_from_chars(v: &Vec<char>) -> (r: String)
    ensures
        r@ == v@,
{
    v.iter().collect()
}

pub fn is_ws(c: char) -> (r: bool)
    ensures
        r == is_ws_char(c),
{
    c == ' ' || c == '\t' || c == '\r' || c == '\n' || c == '\u{b}' || c == '\u{c}'
}

pub fn is_space(c: char) -> (r: bool)
    ensures
        r == is_space_char(c),
{
    c == ' ' || c == '\t'
}

pub fn is_id(c: char) -> (r: bool)
    ensures
        r == is_id_char(c),
{
    ('a' <= c && c <= 'z') || ('A' <= c && c <= 'Z') || ('0' <= c && c <= '9') || c == '_'
}

pub fn is_digit(c: char) -> (r: bool)
    ensures
        r == is_digit_char(c),
{
    '0' <= c && c <= '9'
}

/// Advance past whitespace starting at `i`.
pub fn skip_ws(v: &Vec<char>, i: usize) -> (r: usize)
    requires
        i <= v@.len(),
    ensures
        r == ws_end(v@, i as int),
        i <= r <= v@.len(),
        forall|k: int| i <= k < r ==> is_ws_char(v@[k]),
        r < v@.len() ==> !is_ws_char(v@[r as int]),
{
    let mut j = i;
    while j < v.len() && is_ws(v[j])
        invariant
            i <= j <= v@.len(),
            ws_end(v@, i as int) == ws_end(v@, j as int),
            forall|k: int| i <= k < j ==> is_ws_char(v@[k]),
        decreases v@.len() - j,
    {
        j = j + 1;
    }
    proof {
        lemma_ws_end_bounds(v@, j as int);
    }
    j
}

/// Advance past blanks and tabs starting at `i`.
pub fn skip_space(v: &Vec<char>, i: usize) -> (r: usize)
    requires
        i <= v@.len(),
    ensures
        r == space_end(v@, i as int),
        i <= r <= v@.len(),
        forall|k: int| i <= k < r ==> is_space_char(v@[k]),
        r < v@.len() ==> !is_space_char(v@[r as int]),
{
    let mut j = i;
    while j < v.len() && is_space(v[j])
        invariant
            i <= j <= v@.len(),
            space_end(v@, i as int) == space_end(v@, j as int),
            forall|k: int| i <= k < j ==> is_space_char(v@[k]),
        decreases v@.len() - j,
    {
        j = j + 1;
    }
    proof {
        lemma_space_end_bounds(v@, j as int);
    }
    j
}

/// Advance past id characters starting at `i`.
pub fn skip_id(v: &Vec<char>, i: usize) -> (r: usize)
    requires
        i <= v@.len(),
    ensures
        r == id_end(v@, i as int),
        i <= r <= v@.len(),
        forall|k: int| i <= k < r ==> is_id_char(v@[k]),
        r < v@.len() ==> !is_id_char(v@[r as int]),
{
    let mut j = i;
    while j < v.len() && is_id(v[j])
        invariant
            i <= j <= v@.len(),
            id_end(v@, i as int) == id_end(v@, j as int),
            forall|k: int| i <= k < j ==> is_id_char(v@[k]),
        decreases v@.len() - j,
    {
        j = j + 1;
    }
    proof {
        lemma_id_end_bounds(v@, j as int);
    }
    j
}

/// Copy `v[from..to]` into a fresh vector.
pub fn subvec(v: &Vec<char>, from: usize, to: usize) -> (r: Vec<char>)
    requires
        from <= to <= v@.len(),
    ensures
        r@ == v@.subrange(from as int, to as int),
{
    let mut out: Vec<char> = Vec::new();
    let mut j = from;
    while j < to
        invariant
            from <= j <= to <= v@.len(),
            out@ == v@.subrange(from as int, j as int),
        decreases to - j,
    {
        out.push(v[j]);
        proof {
            assert(out@ =~= v@.subrange(from as int, (j + 1) as int));
        }
        j = j + 1;
    }
    out
}

/// Trim whitespace from both ends.
pub fn trim(v: &Vec<char>) -> (r: Vec<char>)
    ensures
        r@ == trim_spec(v@),
{
    let lo = skip_ws(v, 0);
    let mut hi = v.len();
    while hi > 0 && is_ws(v[hi - 1])
        invariant
            0 <= hi <= v@.len(),
            ws_start_back(v@, v@.len() as int) == ws_start_back(v@, hi as int),
        decreases hi,
    {
        hi = hi - 1;
    }
    if lo <= hi {
        subvec(v, lo, hi)
    } else {
        let r: Vec<char> = Vec::new();
        proof {
            assert(r@ =~= trim_spec(v@));
        }
        r
    }
}

/// Does the literal `p` occur at position `i` of `v`?
pub fn lit_at(v: &Vec<char>, i: usize, p: &str) -> (r: bool)
    requires
        i <= v@.len(),
    ensures
        r == lit_at_spec(v@, p@, i as int),
{
    let n = p.unicode_len();
    if v.len() - i < n {
        proof {
            assert(!(i + p@.len() <= v@.len()));
        }
        return false;
    }
    assert(i + n <= v@.len());
    let mut j: usize = 0;
    while j < n
        invariant
            0 <= j <= n,
            n == p@.len(),
            i + n <= v.len(),
            forall|k: int| 0 <= k < j ==> v@[i + k] == p@[k],
        decreases n - j,
    {
        assert(i + j < v@.len());
        let vc = v[i + j];
        let pc = p.get_char(j);
        if vc != pc {
            proof {
                assert(v@.subrange(i as int, i + p@.len()) != p@) by {
                    assert(v@.subrange(i as int, i + p@.len())[j as int] != p@[j as int]);
                }
            }
            return false;
        }
        j = j + 1;
    }
    proof {
        assert(v@.subrange(i as int, i + p@.len()) =~= p@);
    }
    true
}

/// First occurrence of `c` at or after `i`.
pub fn find_char(v: &Vec<char>, c: char, i: usize) -> (r: Option<usize>)
    requires
        i <= v@.len(),
    ensures
        match r {
            Some(k) => find_char_from(v@, c, i as int) == Some(k as int) && i <= k < v@.len(),
            None => find_char_from(v@, c, i as int) is None,
        },
{
    let mut j = i;
    while j < v.len()
        invariant
            i <= j <= v@.len(),
            find_char_from(v@, c, i as int) == find_char_from(v@, c, j as int),
        decreases v@.len() - j,
    {
        if v[j] == c {
            return Some(j);
        }
        j = j + 1;
    }
    None
}

/// First occurrence of the literal `p` at or after `i`.
pub fn find_lit(v: &Vec<char>, p: &str, i: usize) -> (r: Option<usize>)
    requires
        i <= v@.len(),
    ensures
        match r {
            Some(k) => find_lit_from(v@, p@, i as int) == Some(k as int) && i <= k
                && k + p@.len() <= v@.len() && lit_at_spec(v@, p@, k as int),
            None => find_lit_from(v@, p@, i as int) is None,
        },
{
    let mut j = i;
    loop
        invariant
            i <= j <= v@.len(),
            find_lit_from(v@, p@, i as int) == find_lit_from(v@, p@, j as int),
        decreases v@.len() - j,
    {
        if v.len() - j < p.unicode_len() {
            proof {
                assert(find_lit_from(v@, p@, j as int) is None);
            }
            return None;
        }
        if lit_at(v, j, p) {
            return Some(j);
        }
        proof {
            if p@.len() == 0 {
                assert(v@.subrange(j as int, j as int) =~= p@);
                assert(false);
            }
            assert(j < v@.len());
        }
        j = j + 1;
    }
}

/// A line body without its trailing carriage return, if it has one.
pub open spec fn strip_cr(s: Seq<char>) -> Seq<char> {
    if s.len() > 0 && s.last() == '\r' {
        s.drop_last()
    } else {
        s
    }
}

/// The lines of `s` from position `pos` on, split at newlines, each without
/// its line ending; a trailing newline opens no further empty line.
pub open spec fn lines_from(s: Seq<char>, pos: int) -> Seq<Seq<char>>
    decreases s.len() - pos,
{
    if pos < 0 || pos >= s.len() {
        Seq::empty()
    } else {
        match find_char_from(s, '\n', pos) {
            Some(k) => if pos <= k < s.len() {
                seq![strip_cr(s.subrange(pos, k))] + lines_from(s, k + 1)
            } else {
                Seq::empty()
            },
            None => seq![strip_cr(s.subrange(pos, s.len() as int))],
        }
    }
}

/// The lines of `s`.
pub open spec fn lines_spec(s: Seq<char>) -> Seq<Seq<char>> {
    lines_from(s, 0)
}

/// The character sequences of a sequence of vectors.
pub open spec fn vecvec_view(s: Seq<Vec<char>>) -> Seq<Seq<char>> {
    s.map(|i: int, e: Vec<char>| e@)
}

/// Split into lines.
#[verifier::loop_isolation(false)]
pub fn split_lines(v: &Vec<char>) -> (r: Vec<Vec<char>>)
    ensures
        vecvec_view(r@) == lines_spec(v@),
{
    let mut out: Vec<Vec<char>> = Vec::new();
    let mut pos: usize = 0;
    proof {
        assert(vecvec_view(out@) =~= Seq::<Seq<char>>::empty());
    }
    loop
        invariant
            0 <= pos <= v@.len(),
            lines_spec(v@) == vecvec_view(out@) + lines_from(v@, pos as int),
        decreases v@.len() - pos,
    {
        if pos >= v.len() {
            proof {
                assert(lines_spec(v@) =~= vecvec_view(out@));
            }
            return out;
        }
        match find_char(v, '\n', pos) {
            Some(k) => {
                let mut piece = subvec(v, pos, k);
                if piece.len() > 0 && piece[piece.len() - 1] == '\r' {
                    piece.pop();
                }
                proof {
                    assert(piece@ == strip_cr(v@.subrange(pos as int, k as int)));
                }
                out.push(piece);
                proof {
                    assert(vecvec_view(out@) =~= vecvec_view(out@.drop_last()) + seq![
                        out@.last()@,
                    ]);
                }
                pos = k + 1;
            },
            None => {
                let mut piece = subvec(v, pos, v.len());
                if piece.len() > 0 && piece[piece.len() - 1] == '\r' {
                    piece.pop();
                }
                proof {
                    assert(piece@ == strip_cr(v@.subrange(pos as int, v@.len() as int)));
                }
                out.push(piece);
                proof {
                    assert(vecvec_view(out@) =~= vecvec_view(out@.drop_last()) + seq![
                        out@.last()@,
                    ]);
                    assert(lines_spec(v@) =~= vecvec_view(out@));
                }
                return out;
            },
        }
    }
}

pub open spec fn digit_char(d: int) -> char {
    if d == 0 {
        '0'
    } else if d == 1 {
        '1'
    } else if d == 2 {
        '2'
    } else if d == 3 {
        '3'
    } else if d == 4 {
        '4'
    } else if d == 5 {
        '5'
    } else if d == 6 {
        '6'
    } else if d == 7 {
        '7'
    } else if d == 8 {
        '8'
    } else {
        '9'
    }
}

/// The decimal digits of `n`, empty when `n <= 0`.
pub open spec fn dec_digits(n: int) -> Seq<char>
    decreases n,
{
    if n <= 0 {
        Seq::empty()
    } else {
        dec_digits(n / 10).push(digit_char(n % 10))
    }
}

/// The decimal rendering of a non-negative number.
pub open spec fn dec_nat(n: int) -> Seq<char> {
    if n == 0 {
        seq!['0']
    } else {
        dec_digits(n)
    }
}

/// The decimal rendering of a signed number.
pub open spec fn dec_int(n: int) -> Seq<char> {
    if n < 0 {
        seq!['-'] + dec_nat(-n)
    } else {
        dec_nat(n)
    }
}

pub fn digit_to_char(d: u64) -> (r: char)
    requires
        d < 10,
    ensures
        r == digit_char(d as int),
{
    if d == 0 {
        '0'
    } else if d == 1 {
        '1'
    } else if d == 2 {
        '2'
    } else if d == 3 {
        '3'
    } else if d == 4 {
        '4'
    } else if d == 5 {
        '5'
    } else if d == 6 {
        '6'
    } else if d == 7 {
        '7'
    } else if d == 8 {
        '8'
    } else {
        '9'
    }
}

fn push_dec_digits(dst: &mut Vec<char>, n: u64)
    ensures
        final(dst)@ == old(dst)@ + dec_digits(n as int),
    decreases n,
{
    if n == 0 {
        proof {
            assert(dst@ =~= dst@ + dec_digits(0));
        }
        return;
    }
    push_dec_digits(dst, n / 10);
    dst.push(digit_to_char(n % 10));
    proof {
        assert(dst@ =~= old(dst)@ + dec_digits(n as int));
    }
}

/// Append the decimal rendering of `n`.
pub fn push_dec_u64(dst: &mut Vec<char>, n: u64)
    ensures
        final(dst)@ == old(dst)@ + dec_nat(n as int),
{
    if n == 0 {
        dst.push('0');
        proof {
            assert(dst@ =~= old(dst)@ + dec_nat(0));
        }
    } else {
        push_dec_digits(dst, n);
    }
}

/// Append the decimal rendering of `n`, with a sign when negative.
pub fn push_dec_i64(dst: &mut Vec<char>, n: i64)
    ensures
        final(dst)@ == old(dst)@ + dec_int(n as int),
{
    if n < 0 {
        dst.push('-');
        let m: u64 = ((-(n + 1)) as u64) + 1;
        assert(m == -(n as int));
        push_dec_u64(dst, m);
        proof {
            assert(dst@ =~= old(dst)@ + dec_int(n as int));
        }
    } else {
        push_dec_u64(dst, n as u64);
    }
}

/// Character-wise string equality.
pub fn str_eq(a: &str, b: &str) -> (r: bool)
    ensures
        r == (a@ == b@),
{
    let n = a.unicode_len();
    if n != b.unicode_len() {
        proof {
            assert(a@.len() != b@.len());
        }
        return false;
    }
    let mut j: usize = 0;
    while j < n
        invariant
            0 <= j <= n,
            n == a@.len() == b@.len(),
            forall|k: int| 0 <= k < j ==> a@[k] == b@[k],
        decreases n - j,
    {
        if a.get_char(j) != b.get_char(j) {
            return false;
        }
        j = j + 1;
    }
    proof {
        assert(a@ =~= b@);
    }
    true
}

/// Append the characters of `src` to `dst`.
pub fn push_all(dst: &mut Vec<char>, src: &Vec<char>)
    ensures
        final(dst)@ == old(dst)@ + src@,
{
    let mut j: usize = 0;
    while j < src.len()
        invariant
            0 <= j <= src@.len(),
            dst@ == old(dst)@ + src@.subrange(0, j as int),
        decreases src@.len() - j,
    {
        dst.push(src[j]);
        proof {
            assert(dst@ =~= old(dst)@ + src@.subrange(0, (j + 1) as int));
        }
        j = j + 1;
    }
    proof {
        assert(dst@ =~= old(dst)@ + src@);
    }
}

/// Append the characters of a literal to `dst`.
pub fn push_lit(dst: &mut Vec<char>, p: &str)
    ensures
        final(dst)@ == old(dst)@ + p@,
{
    let n = p.unicode_len();
    let mut j: usize = 0;
    while j < n
        invariant
            0 <= j <= n,
            n == p@.len(),
            dst@ == old(dst)@ + p@.subrange(0, j as int),
        decreases n - j,
    {
        dst.push(p.get_char(j));
        proof {
            assert(dst@ =~= old(dst)@ + p@.subrange(0, (j + 1) as int));
        }
        j = j + 1;
    }
    proof {
        assert(dst@ =~= old(dst)@ + p@);
    }
}

} // verus!
