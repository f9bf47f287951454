//! Character-sequence utilities: case-insensitive comparison, ordinal
//! (code-point) ordering, substring search and replacement, HTML escaping.
//!
//! All algorithms work on `Vec<char>` so that every step is verified;
//! the conversions to and from `String` are the only trusted parts.

use vstd::prelude::*;

verus! {

/// Relies on str::chars: yields exactly the characters of the string, in order.
#[verifier::external_body]
pub fn str_chars(s: &str) -> (r: Vec<char>)
    ensures
        r@ == s@,
{
    s.chars().collect()
}

/// Relies on String::from_iter over chars: builds the string of exactly
/// those characters, in order.
#[verifier::external_body]
pub fn chars_string(v: &Vec<char>) -> (r: String)
    ensures
        r@ == v@,
{
    v.iter().collect()
}

/// The code point of `c`, with ASCII upper-case letters folded to lower case.
pub open spec fn spec_lower_code(c: char) -> u32 {
    if 65 <= c as u32 && c as u32 <= 90 {
        (c as u32 + 32) as u32
    } else {
        c as u32
    }
}

/// Case-insensitive equality of two characters (ASCII letters only).
pub open spec fn char_eq_nocase(a: char, b: char) -> bool {
    spec_lower_code(a) == spec_lower_code(b)
}

/// Case-insensitive equality of two character sequences (ASCII letters only).
pub open spec fn seq_eq_nocase(a: Seq<char>, b: Seq<char>) -> bool {
    a.len() == b.len() && (forall|i: int| 0 <= i < a.len() ==> char_eq_nocase(a[i], b[i]))
}

pub fn chars_eq_nocase(a: &Vec<char>, b: &Vec<char>) -> (r: bool)
    ensures
        r == seq_eq_nocase(a@, b@),
{
    if a.len() != b.len() {
        return false;
    }
    let mut i: usize = 0;
    while i < a.len()
        invariant
            i <= a.len(),
            a@.len() == b@.len(),
            forall|j: int| 0 <= j < i ==> char_eq_nocase(a@[j], b@[j]),
        decreases a.len() - i,
    {
        let ca = a[i] as u32;
        let cb = b[i] as u32;
        let la = if 65 <= ca && ca <= 90 { ca + 32 } else { ca };
        let lb = if 65 <= cb && cb <= 90 { cb + 32 } else { cb };
        if la != lb {
            return false;
        }
        i += 1;
    }
    true
}

/// Ordinal (code-point) order of two character sequences, compared from
/// position `i` on: the order Rust gives `str` and `String`.
pub open spec fn lex_lt_from(a: Seq<char>, b: Seq<char>, i: int) -> bool
    decreases b.len() - i,
{
    if i < 0 || i >= b.len() {
        false
    } else if i >= a.len() {
        true
    } else if a[i] != b[i] {
        (a[i] as u32) < (b[i] as u32)
    } else {
        lex_lt_from(a, b, i + 1)
    }
}

pub open spec fn lex_lt(a: Seq<char>, b: Seq<char>) -> bool {
    lex_lt_from(a, b, 0)
}

pub open spec fn lex_le(a: Seq<char>, b: Seq<char>) -> bool {
    !lex_lt(b, a)
}

pub fn chars_lt(a: &Vec<char>, b: &Vec<char>) -> (r: bool)
    ensures
        r == lex_lt(a@, b@),
{
    let mut i: usize = 0;
    loop
        invariant
            i <= a.len(),
            i <= b.len(),
            forall|j: int| 0 <= j < i ==> a@[j] == b@[j],
            lex_lt(a@, b@) == lex_lt_from(a@, b@, i as int),
        decreases b.len() - i,
    {
        if i >= b.len() {
            return false;
        }
        if i >= a.len() {
            return true;
        }
        if a[i] != b[i] {
            return (a[i] as u32) < (b[i] as u32);
        }
        i += 1;
    }
}

/// Distinct characters have distinct code points.
proof fn lemma_char_code_inj(a: char, b: char)
    requires
        a as u32 == b as u32,
    ensures
        a == b,
{
    vstd::utf8::char_u32_cast(a, a as u32);
    vstd::utf8::char_u32_cast(b, b as u32);
}

pub proof fn lemma_lex_lt_asym(a: Seq<char>, b: Seq<char>)
    ensures
        !(lex_lt(a, b) && lex_lt(b, a)),
{
    lemma_lex_lt_asym_from(a, b, 0);
}

proof fn lemma_lex_lt_asym_from(a: Seq<char>, b: Seq<char>, i: int)
    ensures
        !(lex_lt_from(a, b, i) && lex_lt_from(b, a, i)),
    decreases b.len() - i,
{
    if 0 <= i && i < b.len() && i < a.len() && a[i] == b[i] {
        lemma_lex_lt_asym_from(a, b, i + 1);
    }
}

pub proof fn lemma_lex_le_total(a: Seq<char>, b: Seq<char>)
    ensures
        lex_le(a, b) || lex_le(b, a),
{
    lemma_lex_lt_asym(a, b);
}

pub proof fn lemma_lex_lt_trans(a: Seq<char>, b: Seq<char>, c: Seq<char>)
    requires
        lex_lt(a, b),
        lex_lt(b, c),
    ensures
        lex_lt(a, c),
{
    lemma_lex_lt_trans_from(a, b, c, 0);
}

proof fn lemma_lex_lt_trans_from(a: Seq<char>, b: Seq<char>, c: Seq<char>, i: int)
    requires
        lex_lt_from(a, b, i),
        lex_lt_from(b, c, i),
    ensures
        lex_lt_from(a, c, i),
    decreases c.len() - i,
{
    if 0 <= i && i < c.len() && i < b.len() && i < a.len() && a[i] == b[i] && b[i] == c[i] {
        lemma_lex_lt_trans_from(a, b, c, i + 1);
    }
}

/// `lex_le` is transitive; with `lemma_lex_le_total` this makes it a total
/// preorder, the order the navigation lists are sorted by.
pub proof fn lemma_lex_le_trans(a: Seq<char>, b: Seq<char>, c: Seq<char>)
    requires
        lex_le(a, b),
        lex_le(b, c),
    ensures
        lex_le(a, c),
{
    if lex_lt(c, a) {
        if lex_lt(a, b) {
            lemma_lex_lt_trans(c, a, b);
        } else {
            lemma_lex_lt_asym_eq(a, b, c);
        }
    }
}

proof fn lemma_lex_lt_asym_eq(a: Seq<char>, b: Seq<char>, c: Seq<char>)
    requires
        lex_lt(c, a),
        !lex_lt(a, b),
        !lex_lt(b, a),
    ensures
        lex_lt(c, b),
    decreases a.len() - 0,
{
    lemma_lex_lt_asym_eq_from(a, b, c, 0);
}

proof fn lemma_lex_lt_asym_eq_from(a: Seq<char>, b: Seq<char>, c: Seq<char>, i: int)
    requires
        lex_lt_from(c, a, i),
        !lex_lt_from(a, b, i),
        !lex_lt_from(b, a, i),
    ensures
        lex_lt_from(c, b, i),
    decreases a.len() - i,
{
    if i < 0 {
    } else if i >= a.len() {
    } else if i >= b.len() {
    } else if a[i] != b[i] {
        if a[i] as u32 == b[i] as u32 {
            lemma_char_code_inj(a[i], b[i]);
        }
    } else {
        // a[i] == b[i]
        if i >= c.len() {
        } else if c[i] != a[i] {
        } else {
            lemma_lex_lt_asym_eq_from(a, b, c, i + 1);
        }
    }
}

/// Exact equality of two character vectors.
pub fn chars_eq(a: &Vec<char>, b: &Vec<char>) -> (r: bool)
    ensures
        r == (a@ == b@),
{
    if a.len() != b.len() {
        return false;
    }
    let mut i: usize = 0;
    while i < a.len()
        invariant
            i <= a.len(),
            a@.len() == b@.len(),
            forall|j: int| 0 <= j < i ==> a@[j] == b@[j],
        decreases a.len() - i,
    {
        if a[i] != b[i] {
            return false;
        }
        i += 1;
    }
    assert(a@ =~= b@);
    true
}

/// Copy of `v[from..to]` as a fresh vector.
pub fn sub_chars(v: &Vec<char>, from: usize, to: usize) -> (r: Vec<char>)
    requires
        from <= to <= v@.len(),
    ensures
        r@ == v@.subrange(from as int, to as int),
{
    let mut r: Vec<char> = Vec::new();
    let mut i: usize = from;
    while i < to
        invariant
            from <= i <= to <= v@.len(),
            r@ == v@.subrange(from as int, i as int),
        decreases to - i,
    {
        r.push(v[i]);
        i += 1;
        assert(r@ =~= v@.subrange(from as int, i as int));
    }
    r
}

/// Append every character of `piece` to `out`.
pub fn push_all(out: &mut Vec<char>, piece: &Vec<char>)
    ensures
        final(out)@ == old(out)@ + piece@,
{
    let mut i: usize = 0;
    while i < piece.len()
        invariant
            i <= piece@.len(),
            out@ == old(out)@ + piece@.subrange(0, i as int),
        decreases piece.len() - i,
    {
        out.push(piece[i]);
        i += 1;
        assert(out@ =~= old(out)@ + piece@.subrange(0, i as int));
    }
    assert(out@ =~= old(out)@ + piece@);
}

/// `pat` occurs in `hay` starting at position `i`.
pub open spec fn is_match_at(hay: Seq<char>, pat: Seq<char>, i: int) -> bool {
    0 <= i && i + pat.len() <= hay.len() && hay.subrange(i, i + pat.len()) == pat
}

/// Position of the first occurrence of `pat` in `hay` at or after `from`.
pub open spec fn find_from(hay: Seq<char>, pat: Seq<char>, from: int) -> Option<int>
    decreases hay.len() - from + 1,
{
    if from < 0 || from + pat.len() > hay.len() {
        None
    } else if is_match_at(hay, pat, from) {
        Some(from)
    } else {
        find_from(hay, pat, from + 1)
    }
}

/// Whether `pat` occurs at position `i` of `hay`.
pub fn match_at(hay: &Vec<char>, pat: &Vec<char>, i: usize) -> (r: bool)
    ensures
        r == is_match_at(hay@, pat@, i as int),
{
    if i > hay.len() || pat.len() > hay.len() - i {
        return false;
    }
    let mut j: usize = 0;
    while j < pat.len()
        invariant
            j <= pat@.len(),
            i + pat@.len() <= hay@.len(),
            hay@.len() <= usize::MAX,
            forall|k: int| 0 <= k < j ==> hay@[i + k] == pat@[k],
        decreases pat.len() - j,
    {
        if hay[i + j] != pat[j] {
            assert(hay@.subrange(i as int, i + pat@.len())[j as int] != pat@[j as int]);
            return false;
        }
        j += 1;
    }
    assert(hay@.subrange(i as int, i + pat@.len()) =~= pat@);
    true
}

/// First occurrence of `pat` in `hay` at or after `from`, as `find_from` gives it.
pub fn find_sub_from(hay: &Vec<char>, pat: &Vec<char>, from: usize) -> (r: Option<usize>)
    requires
        pat@.len() > 0,
    ensures
        match r {
            Some(i) => from <= i && Some(i as int) == find_from(hay@, pat@, from as int),
            None => find_from(hay@, pat@, from as int) is None,
        },
{
    let mut i: usize = from;
    let hay_len: usize = hay.len();
    loop
        invariant
            from <= i,
            pat@.len() > 0,
            hay@.len() == hay_len,
            find_from(hay@, pat@, from as int) == find_from(hay@, pat@, i as int),
        decreases hay.len() + 1 - i,
    {
        if i > hay_len || pat.len() > hay_len - i {
            return None;
        }
        if match_at(hay, pat, i) {
            return Some(i);
        }
        i += 1;
    }
}

/// `s` from position `from` on, with every occurrence of `pat` replaced by `rep`.
pub open spec fn replace_from_spec(s: Seq<char>, pat: Seq<char>, rep: Seq<char>, from: int) -> Seq<
    char,
>
    decreases s.len() - from,
    via replace_from_spec_decreases
{
    if pat.len() == 0 || from < 0 || from > s.len() {
        s.subrange(if 0 <= from <= s.len() { from } else { 0 }, s.len() as int)
    } else {
        match find_from(s, pat, from) {
            None => s.subrange(from, s.len() as int),
            Some(i) => s.subrange(from, i) + rep + replace_from_spec(s, pat, rep, i + pat.len()),
        }
    }
}

#[via_fn]
proof fn replace_from_spec_decreases(s: Seq<char>, pat: Seq<char>, rep: Seq<char>, from: int) {
    if !(pat.len() == 0 || from < 0 || from > s.len()) {
        match find_from(s, pat, from) {
            None => {},
            Some(i) => {
                lemma_find_from_bounds(s, pat, from, i);
            },
        }
    }
}

/// `s` with every occurrence of `pat` replaced by `rep`, scanning left to
/// right over non-overlapping occurrences, as `str::replace` does.
pub open spec fn replace_spec(s: Seq<char>, pat: Seq<char>, rep: Seq<char>) -> Seq<char> {
    replace_from_spec(s, pat, rep, 0)
}

pub proof fn lemma_find_from_bounds(hay: Seq<char>, pat: Seq<char>, from: int, i: int)
    requires
        find_from(hay, pat, from) == Some(i),
    ensures
        from <= i,
        is_match_at(hay, pat, i),
    decreases hay.len() - from + 1,
{
    if !(from < 0 || from + pat.len() > hay.len()) && !is_match_at(hay, pat, from) {
        lemma_find_from_bounds(hay, pat, from + 1, i);
    }
}

pub fn replace_all(s: &Vec<char>, pat: &Vec<char>, rep: &Vec<char>) -> (r: Vec<char>)
    requires
        pat@.len() > 0,
    ensures
        r@ == replace_spec(s@, pat@, rep@),
{
    let mut out: Vec<char> = Vec::new();
    let mut pos: usize = 0;
    loop
        invariant
            pat@.len() > 0,
            pos <= s@.len(),
            replace_spec(s@, pat@, rep@) == out@ + replace_from_spec(s@, pat@, rep@, pos as int),
        decreases s.len() - pos,
    {
        match find_sub_from(s, pat, pos) {
            None => {
                let rest = sub_chars(s, pos, s.len());
                push_all(&mut out, &rest);
                return out;
            },
            Some(i) => {
                proof {
                    lemma_find_from_bounds(s@, pat@, pos as int, i as int);
                }
                let piece = sub_chars(s, pos, i);
                push_all(&mut out, &piece);
                push_all(&mut out, rep);
                pos = i + pat.len();
                assert(out@ + replace_from_spec(s@, pat@, rep@, pos as int) =~= replace_spec(
                    s@,
                    pat@,
                    rep@,
                ));
            },
        }
    }
}

/// How a single character is written in HTML text and attribute positions.
pub open spec fn escape_char(c: char) -> Seq<char> {
    if c == '&' {
        seq!['&', 'a', 'm', 'p', ';']
    } else if c == '<' {
        seq!['&', 'l', 't', ';']
    } else if c == '>' {
        seq!['&', 'g', 't', ';']
    } else if c == '"' {
        seq!['&', 'q', 'u', 'o', 't', ';']
    } else if c == '\'' {
        seq!['&', '#', '3', '9', ';']
    } else {
        seq![c]
    }
}

/// `s` from position `from` on, with each character HTML-escaped.
pub open spec fn escape_from(s: Seq<char>, from: int) -> Seq<char>
    decreases s.len() - from,
{
    if from < 0 || from >= s.len() {
        Seq::empty()
    } else {
        escape_char(s[from]) + escape_from(s, from + 1)
    }
}

/// `s` with the five HTML metacharacters written as entities.
pub open spec fn escape_seq(s: Seq<char>) -> Seq<char> {
    escape_from(s, 0)
}

pub fn escape_chars(s: &Vec<char>) -> (r: Vec<char>)
    ensures
        r@ == escape_seq(s@),
{
    let mut out: Vec<char> = Vec::new();
    let mut i: usize = 0;
    while i < s.len()
        invariant
            i <= s@.len(),
            escape_seq(s@) == out@ + escape_from(s@, i as int),
        decreases s.len() - i,
    {
        let c = s[i];
        if c == '&' {
            out.push('&');
            out.push('a');
            out.push('m');
            out.push('p');
            out.push(';');
        } else if c == '<' {
            out.push('&');
            out.push('l');
            out.push('t');
            out.push(';');
        } else if c == '>' {
            out.push('&');
            out.push('g');
            out.push('t');
            out.push(';');
        } else if c == '"' {
            out.push('&');
            out.push('q');
            out.push('u');
            out.push('o');
            out.push('t');
            out.push(';');
        } else if c == '\'' {
            out.push('&');
            out.push('#');
            out.push('3');
            out.push('9');
            out.push(';');
        } else {
            out.push(c);
        }
        i += 1;
        assert(escape_seq(s@) =~= out@ + escape_from(s@, i as int));
    }
    out
}

/// Escape a string for HTML output.
pub fn html_escape(input: &str) -> (r: String)
    ensures
        r@ == escape_seq(input@),
{
    let v = str_chars(input);
    let escaped = escape_chars(&v);
    chars_string(&escaped)
}

} // verus!
