//! A model of slash-separated paths.
//!
//! Source-relative paths are plain strings with `/` separators; the empty
//! string names the root directory.  The functions here give the pieces the
//! site graph needs: file name, stem, extension, segments, and the
//! dot-segment normalization used when links are resolved.

use vstd::prelude::*;

use crate::text::{chars_eq_nocase, seq_eq_nocase, str_chars};

verus! {

/// Position of the last occurrence of `c` in `p`, if any.
pub open spec fn last_pos_of(p: Seq<char>, c: char) -> Option<int>
    decreases p.len(),
{
    if p.len() == 0 {
        None
    } else if p[p.len() - 1] == c {
        Some(p.len() - 1)
    } else {
        last_pos_of(p.drop_last(), c)
    }
}

pub fn rfind_char(v: &Vec<char>, c: char) -> (r: Option<usize>)
    ensures
        match r {
            Some(i) => i < v@.len() && v@[i as int] == c && Some(i as int) == last_pos_of(v@, c),
            None => last_pos_of(v@, c) is None,
        },
{
    let mut i: usize = v.len();
    assert(v@.subrange(0, v@.len() as int) =~= v@);
    while i > 0
        invariant
            i <= v@.len(),
            last_pos_of(v@, c) == last_pos_of(v@.subrange(0, i as int), c),
        decreases i,
    {
        i -= 1;
        assert(v@.subrange(0, i + 1).drop_last() =~= v@.subrange(0, i as int));
        assert(v@.subrange(0, i + 1)[i as int] == v@[i as int]);
        if v[i] == c {
            return Some(i);
        }
    }
    assert(v@.subrange(0, 0) =~= Seq::<char>::empty());
    None
}

/// Where the last occurrence sits and that nothing follows it.
pub proof fn lemma_last_pos_props(p: Seq<char>, c: char)
    ensures
        match last_pos_of(p, c) {
            Some(i) => 0 <= i < p.len() && p[i] == c && (forall|j: int|
                i < j < p.len() ==> p[j] != c),
            None => forall|j: int| 0 <= j < p.len() ==> p[j] != c,
        },
    decreases p.len(),
{
    if p.len() > 0 {
        lemma_last_pos_props(p.drop_last(), c);
        assert forall|j: int| 0 <= j < p.len() - 1 implies p.drop_last()[j] == p[j] by {}
    }
}

/// A sequence without `c` has no last occurrence of it.
pub proof fn lemma_no_char_no_last_pos(p: Seq<char>, c: char)
    requires
        forall|j: int| 0 <= j < p.len() ==> p[j] != c,
    ensures
        last_pos_of(p, c) is None,
    decreases p.len(),
{
    if p.len() > 0 {
        lemma_no_char_no_last_pos(p.drop_last(), c);
    }
}

/// How the last occurrence of `c` distributes over concatenation.
pub proof fn lemma_last_pos_concat(a: Seq<char>, b: Seq<char>, c: char)
    ensures
        last_pos_of(a + b, c) == match last_pos_of(b, c) {
            Some(j) => Some(a.len() + j),
            None => last_pos_of(a, c),
        },
    decreases b.len(),
{
    if b.len() == 0 {
        assert(a + b =~= a);
    } else {
        assert((a + b).drop_last() =~= a + b.drop_last());
        assert((a + b).len() > 0);
        assert((a + b)[(a + b).len() - 1] == b[b.len() - 1]);
        lemma_last_pos_concat(a, b.drop_last(), c);
    }
}

/// The characters after the last `/` of `p` (all of `p` when it has none).
pub open spec fn base_part(p: Seq<char>) -> Seq<char> {
    match last_pos_of(p, '/') {
        Some(i) => p.subrange(i + 1, p.len() as int),
        None => p,
    }
}

/// `p` with every trailing `/` removed.
pub open spec fn strip_trailing_slashes(p: Seq<char>) -> Seq<char>
    decreases p.len(),
{
    if p.len() > 0 && p[p.len() - 1] == '/' {
        strip_trailing_slashes(p.drop_last())
    } else {
        p
    }
}

/// The file name of `p`, as a path library reads it: the part after the
/// last separator, ignoring trailing separators; none for the empty path
/// or when that part is `.` or `..`.
pub open spec fn file_name_opt(p: Seq<char>) -> Option<Seq<char>> {
    let q = strip_trailing_slashes(p);
    let n = base_part(q);
    if n.len() == 0 || n == seq!['.'] || n == seq!['.', '.'] {
        None
    } else {
        Some(n)
    }
}

/// Split a file name into stem and extension at its last dot; a dot at the
/// start (a hidden file) does not begin an extension.
pub open spec fn stem_of_name(n: Seq<char>) -> Seq<char> {
    match last_pos_of(n, '.') {
        Some(i) => if i > 0 {
            n.subrange(0, i)
        } else {
            n
        },
        None => n,
    }
}

pub open spec fn ext_of_name(n: Seq<char>) -> Option<Seq<char>> {
    match last_pos_of(n, '.') {
        Some(i) => if i > 0 {
            Some(n.subrange(i + 1, n.len() as int))
        } else {
            None
        },
        None => None,
    }
}

/// The stem of `p`'s file name, if `p` has one.
pub open spec fn stem_opt(p: Seq<char>) -> Option<Seq<char>> {
    match file_name_opt(p) {
        Some(n) => Some(stem_of_name(n)),
        None => None,
    }
}

/// The extension of `p`'s file name, if any.
pub open spec fn ext_opt(p: Seq<char>) -> Option<Seq<char>> {
    match file_name_opt(p) {
        Some(n) => ext_of_name(n),
        None => None,
    }
}

/// A recognized markup extension, compared without regard to ASCII case.
pub open spec fn is_markup_ext(e: Seq<char>) -> bool {
    seq_eq_nocase(e, seq!['m', 'd']) || seq_eq_nocase(
        e,
        seq!['m', 'a', 'r', 'k', 'd', 'o', 'w', 'n'],
    )
}

/// `p` names a content file: its extension is a markup extension.
pub open spec fn spec_is_markdown(p: Seq<char>) -> bool {
    match ext_opt(p) {
        Some(e) => is_markup_ext(e),
        None => false,
    }
}

/// `p` is a content file whose stem is `readme`, in any ASCII case.
pub open spec fn spec_is_readme(p: Seq<char>) -> bool {
    spec_is_markdown(p) && match stem_opt(p) {
        Some(s) => seq_eq_nocase(s, seq!['r', 'e', 'a', 'd', 'm', 'e']),
        None => false,
    }
}

/// `p` is a content file whose stem is `index`, in any ASCII case.
pub open spec fn spec_is_index(p: Seq<char>) -> bool {
    spec_is_markdown(p) && match stem_opt(p) {
        Some(s) => seq_eq_nocase(s, seq!['i', 'n', 'd', 'e', 'x']),
        None => false,
    }
}

pub fn strip_trailing_exec(v: &Vec<char>) -> (r: Vec<char>)
    ensures
        r@ == strip_trailing_slashes(v@),
{
    let mut end: usize = v.len();
    assert(v@.subrange(0, v@.len() as int) =~= v@);
    while end > 0 && v[end - 1] == '/'
        invariant
            end <= v@.len(),
            strip_trailing_slashes(v@) == strip_trailing_slashes(v@.subrange(0, end as int)),
        decreases end,
    {
        assert(v@.subrange(0, end as int).drop_last() =~= v@.subrange(0, end - 1));
        end -= 1;
    }
    let r = crate::text::sub_chars(v, 0, end);
    proof {
        if end > 0 {
            assert(strip_trailing_slashes(v@.subrange(0, end as int)) == v@.subrange(
                0,
                end as int,
            ));
        } else {
            assert(v@.subrange(0, 0) =~= Seq::<char>::empty());
        }
    }
    r
}

/// The file name of `v`, or `None` as `file_name_opt` has it.
pub fn file_name_exec(v: &Vec<char>) -> (r: Option<Vec<char>>)
    ensures
        match r {
            Some(n) => file_name_opt(v@) == Some(n@),
            None => file_name_opt(v@) is None,
        },
{
    let q = strip_trailing_exec(v);
    let q_len: usize = q.len();
    let n = match rfind_char(&q, '/') {
        Some(i) => crate::text::sub_chars(&q, i + 1, q_len),
        None => q,
    };
    if n.len() == 0 {
        return None;
    }
    if n.len() == 1 && n[0] == '.' {
        assert(n@ =~= seq!['.']);
        return None;
    }
    if n.len() == 2 && n[0] == '.' && n[1] == '.' {
        assert(n@ =~= seq!['.', '.']);
        return None;
    }
    assert(n@ != seq!['.'] && n@ != seq!['.', '.']) by {
        if n@ == seq!['.'] {
            assert(n@.len() == 1);
        }
        if n@ == seq!['.', '.'] {
            assert(n@.len() == 2);
        }
    }
    Some(n)
}

/// The stem and extension of file name `n`.
pub fn split_name(n: &Vec<char>) -> (r: (Vec<char>, Option<Vec<char>>))
    ensures
        r.0@ == stem_of_name(n@),
        match r.1 {
            Some(e) => ext_of_name(n@) == Some(e@),
            None => ext_of_name(n@) is None,
        },
{
    let n_len: usize = n.len();
    match rfind_char(n, '.') {
        Some(i) => {
            if i > 0 {
                let stem = crate::text::sub_chars(n, 0, i);
                let ext = crate::text::sub_chars(n, i + 1, n_len);
                (stem, Some(ext))
            } else {
                let whole = crate::text::sub_chars(n, 0, n.len());
                assert(whole@ =~= n@);
                (whole, None)
            }
        },
        None => {
            let whole = crate::text::sub_chars(n, 0, n.len());
            assert(whole@ =~= n@);
            (whole, None)
        },
    }
}

pub fn is_markdown_chars(v: &Vec<char>) -> (r: bool)
    ensures
        r == spec_is_markdown(v@),
{
    match file_name_exec(v) {
        Some(n) => {
            let (_stem, ext) = split_name(&n);
            match ext {
                Some(e) => {
                    let md: Vec<char> = vec!['m', 'd'];
                    let markdown: Vec<char> = vec!['m', 'a', 'r', 'k', 'd', 'o', 'w', 'n'];
                    assert(md@ =~= seq!['m', 'd']);
                    assert(markdown@ =~= seq!['m', 'a', 'r', 'k', 'd', 'o', 'w', 'n']);
                    chars_eq_nocase(&e, &md) || chars_eq_nocase(&e, &markdown)
                },
                None => false,
            }
        },
        None => false,
    }
}

fn stem_matches(v: &Vec<char>, word: &Vec<char>) -> (r: bool)
    ensures
        r == match stem_opt(v@) {
            Some(s) => seq_eq_nocase(s, word@),
            None => false,
        },
{
    match file_name_exec(v) {
        Some(n) => {
            let (stem, _ext) = split_name(&n);
            chars_eq_nocase(&stem, word)
        },
        None => false,
    }
}

pub fn is_readme_chars(v: &Vec<char>) -> (r: bool)
    ensures
        r == spec_is_readme(v@),
{
    if !is_markdown_chars(v) {
        return false;
    }
    let readme: Vec<char> = vec!['r', 'e', 'a', 'd', 'm', 'e'];
    assert(readme@ =~= seq!['r', 'e', 'a', 'd', 'm', 'e']);
    stem_matches(v, &readme)
}

pub fn is_index_chars(v: &Vec<char>) -> (r: bool)
    ensures
        r == spec_is_index(v@),
{
    if !is_markdown_chars(v) {
        return false;
    }
    let index: Vec<char> = vec!['i', 'n', 'd', 'e', 'x'];
    assert(index@ =~= seq!['i', 'n', 'd', 'e', 'x']);
    stem_matches(v, &index)
}

/// The first `/` of `p` at or after position `i`, or the end of `p`.
pub open spec fn seg_end(p: Seq<char>, i: int) -> int
    decreases p.len() - i,
{
    if i >= p.len() {
        p.len() as int
    } else if p[i] == '/' {
        i
    } else {
        seg_end(p, i + 1)
    }
}

proof fn lemma_seg_end_bounds(p: Seq<char>, i: int)
    requires
        0 <= i <= p.len(),
    ensures
        i <= seg_end(p, i) <= p.len(),
    decreases p.len() - i,
{
    if i < p.len() && p[i] != '/' {
        lemma_seg_end_bounds(p, i + 1);
    }
}

/// The path segments of `p` from position `i` on: the parts between `/`
/// separators, with empty parts and `.` parts dropped, `..` kept.
pub open spec fn segs_from(p: Seq<char>, i: int) -> Seq<Seq<char>>
    decreases p.len() - i + 1,
    via segs_from_decreases
{
    if i < 0 || i >= p.len() {
        Seq::empty()
    } else {
        let e = seg_end(p, i);
        let s = p.subrange(i, e);
        let rest = segs_from(p, e + 1);
        if s.len() == 0 || s == seq!['.'] {
            rest
        } else {
            seq![s] + rest
        }
    }
}

#[via_fn]
proof fn segs_from_decreases(p: Seq<char>, i: int) {
    if !(i < 0 || i >= p.len()) {
        lemma_seg_end_bounds(p, i);
    }
}

/// The path segments of `p`, as a path library tokenizes them.
pub open spec fn segs_of(p: Seq<char>) -> Seq<Seq<char>> {
    segs_from(p, 0)
}

/// Split `p` into its segments.
pub fn split_segments(p: &Vec<char>) -> (r: Vec<Vec<char>>)
    ensures
        r.deep_view() == segs_of(p@),
{
    let p_len: usize = p.len();
    let mut acc: Vec<Vec<char>> = Vec::new();
    let mut i: usize = 0;
    assert(acc.deep_view() =~= Seq::<Seq<char>>::empty());
    while i < p_len
        invariant
            i <= p_len + 1,
            p@.len() == p_len,
            segs_of(p@) == acc.deep_view() + segs_from(p@, i as int),
        decreases p_len + 1 - i,
    {
        let mut j: usize = i;
        while j < p_len && p[j] != '/'
            invariant
                i <= j <= p_len,
                p@.len() == p_len,
                seg_end(p@, i as int) == seg_end(p@, j as int),
            decreases p_len - j,
        {
            j += 1;
        }
        assert(seg_end(p@, i as int) == j);
        let s = crate::text::sub_chars(p, i, j);
        if s.len() > 0 && !(s.len() == 1 && s[0] == '.') {
            assert(s@ != seq!['.']) by {
                if s@ == seq!['.'] {
                    assert(s@.len() == 1);
                }
            }
            let ghost old_acc = acc.deep_view();
            acc.push(s);
            assert(acc.deep_view() =~~= old_acc + seq![s@]);
            assert(old_acc + (seq![s@] + segs_from(p@, j + 1)) =~= (old_acc + seq![s@])
                + segs_from(p@, j + 1));
        } else {
            proof {
                if s@.len() > 0 {
                    assert(s@ =~= seq!['.']);
                }
            }
        }
        if j == p_len {
            i = p_len;
            assert(segs_from(p@, j + 1) == segs_from(p@, i as int));
        } else {
            i = j + 1;
        }
    }
    assert(acc.deep_view() =~= acc.deep_view() + segs_from(p@, i as int));
    acc
}

/// One step of dot-segment normalization: how segment `s` changes the
/// stack of segments already kept.
pub open spec fn norm_push(acc: Seq<Seq<char>>, s: Seq<char>, absolute: bool) -> Seq<Seq<char>> {
    if s == seq!['.', '.'] {
        if acc.len() > 0 && acc.last() != seq!['.', '.'] {
            acc.drop_last()
        } else if absolute {
            acc
        } else {
            acc.push(s)
        }
    } else {
        acc.push(s)
    }
}

pub open spec fn norm_from(segs: Seq<Seq<char>>, i: int, acc: Seq<Seq<char>>, absolute: bool) -> Seq<
    Seq<char>,
>
    decreases segs.len() - i,
{
    if i < 0 || i >= segs.len() {
        acc
    } else {
        norm_from(segs, i + 1, norm_push(acc, segs[i], absolute), absolute)
    }
}

/// Dot-segment normalization: `.` parts are already gone from the
/// segments; each `..` pops the previous normal segment, except that a
/// leading `..` is kept on a relative path and dropped on an absolute one.
pub open spec fn normalize_spec(segs: Seq<Seq<char>>, absolute: bool) -> Seq<Seq<char>> {
    norm_from(segs, 0, Seq::empty(), absolute)
}

pub fn normalize_segments(segs: &Vec<Vec<char>>, absolute: bool) -> (r: Vec<Vec<char>>)
    ensures
        r.deep_view() == normalize_spec(segs.deep_view(), absolute),
{
    let mut acc: Vec<Vec<char>> = Vec::new();
    let mut i: usize = 0;
    assert(acc.deep_view() =~= Seq::<Seq<char>>::empty());
    while i < segs.len()
        invariant
            i <= segs@.len(),
            normalize_spec(segs.deep_view(), absolute) == norm_from(
                segs.deep_view(),
                i as int,
                acc.deep_view(),
                absolute,
            ),
        decreases segs.len() - i,
    {
        let s = &segs[i];
        assert(s@ =~~= segs.deep_view()[i as int]);
        let dotdot: Vec<char> = vec!['.', '.'];
        assert(dotdot@ =~= seq!['.', '.']);
        let ghost old_acc = acc.deep_view();
        if crate::text::chars_eq(s, &dotdot) {
            assert(segs.deep_view()[i as int] == seq!['.', '.']);
            if acc.len() > 0 {
                let top_is_dotdot = crate::text::chars_eq(&acc[acc.len() - 1], &dotdot);
                assert(acc[acc@.len() - 1]@ =~~= old_acc.last());
                if !top_is_dotdot {
                    assert(old_acc.last() != seq!['.', '.']);
                    acc.pop();
                    assert(acc.deep_view() =~~= old_acc.drop_last());
                } else if !absolute {
                    assert(old_acc.last() == seq!['.', '.']);
                    let dup: Vec<char> = vec!['.', '.'];
                    assert(dup@ =~= seq!['.', '.']);
                    acc.push(dup);
                    assert(acc.deep_view() =~~= old_acc.push(segs.deep_view()[i as int]));
                } else {
                    assert(old_acc.last() == seq!['.', '.']);
                }
            } else if !absolute {
                let dup: Vec<char> = vec!['.', '.'];
                assert(dup@ =~= seq!['.', '.']);
                acc.push(dup);
                assert(acc.deep_view() =~~= old_acc.push(segs.deep_view()[i as int]));
            }
        } else {
            assert(segs.deep_view()[i as int] != seq!['.', '.']);
            let copy = crate::text::sub_chars(s, 0, s.len());
            assert(copy@ =~= s@);
            acc.push(copy);
            assert(acc.deep_view() =~~= old_acc.push(segs.deep_view()[i as int]));
        }
        assert(acc.deep_view() == norm_push(old_acc, segs.deep_view()[i as int], absolute));
        i += 1;
    }
    acc
}

/// The segments joined with `/` separators, from index `i` on.
pub open spec fn join_from(segs: Seq<Seq<char>>, i: int) -> Seq<char>
    decreases segs.len() - i,
{
    if i < 0 || i >= segs.len() {
        Seq::empty()
    } else if i == segs.len() - 1 {
        segs[i]
    } else {
        segs[i] + seq!['/'] + join_from(segs, i + 1)
    }
}

/// The segments joined with `/` separators.
pub open spec fn join_segs(segs: Seq<Seq<char>>) -> Seq<char> {
    join_from(segs, 0)
}

pub fn join_segments(segs: &Vec<Vec<char>>) -> (r: Vec<char>)
    ensures
        r@ == join_segs(segs.deep_view()),
{
    let mut out: Vec<char> = Vec::new();
    let mut i: usize = 0;
    assert(out@ =~= Seq::<char>::empty());
    while i < segs.len()
        invariant
            i <= segs@.len(),
            join_segs(segs.deep_view()) == out@ + join_from(segs.deep_view(), i as int),
        decreases segs.len() - i,
    {
        crate::text::push_all(&mut out, &segs[i]);
        if i + 1 < segs.len() {
            out.push('/');
        }
        i += 1;
        assert(join_segs(segs.deep_view()) =~= out@ + join_from(segs.deep_view(), i as int));
    }
    assert(out@ =~= out@ + join_from(segs.deep_view(), i as int));
    out
}

/// The directory part of a clean relative path: everything before the
/// last `/`, or the root (empty) when there is none.
pub open spec fn parent_dir(p: Seq<char>) -> Seq<char> {
    match last_pos_of(p, '/') {
        Some(i) => p.subrange(0, i),
        None => Seq::empty(),
    }
}

pub fn parent_dir_chars(v: &Vec<char>) -> (r: Vec<char>)
    ensures
        r@ == parent_dir(v@),
{
    match rfind_char(v, '/') {
        Some(i) => crate::text::sub_chars(v, 0, i),
        None => Vec::new(),
    }
}


/// The path's segments, as the navigation code tokenizes them.
pub fn path_parts(p: &str) -> (r: Vec<String>)
    ensures
        r.deep_view() == segs_of(p@),
{
    let v = str_chars(p);
    let segs = split_segments(&v);
    let mut out: Vec<String> = Vec::new();
    let mut i: usize = 0;
    proof {
        assert(out.deep_view() =~~= segs_of(p@).subrange(0, 0));
    }
    while i < segs.len()
        invariant
            i <= segs@.len(),
            segs.deep_view() == segs_of(p@),
            out.deep_view() == segs_of(p@).subrange(0, i as int),
        decreases segs.len() - i,
    {
        let piece = crate::text::chars_string(&segs[i]);
        proof {
            assert(piece@ =~~= segs.deep_view()[i as int]);
        }
        let ghost prev = out.deep_view();
        out.push(piece);
        proof {
            assert(out.deep_view() =~~= prev.push(segs_of(p@)[i as int]));
        }
        i += 1;
        assert(out.deep_view() =~= segs_of(p@).subrange(0, i as int));
    }
    proof {
        assert(out.deep_view() =~= segs_of(p@));
    }
    out
}

/// `p` names a content file (a markup extension maps it to HTML output).
pub fn is_markdown_path(p: &str) -> (r: bool)
    ensures
        r == spec_is_markdown(p@),
{
    let v = str_chars(p);
    is_markdown_chars(&v)
}

/// `p` is a content file whose stem is `readme`, in any ASCII case.
pub fn is_readme_path(p: &str) -> (r: bool)
    ensures
        r == spec_is_readme(p@),
{
    let v = str_chars(p);
    is_readme_chars(&v)
}

/// `p` is a content file whose stem is `index`, in any ASCII case.
pub fn is_index_path(p: &str) -> (r: bool)
    ensures
        r == spec_is_index(p@),
{
    let v = str_chars(p);
    is_index_chars(&v)
}

} // verus!
