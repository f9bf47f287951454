//! The link resolver: rewrites a single link destination found inside a
//! page, given the page's own source-relative path, the set of known
//! content files, and the set of directories that have an index file.
//!
//! Destinations that are empty, fragment-only, scheme-qualified, `mailto:`
//! or `tel:` pass through unchanged, as does anything that is not a
//! content-file path.  A content-file destination keeps its written shape
//! (relative or absolute, parent structure untouched) and only has its
//! name rewritten: `index` stays `index.html`, `readme` becomes that
//! directory's `index.html` unless the directory has its own index file,
//! and every other stem keeps its name with an `.html` extension.  A
//! fragment or query suffix is preserved verbatim.  A destination whose
//! resolved target is not a known content file earns an advisory warning.

use vstd::prelude::*;

use crate::paths::{
    base_part, ext_of_name, file_name_opt, is_markdown_chars, is_readme_chars, join_segments,
    join_segs, last_pos_of, normalize_segments, normalize_spec, parent_dir, parent_dir_chars,
    segs_of, spec_is_markdown, spec_is_readme, split_segments, stem_of_name,
    strip_trailing_slashes,
};
use crate::text::{chars_string, is_match_at, match_at, push_all, str_chars, sub_chars};

verus! {

/// The position of the first `#` or `?` of `s` at or after `i`, or the
/// end of `s`: where a destination splits into path part and suffix.
pub open spec fn first_break(s: Seq<char>, i: int) -> int
    decreases s.len() - i,
{
    if i < 0 || i >= s.len() {
        s.len() as int
    } else if s[i] == '#' || s[i] == '?' {
        i
    } else {
        first_break(s, i + 1)
    }
}

pub open spec fn link_base(dest: Seq<char>) -> Seq<char> {
    dest.subrange(0, first_break(dest, 0))
}

pub open spec fn link_suffix(dest: Seq<char>) -> Seq<char> {
    dest.subrange(first_break(dest, 0), dest.len() as int)
}

/// Split a destination into its path part and its `#`/`?` suffix; `None`
/// only for the empty destination.
pub fn split_link(dest: &str) -> (r: Option<(String, String)>)
    ensures
        match r {
            Some(pair) => dest@.len() > 0 && pair.0@ == link_base(dest@) && pair.1@ == link_suffix(
                dest@,
            ),
            None => dest@.len() == 0,
        },
{
    let v = str_chars(dest);
    if v.len() == 0 {
        return None;
    }
    let v_len: usize = v.len();
    let mut i: usize = 0;
    while i < v_len && v[i] != '#' && v[i] != '?'
        invariant
            i <= v_len,
            v@.len() == v_len,
            first_break(v@, 0) == first_break(v@, i as int),
        decreases v_len - i,
    {
        i += 1;
    }
    assert(first_break(v@, 0) == i);
    let base = sub_chars(&v, 0, i);
    let suffix = sub_chars(&v, i, v_len);
    Some((chars_string(&base), chars_string(&suffix)))
}

/// The destination names an absolute URL scheme this tool passes through.
pub open spec fn spec_has_scheme(s: Seq<char>) -> bool {
    is_match_at(s, "http://"@, 0) || is_match_at(s, "https://"@, 0)
}

/// Whether the destination starts with `http://` or `https://`.
pub fn has_scheme(dest: &str) -> (r: bool)
    ensures
        r == spec_has_scheme(dest@),
{
    let v = str_chars(dest);
    let http = str_chars("http://");
    let https = str_chars("https://");
    match_at(&v, &http, 0) || match_at(&v, &https, 0)
}

/// A destination the resolver leaves alone before even looking at the
/// extension: empty, fragment-only, scheme-qualified, `mailto:` or `tel:`.
pub open spec fn spec_passthrough_base(base: Seq<char>) -> bool {
    base.len() == 0 || (base.len() > 0 && base[0] == '#') || spec_has_scheme(base) || is_match_at(
        base,
        "mailto:"@,
        0,
    ) || is_match_at(base, "tel:"@, 0)
}

fn is_passthrough_base(base: &Vec<char>) -> (r: bool)
    ensures
        r == spec_passthrough_base(base@),
{
    if base.len() == 0 {
        return true;
    }
    if base[0] == '#' {
        return true;
    }
    let http = str_chars("http://");
    let https = str_chars("https://");
    let mailto = str_chars("mailto:");
    let tel = str_chars("tel:");
    match_at(base, &http, 0) || match_at(base, &https, 0) || match_at(base, &mailto, 0)
        || match_at(base, &tel, 0)
}

/// `p` with every leading `/` removed.
pub open spec fn strip_leading_slashes(p: Seq<char>) -> Seq<char>
    decreases p.len(),
{
    if p.len() > 0 && p[0] == '/' {
        strip_leading_slashes(p.subrange(1, p.len() as int))
    } else {
        p
    }
}

fn strip_leading_exec(v: &Vec<char>) -> (r: Vec<char>)
    ensures
        r@ == strip_leading_slashes(v@),
{
    let v_len: usize = v.len();
    let mut i: usize = 0;
    assert(v@.subrange(0, v_len as int) =~= v@);
    while i < v_len && v[i] == '/'
        invariant
            i <= v_len,
            v@.len() == v_len,
            strip_leading_slashes(v@) == strip_leading_slashes(v@.subrange(i as int, v_len as int)),
        decreases v_len - i,
    {
        assert(v@.subrange(i as int, v_len as int).subrange(
            1,
            v@.subrange(i as int, v_len as int).len() as int,
        ) =~= v@.subrange(i + 1, v_len as int));
        i += 1;
    }
    let r = sub_chars(v, i, v_len);
    proof {
        if i < v_len {
            assert(strip_leading_slashes(v@.subrange(i as int, v_len as int)) == v@.subrange(
                i as int,
                v_len as int,
            ));
        } else {
            assert(v@.subrange(v_len as int, v_len as int) =~= Seq::<char>::empty());
        }
    }
    r
}

/// The directory prefix written before a rewritten file name: the parent
/// part of `base` as it was written, kept relative or absolute.
pub open spec fn dir_prefix(base: Seq<char>) -> Seq<char> {
    let par = parent_dir(base);
    let absolute = base.len() > 0 && base[0] == '/';
    if par.len() == 0 || par == seq!['.'] {
        Seq::empty()
    } else if absolute {
        let trimmed = strip_leading_slashes(par);
        if trimmed.len() == 0 {
            seq!['/']
        } else {
            seq!['/'] + trimmed + seq!['/']
        }
    } else {
        par + seq!['/']
    }
}

fn dir_prefix_exec(base: &Vec<char>) -> (r: Vec<char>)
    ensures
        r@ == dir_prefix(base@),
{
    let par = parent_dir_chars(base);
    let absolute = base.len() > 0 && base[0] == '/';
    let mut out: Vec<char> = Vec::new();
    if par.len() == 0 || (par.len() == 1 && par[0] == '.') {
        proof {
            if par@.len() == 1 && par@[0] == '.' {
                assert(par@ =~= seq!['.']);
            }
        }
        assert(out@ =~= dir_prefix(base@));
        return out;
    }
    assert(par@ != seq!['.']) by {
        if par@ == seq!['.'] {
            assert(par@.len() == 1);
        }
    }
    if absolute {
        let trimmed = strip_leading_exec(&par);
        out.push('/');
        if trimmed.len() > 0 {
            push_all(&mut out, &trimmed);
            out.push('/');
            assert(out@ =~= seq!['/'] + trimmed@ + seq!['/']);
        } else {
            assert(out@ =~= seq!['/']);
        }
    } else {
        push_all(&mut out, &par);
        out.push('/');
        assert(out@ =~= par@ + seq!['/']);
    }
    out
}

/// The stem the rewritten name keeps: the file stem of `base`, or all of
/// `base` when it has no file name.
pub open spec fn rewrite_stem(base: Seq<char>) -> Seq<char> {
    match file_name_opt(base) {
        Some(n) => stem_of_name(n),
        None => base,
    }
}

/// `base` with its markup extension replaced by `.html`, parent structure
/// and absolute-vs-relative form kept as written.
pub open spec fn replace_ext_spec(base: Seq<char>) -> Seq<char> {
    dir_prefix(base) + rewrite_stem(base) + ".html"@
}

/// Rewrite a content-file destination stem-preserving to `.html`.
pub fn replace_markdown_extension(dest: &str) -> (r: String)
    ensures
        r@ == replace_ext_spec(dest@),
{
    let v = str_chars(dest);
    let mut out = dir_prefix_exec(&v);
    let stem = match crate::paths::file_name_exec(&v) {
        Some(n) => {
            let (s, _e) = crate::paths::split_name(&n);
            s
        },
        None => sub_chars(&v, 0, v.len()),
    };
    assert(stem@ == rewrite_stem(v@));
    push_all(&mut out, &stem);
    let html = str_chars(".html");
    push_all(&mut out, &html);
    chars_string(&out)
}

/// `base`'s directory with `index.html` as the file name, parent
/// structure and absolute-vs-relative form kept as written.
pub open spec fn readme_index_spec(base: Seq<char>) -> Seq<char> {
    dir_prefix(base) + "index.html"@
}

/// Rewrite a README destination to its directory's `index.html`.
pub fn readme_to_index(dest: &str) -> (r: String)
    ensures
        r@ == readme_index_spec(dest@),
{
    let v = str_chars(dest);
    let mut out = dir_prefix_exec(&v);
    let name = str_chars("index.html");
    push_all(&mut out, &name);
    chars_string(&out)
}

/// The normalized root-relative segments a destination's path part
/// resolves to: an absolute path resolves against the source root, a
/// relative one against the linking page's own directory.
pub open spec fn resolved_segs(base: Seq<char>, source_rel: Seq<char>) -> Seq<Seq<char>> {
    if base.len() > 0 && base[0] == '/' {
        normalize_spec(segs_of(base), true)
    } else {
        normalize_spec(segs_of(parent_dir(source_rel)) + segs_of(base), false)
    }
}

/// The resolved target still points above the source root.
pub open spec fn resolved_escapes(base: Seq<char>, source_rel: Seq<char>) -> bool {
    let segs = resolved_segs(base, source_rel);
    segs.len() > 0 && segs[0] == seq!['.', '.']
}

/// The root-relative directory whose index file decides the README rule:
/// the parent of the resolved target, or the root when the target
/// escapes the source root.
pub open spec fn resolved_dir(base: Seq<char>, source_rel: Seq<char>) -> Seq<char> {
    if resolved_escapes(base, source_rel) {
        Seq::empty()
    } else {
        let segs = resolved_segs(base, source_rel);
        if segs.len() == 0 {
            Seq::empty()
        } else {
            join_segs(segs.drop_last())
        }
    }
}

/// The destination's path part names a known content file: it stays
/// under the root and its normalized path is in the file list.
pub open spec fn target_known(base: Seq<char>, source_rel: Seq<char>, files: Seq<Seq<char>>) -> bool {
    !resolved_escapes(base, source_rel) && files.contains(join_segs(resolved_segs(base, source_rel)))
}

/// Resolve a destination's path part against the linking page: the
/// normalized root-relative target, and the target's directory when the
/// target stays under the root.
pub fn resolve_link_path(base: &str, source_rel: &str) -> (r: (String, Option<String>))
    ensures
        r.0@ == join_segs(resolved_segs(base@, source_rel@)),
        match r.1 {
            Some(d) => !resolved_escapes(base@, source_rel@) && d@ == resolved_dir(base@, source_rel@),
            None => resolved_escapes(base@, source_rel@),
        },
{
    let v = str_chars(base);
    let segs = resolved_segments_exec(&v, source_rel);
    let joined = join_segments(&segs);
    let dotdot: Vec<char> = vec!['.', '.'];
    assert(dotdot@ =~= seq!['.', '.']);
    let escapes = if segs.len() > 0 {
        crate::text::chars_eq(&segs[0], &dotdot)
    } else {
        false
    };
    proof {
        if segs@.len() > 0 {
            assert(segs.deep_view()[0] =~~= segs@[0]@);
        }
        assert(escapes == resolved_escapes(base@, source_rel@));
    }
    if escapes {
        (chars_string(&joined), None)
    } else {
        let dir = if segs.len() == 0 {
            String::new()
        } else {
            let mut par = segs;
            par.pop();
            let ghost full = resolved_segs(base@, source_rel@);
            assert(par.deep_view() =~~= full.drop_last());
            chars_string(&join_segments(&par))
        };
        (chars_string(&joined), Some(dir))
    }
}

/// Whether `s` occurs in `v`, comparing whole strings.
pub fn contains_string(v: &Vec<String>, s: &String) -> (r: bool)
    ensures
        r == v.deep_view().contains(s@),
{
    let mut i: usize = 0;
    while i < v.len()
        invariant
            i <= v@.len(),
            forall|j: int| 0 <= j < i ==> v.deep_view()[j] != s@,
        decreases v.len() - i,
    {
        if String::eq(&v[i], s) {
            assert(v.deep_view()[i as int] =~~= v@[i as int]@);
            return true;
        }
        assert(v.deep_view()[i as int] =~~= v@[i as int]@);
        i += 1;
    }
    assert(!v.deep_view().contains(s@)) by {
        if v.deep_view().contains(s@) {
            let j = choose|j: int| 0 <= j < v.deep_view().len() && v.deep_view()[j] == s@;
            assert(v.deep_view()[j] != s@);
        }
    }
    false
}

/// The destination's path part is a content-file link whose resolved
/// target is not a known content file: the advisory-warning condition.
pub open spec fn spec_link_missing(dest: Seq<char>, source_rel: Seq<char>, files: Seq<Seq<char>>) -> bool {
    if dest.len() == 0 {
        false
    } else {
        let base = link_base(dest);
        if spec_passthrough_base(base) {
            false
        } else if !spec_is_markdown(base) {
            false
        } else {
            !target_known(base, source_rel, files)
        }
    }
}

/// The advisory text reported for a missing link target.
pub open spec fn warn_text(base: Seq<char>, source_rel: Seq<char>) -> Seq<char> {
    "Missing link target: "@ + base + " referenced from "@ + source_rel
}

/// What the resolver emits for a destination: pass-through for anything
/// that is not a content-file path; otherwise the rewritten name with the
/// suffix re-appended, the README/index collision rule applied.
pub open spec fn rewrite_dest_spec(
    dest: Seq<char>,
    source_rel: Seq<char>,
    index_dirs: Seq<Seq<char>>,
) -> Seq<char> {
    if dest.len() == 0 {
        dest
    } else {
        let base = link_base(dest);
        let suffix = link_suffix(dest);
        if spec_passthrough_base(base) {
            dest
        } else if !spec_is_markdown(base) {
            dest
        } else {
            let replacement = if spec_is_readme(base) && !index_dirs.contains(
                resolved_dir(base, source_rel),
            ) {
                readme_index_spec(base)
            } else {
                replace_ext_spec(base)
            };
            replacement + suffix
        }
    }
}

/// Rewrite one link destination found in the page at `source_rel`.
/// Returns the destination to emit and, for a content-file link whose
/// target is not among `files`, the advisory warning.
pub fn rewrite_link_dest(
    dest: &str,
    source_rel: &str,
    files: &Vec<String>,
    index_dirs: &Vec<String>,
) -> (r: (String, Option<String>))
    ensures
        r.0@ == rewrite_dest_spec(dest@, source_rel@, index_dirs.deep_view()),
        match r.1 {
            Some(w) => spec_link_missing(dest@, source_rel@, files.deep_view()) && w@ == warn_text(
                link_base(dest@),
                source_rel@,
            ),
            None => !spec_link_missing(dest@, source_rel@, files.deep_view()),
        },
{
    let parts = split_link(dest);
    let (base_s, suffix_s) = match parts {
        None => {
            return (dest.to_owned(), None);
        },
        Some(pair) => pair,
    };
    let base = str_chars(base_s.as_str());
    if is_passthrough_base(&base) {
        return (dest.to_owned(), None);
    }
    if !is_markdown_chars(&base) {
        return (dest.to_owned(), None);
    }
    let (target, dir_opt) = resolve_link_path(base_s.as_str(), source_rel);
    let known = match &dir_opt {
        Some(_) => contains_string(files, &target),
        None => false,
    };
    let warning = if !known {
        let mut w = str_chars("Missing link target: ");
        push_all(&mut w, &base);
        let mid = str_chars(" referenced from ");
        push_all(&mut w, &mid);
        let src = str_chars(source_rel);
        push_all(&mut w, &src);
        assert(w@ =~= warn_text(link_base(dest@), source_rel@));
        Some(chars_string(&w))
    } else {
        None
    };
    let dir = match dir_opt {
        Some(d) => d,
        None => String::new(),
    };
    let replacement = if is_readme_chars(&base) && !contains_string(index_dirs, &dir) {
        readme_to_index(base_s.as_str())
    } else {
        replace_markdown_extension(base_s.as_str())
    };
    let mut out = str_chars(replacement.as_str());
    let suffix = str_chars(suffix_s.as_str());
    push_all(&mut out, &suffix);
    (chars_string(&out), warning)
}

fn resolved_segments_exec(base: &Vec<char>, source_rel: &str) -> (r: Vec<Vec<char>>)
    ensures
        r.deep_view() == resolved_segs(base@, source_rel@),
{
    if base.len() > 0 && base[0] == '/' {
        let segs = split_segments(base);
        normalize_segments(&segs, true)
    } else {
        let src = str_chars(source_rel);
        let src_dir = parent_dir_chars(&src);
        let mut segs = split_segments(&src_dir);
        let base_segs = split_segments(base);
        let mut all = segs;
        let mut k: usize = 0;
        let ghost lhs = segs_of(parent_dir(source_rel@));
        let ghost rhs = segs_of(base@);
        while k < base_segs.len()
            invariant
                k <= base_segs@.len(),
                base_segs.deep_view() == rhs,
                all.deep_view() =~~= lhs + rhs.subrange(0, k as int),
            decreases base_segs.len() - k,
        {
            let piece = sub_chars(&base_segs[k], 0, base_segs[k].len());
            assert(piece@ =~~= rhs[k as int]);
            let ghost prev = all.deep_view();
            all.push(piece);
            assert(all.deep_view() =~~= prev.push(rhs[k as int]));
            k += 1;
            assert(all.deep_view() =~~= lhs + rhs.subrange(0, k as int));
        }
        assert(all.deep_view() =~~= lhs + rhs);
        normalize_segments(&all, false)
    }
}


/// No `#` or `?` occurs in the sequence: it is all path part.
pub open spec fn no_break_chars(s: Seq<char>) -> bool {
    forall|j: int| 0 <= j < s.len() ==> s[j] != '#' && s[j] != '?'
}

proof fn lemma_first_break_props(s: Seq<char>, i: int)
    requires
        0 <= i <= s.len(),
    ensures
        i <= first_break(s, i) <= s.len(),
        forall|j: int| i <= j < first_break(s, i) ==> s[j] != '#' && s[j] != '?',
        first_break(s, i) < s.len() ==> (s[first_break(s, i)] == '#' || s[first_break(s, i)]
            == '?'),
    decreases s.len() - i,
{
    if i < s.len() && !(s[i] == '#' || s[i] == '?') {
        lemma_first_break_props(s, i + 1);
    }
}

proof fn lemma_first_break_at(s: Seq<char>, i: int, k: int)
    requires
        0 <= i <= k <= s.len(),
        forall|j: int| i <= j < k ==> s[j] != '#' && s[j] != '?',
        k < s.len() ==> (s[k] == '#' || s[k] == '?'),
    ensures
        first_break(s, i) == k,
    decreases k - i,
{
    if i < k {
        lemma_first_break_at(s, i + 1, k);
    }
}

proof fn lemma_strip_trailing_one(p: Seq<char>)
    requires
        p.len() > 0,
        p[p.len() - 1] != '/',
    ensures
        strip_trailing_slashes(p) == p,
{
}

proof fn lemma_strip_leading_subset(p: Seq<char>)
    ensures
        forall|j: int|
            0 <= j < strip_leading_slashes(p).len() ==> exists|q: int|
                0 <= q < p.len() && p[q] == #[trigger] strip_leading_slashes(p)[j],
    decreases p.len(),
{
    if p.len() > 0 && p[0] == '/' {
        let rest = p.subrange(1, p.len() as int);
        lemma_strip_leading_subset(rest);
        assert forall|j: int|
            0 <= j < strip_leading_slashes(p).len() implies exists|q: int|
            0 <= q < p.len() && p[q] == #[trigger] strip_leading_slashes(p)[j] by {
            assert(strip_leading_slashes(p) == strip_leading_slashes(rest));
            let q0 = choose|q: int|
                0 <= q < rest.len() && rest[q] == #[trigger] strip_leading_slashes(rest)[j];
            assert(p[q0 + 1] == rest[q0]);
        }
    }
}

/// The file-name part of a path contains no separator.
proof fn lemma_base_part_no_slash(q: Seq<char>)
    ensures
        forall|j: int| 0 <= j < base_part(q).len() ==> base_part(q)[j] != '/',
{
    crate::paths::lemma_last_pos_props(q, '/');
}

/// The concrete characters of the `.html` tail.
proof fn lemma_html_tail_facts()
    ensures
        ".html"@ =~= seq!['.', 'h', 't', 'm', 'l'],
        last_pos_of(".html"@, '.') == Some(0int),
        no_break_chars(".html"@),
        forall|j: int| 0 <= j < ".html"@.len() ==> ".html"@[j] != '/',
        ".html"@[".html"@.len() - 1] == 'l',
{
    reveal_strlit(".html");
    let t = seq!['.', 'h', 't', 'm', 'l'];
    assert(".html"@ =~= t);
    assert(t.drop_last() =~= seq!['.', 'h', 't', 'm']);
    assert(last_pos_of(t, '.') == last_pos_of(seq!['.', 'h', 't', 'm'], '.'));
    assert(seq!['.', 'h', 't', 'm'].drop_last() =~= seq!['.', 'h', 't']);
    assert(last_pos_of(seq!['.', 'h', 't', 'm'], '.') == last_pos_of(seq!['.', 'h', 't'], '.'));
    assert(seq!['.', 'h', 't'].drop_last() =~= seq!['.', 'h']);
    assert(last_pos_of(seq!['.', 'h', 't'], '.') == last_pos_of(seq!['.', 'h'], '.'));
    assert(seq!['.', 'h'].drop_last() =~= seq!['.']);
    assert(last_pos_of(seq!['.', 'h'], '.') == last_pos_of(seq!['.'], '.'));
    assert(last_pos_of(seq!['.'], '.') == Some(0int));
    assert(last_pos_of(t, '.') == Some(0int));
}

/// The concrete characters of the `index.html` name.
proof fn lemma_index_html_facts()
    ensures
        "index.html"@ =~= seq!['i', 'n', 'd', 'e', 'x'] + seq!['.', 'h', 't', 'm', 'l'],
        last_pos_of("index.html"@, '.') == Some(5int),
        no_break_chars("index.html"@),
        forall|j: int| 0 <= j < "index.html"@.len() ==> "index.html"@[j] != '/',
        "index.html"@["index.html"@.len() - 1] == 'l',
        ext_of_name("index.html"@) == Some(seq!['h', 't', 'm', 'l']),
{
    reveal_strlit("index.html");
    let pre = seq!['i', 'n', 'd', 'e', 'x'];
    lemma_html_tail_facts();
    assert("index.html"@ =~= pre + ".html"@);
    crate::paths::lemma_last_pos_concat(pre, ".html"@, '.');
    assert(last_pos_of("index.html"@, '.') == Some(5int));
    assert("index.html"@.subrange(6, 10) =~= seq!['h', 't', 'm', 'l']);
}

/// The extension `html` is not a markup extension.
proof fn lemma_html_not_markup()
    ensures
        !crate::paths::is_markup_ext(seq!['h', 't', 'm', 'l']),
{
    assert(seq!['h', 't', 'm', 'l'].len() == 4);
}

/// The rewritten name of a content-file destination is itself no
/// content-file path: its extension is `html` (or it has none).
proof fn lemma_replacement_not_markdown(repl: Seq<char>, prefix: Seq<char>, name: Seq<char>)
    requires
        repl == prefix + name,
        prefix.len() == 0 || prefix[prefix.len() - 1] == '/',
        forall|j: int| 0 <= j < name.len() ==> name[j] != '/',
        name.len() > 0,
        name[name.len() - 1] == 'l',
        match last_pos_of(name, '.') {
            Some(i) => i > 0 ==> ext_of_name(name) == Some(seq!['h', 't', 'm', 'l']),
            None => true,
        },
    ensures
        !spec_is_markdown(repl),
{
    assert(repl.len() > 0);
    assert(repl[repl.len() - 1] == name[name.len() - 1]);
    lemma_strip_trailing_one(repl);
    crate::paths::lemma_no_char_no_last_pos(name, '/');
    crate::paths::lemma_last_pos_concat(prefix, name, '/');
    if prefix.len() == 0 {
        assert(repl =~= name);
    } else {
        assert(last_pos_of(prefix, '/') == Some(prefix.len() - 1));
        assert(base_part(repl) =~= name);
    }
    assert(base_part(repl) == name);
    assert(name != seq!['.'] && name != seq!['.', '.']) by {
        if name == seq!['.'] {
            assert(name[name.len() - 1] == '.');
        }
        if name == seq!['.', '.'] {
            assert(name[name.len() - 1] == '.');
        }
    }
    assert(file_name_opt(repl) == Some(name));
    match last_pos_of(name, '.') {
        Some(i) => {
            if i > 0 {
                lemma_html_not_markup();
            }
        },
        None => {},
    }
}

/// Facts about the pieces a rewritten destination is assembled from: the
/// written prefix keeps the base's characters plus separators, and the
/// kept stem is part of the base's file name.
proof fn lemma_dir_prefix_chars(base: Seq<char>)
    requires
        no_break_chars(base),
    ensures
        no_break_chars(dir_prefix(base)),
        dir_prefix(base).len() == 0 || dir_prefix(base)[dir_prefix(base).len() - 1] == '/',
{
    let par = parent_dir(base);
    crate::paths::lemma_last_pos_props(base, '/');
    let absolute = base.len() > 0 && base[0] == '/';
    if par.len() == 0 || par == seq!['.'] {
    } else if absolute {
        let trimmed = strip_leading_slashes(par);
        lemma_strip_leading_subset(par);
        if trimmed.len() == 0 {
        } else {
            assert forall|j: int|
                0 <= j < dir_prefix(base).len() implies dir_prefix(base)[j] != '#' && dir_prefix(
                base,
            )[j] != '?' by {
                if 1 <= j < 1 + trimmed.len() {
                    assert(dir_prefix(base)[j] == trimmed[j - 1]);
                    let q = choose|q: int| 0 <= q < par.len() && par[q] == trimmed[j - 1];
                    assert(base[q] == par[q]);
                }
            }
        }
    } else {
        assert forall|j: int|
            0 <= j < dir_prefix(base).len() implies dir_prefix(base)[j] != '#' && dir_prefix(
            base,
        )[j] != '?' by {
            if j < par.len() {
                assert(par[j] == base[j]);
            }
        }
    }
}

/// Link rewriting is idempotent: what the resolver emits, fed back to the
/// resolver, comes out unchanged — a rewritten name ends in `.html`,
/// which is not a markup extension, and everything else passes through.
pub proof fn lemma_rewrite_idempotent(
    dest: Seq<char>,
    source_rel: Seq<char>,
    index_dirs: Seq<Seq<char>>,
)
    ensures
        rewrite_dest_spec(
            rewrite_dest_spec(dest, source_rel, index_dirs),
            source_rel,
            index_dirs,
        ) == rewrite_dest_spec(dest, source_rel, index_dirs),
{
    let out = rewrite_dest_spec(dest, source_rel, index_dirs);
    if dest.len() == 0 {
    } else {
        let base = link_base(dest);
        let suffix = link_suffix(dest);
        lemma_first_break_props(dest, 0);
        if spec_passthrough_base(base) || !spec_is_markdown(base) {
            assert(out == dest);
        } else {
            let repl = if spec_is_readme(base) && !index_dirs.contains(
                resolved_dir(base, source_rel),
            ) {
                readme_index_spec(base)
            } else {
                replace_ext_spec(base)
            };
            assert(out == repl + suffix);
            assert(no_break_chars(base)) by {
                assert forall|j: int| 0 <= j < base.len() implies base[j] != '#' && base[j]
                    != '?' by {
                    assert(base[j] == dest[j]);
                }
            }
            lemma_dir_prefix_chars(base);
            lemma_html_tail_facts();
            lemma_index_html_facts();
            let prefix = dir_prefix(base);
            let name = if spec_is_readme(base) && !index_dirs.contains(
                resolved_dir(base, source_rel),
            ) {
                "index.html"@
            } else {
                rewrite_stem(base) + ".html"@
            };
            assert(repl =~= prefix + name);
            assert(file_name_opt(base) is Some);
            assert(no_break_chars(rewrite_stem(base)) && (forall|j: int|
                0 <= j < rewrite_stem(base).len() ==> rewrite_stem(base)[j] != '/')) by {
                let n = file_name_opt(base).unwrap();
                let q = strip_trailing_slashes(base);
                lemma_strip_trailing_subrange(base);
                lemma_base_part_no_slash(q);
                crate::paths::lemma_last_pos_props(q, '/');
                let off: int = match last_pos_of(q, '/') {
                    Some(i) => i + 1,
                    None => 0,
                };
                assert(n == base_part(q));
                crate::paths::lemma_last_pos_props(n, '.');
                assert(rewrite_stem(base) == stem_of_name(n));
                assert forall|j: int|
                    0 <= j < rewrite_stem(base).len() implies rewrite_stem(base)[j] != '#'
                    && rewrite_stem(base)[j] != '?' && rewrite_stem(base)[j] != '/' by {
                    assert(rewrite_stem(base)[j] == n[j]);
                    assert(n[j] == q[off + j]);
                    assert(q[off + j] == base[off + j]);
                }
            }
            assert(no_break_chars(name));
            assert(no_break_chars(repl)) by {
                assert forall|j: int| 0 <= j < repl.len() implies repl[j] != '#' && repl[j]
                    != '?' by {
                    if j < prefix.len() {
                        assert(repl[j] == prefix[j]);
                    } else {
                        assert(repl[j] == name[j - prefix.len()]);
                    }
                }
            }
            assert(out.len() > 0);
            assert(suffix.len() == 0 || suffix[0] == '#' || suffix[0] == '?') by {
                let fb = first_break(dest, 0);
                if fb < dest.len() {
                    assert(suffix[0] == dest[fb]);
                }
            }
            lemma_first_break_at(out, 0, repl.len() as int);
            assert(link_base(out) =~= repl);
            assert(link_suffix(out) =~= suffix);
            let name_last_ok: bool = name[name.len() - 1] == 'l';
            assert(name_last_ok);
            assert(forall|j: int| 0 <= j < name.len() ==> name[j] != '/') by {
                if !(spec_is_readme(base) && !index_dirs.contains(resolved_dir(base, source_rel))) {
                    assert forall|j: int| 0 <= j < name.len() implies name[j] != '/' by {
                        if j < rewrite_stem(base).len() {
                        } else {
                            assert(name[j] == ".html"@[j - rewrite_stem(base).len()]);
                        }
                    }
                }
            }
            assert(match last_pos_of(name, '.') {
                Some(i) => i > 0 ==> ext_of_name(name) == Some(seq!['h', 't', 'm', 'l']),
                None => true,
            }) by {
                if spec_is_readme(base) && !index_dirs.contains(resolved_dir(base, source_rel)) {
                } else {
                    let stem = rewrite_stem(base);
                    crate::paths::lemma_last_pos_concat(stem, ".html"@, '.');
                    assert(last_pos_of(name, '.') == Some(stem.len() as int));
                    if stem.len() > 0 {
                        assert(name.subrange(stem.len() as int + 1, name.len() as int) =~= seq![
                            'h',
                            't',
                            'm',
                            'l',
                        ]);
                    }
                }
            }
            lemma_replacement_not_markdown(link_base(out), prefix, name);
            assert(rewrite_dest_spec(out, source_rel, index_dirs) == out);
        }
    }
}

/// The stem kept by a rewrite is a piece of the base's file-name part.
proof fn lemma_strip_trailing_subrange(p: Seq<char>)
    ensures
        forall|j: int|
            0 <= j < strip_trailing_slashes(p).len() ==> #[trigger] strip_trailing_slashes(p)[j]
                == p[j],
        strip_trailing_slashes(p).len() <= p.len(),
    decreases p.len(),
{
    if p.len() > 0 && p[p.len() - 1] == '/' {
        lemma_strip_trailing_subrange(p.drop_last());
    }
}

} // verus!

