//! The site map: the registry of every content page found in one walk of
//! the source tree, with the directory classifications the navigation and
//! emission rules need.
//!
//! The builder takes the walked files as plain values (source-relative
//! path plus contents); reading the tree itself is the caller's business.

use vstd::multiset::Multiset;
use vstd::prelude::*;

use crate::markdown::{first_heading_of, first_heading_title};
use crate::paths::{
    base_part, parent_dir, parent_dir_chars, spec_is_index, spec_is_markdown, spec_is_readme,
    stem_of_name, stem_opt,
};
use crate::text::{chars_string, lex_le, str_chars};

verus! {

/// One file handed to the site-map builder: where it sits below the
/// source root, and what it holds.
pub struct SourceFile {
    pub rel_path: String,
    pub contents: String,
}

/// One content page of the site.
pub struct PageEntry {
    pub rel_path: String,
    pub output_rel: String,
    pub title: String,
    pub is_index: bool,
    pub is_readme: bool,
}

/// The page registry of one build pass.
pub struct SiteMap {
    pub pages: Vec<PageEntry>,
    pub index_dirs: Vec<String>,
    pub landing_dirs: Vec<String>,
}

/// `-` and `_` made spaces: the humanized form of a file or folder name.
pub open spec fn humanize(s: Seq<char>) -> Seq<char> {
    s.map(
        |i: int, c: char|
            if c == '-' || c == '_' {
                ' '
            } else {
                c
            },
    )
}

/// The title used when the document has no heading: the humanized stem.
pub open spec fn fallback_title(rel: Seq<char>) -> Seq<char> {
    match stem_opt(rel) {
        Some(st) => humanize(st),
        None => humanize("Document"@),
    }
}

/// A page's display title: its first heading, or the humanized stem.
pub open spec fn title_spec(rel: Seq<char>, md: Seq<char>) -> Seq<char> {
    match first_heading_of(md) {
        Some(t) => t,
        None => fallback_title(rel),
    }
}

/// The mechanical output path of a content file: the same directory,
/// with the extension swapped for `.html`.
pub open spec fn output_path_of(rel: Seq<char>) -> Seq<char> {
    let pre = if parent_dir(rel).len() == 0 {
        Seq::<char>::empty()
    } else {
        parent_dir(rel) + seq!['/']
    };
    pre + stem_of_name(base_part(rel)) + seq!['.', 'h', 't', 'm', 'l']
}

/// The page the builder records for a content file.
pub open spec fn page_for(rel: Seq<char>, md: Seq<char>, p: PageEntry) -> bool {
    &&& p.rel_path@ == rel
    &&& p.output_rel@ == output_path_of(rel)
    &&& p.title@ == title_spec(rel, md)
    &&& p.is_index == spec_is_index(rel)
    &&& p.is_readme == spec_is_readme(rel)
}

/// A page whose flags and output path agree with its source path.
pub open spec fn page_coherent(p: PageEntry) -> bool {
    &&& spec_is_markdown(p.rel_path@)
    &&& p.output_rel@ == output_path_of(p.rel_path@)
    &&& p.is_index == spec_is_index(p.rel_path@)
    &&& p.is_readme == spec_is_readme(p.rel_path@)
}

/// The site map's invariant: every page is coherent, and a directory
/// with an index file is also a landing directory.
pub open spec fn site_map_wf(m: SiteMap) -> bool {
    &&& forall|j: int| 0 <= j < m.pages@.len() ==> page_coherent(#[trigger] m.pages@[j])
    &&& forall|d: Seq<char>|
        #[trigger] m.index_dirs.deep_view().contains(d) ==> m.landing_dirs.deep_view().contains(d)
}

/// No directory is listed twice.
pub open spec fn distinct_dirs(s: Seq<Seq<char>>) -> bool {
    forall|i: int, j: int| 0 <= i < j < s.len() ==> #[trigger] s[i] != #[trigger] s[j]
}

/// A directory contains an index file among the given sources.
pub open spec fn dir_has_index(files: Seq<SourceFile>, d: Seq<char>) -> bool {
    exists|k: int|
        0 <= k < files.len() && spec_is_index(#[trigger] files[k].rel_path@) && parent_dir(
            files[k].rel_path@,
        ) == d
}

/// A directory contains an index or README file among the given sources.
pub open spec fn dir_has_landing(files: Seq<SourceFile>, d: Seq<char>) -> bool {
    exists|k: int|
        0 <= k < files.len() && (spec_is_index(#[trigger] files[k].rel_path@) || spec_is_readme(
            files[k].rel_path@,
        )) && parent_dir(files[k].rel_path@) == d
}

fn humanize_exec(v: &Vec<char>) -> (r: Vec<char>)
    ensures
        r@ == humanize(v@),
{
    let mut out: Vec<char> = Vec::new();
    let mut i: usize = 0;
    while i < v.len()
        invariant
            i <= v@.len(),
            out@ =~= humanize(v@).subrange(0, i as int),
        decreases v.len() - i,
    {
        let c = v[i];
        if c == '-' || c == '_' {
            out.push(' ');
        } else {
            out.push(c);
        }
        i += 1;
        assert(out@ =~= humanize(v@).subrange(0, i as int));
    }
    assert(out@ =~= humanize(v@));
    out
}

/// The display title of the page at `rel` with the given contents.
fn page_title(rel: &Vec<char>, contents: &str) -> (t: String)
    ensures
        t@ == title_spec(rel@, contents@),
{
    match first_heading_title(contents) {
        Some(t) => t,
        None => {
            let stem = match crate::paths::file_name_exec(rel) {
                Some(n) => {
                    let (s, _e) = crate::paths::split_name(&n);
                    s
                },
                None => str_chars("Document"),
            };
            chars_string(&humanize_exec(&stem))
        },
    }
}

fn output_path_exec(rel: &Vec<char>) -> (r: Vec<char>)
    ensures
        r@ == output_path_of(rel@),
{
    let par = parent_dir_chars(rel);
    let mut out: Vec<char> = Vec::new();
    if par.len() > 0 {
        crate::text::push_all(&mut out, &par);
        out.push('/');
        assert(out@ =~= parent_dir(rel@) + seq!['/']);
    } else {
        assert(out@ =~= Seq::<char>::empty());
    }
    let rel_len: usize = rel.len();
    let name = match crate::paths::rfind_char(rel, '/') {
        Some(i) => crate::text::sub_chars(rel, i + 1, rel_len),
        None => crate::text::sub_chars(rel, 0, rel_len),
    };
    assert(name@ == base_part(rel@)) by {
        if last_pos_of_is_none(rel@) {
            assert(rel@.subrange(0, rel@.len() as int) =~= rel@);
        }
    }
    let (stem, _ext) = crate::paths::split_name(&name);
    crate::text::push_all(&mut out, &stem);
    out.push('.');
    out.push('h');
    out.push('t');
    out.push('m');
    out.push('l');
    assert(out@ =~= output_path_of(rel@));
    out
}

spec fn last_pos_of_is_none(p: Seq<char>) -> bool {
    crate::paths::last_pos_of(p, '/') is None
}

/// How membership changes when at most one element is appended.
proof fn lemma_contains_step(
    old_dv: Seq<Seq<char>>,
    new_dv: Seq<Seq<char>>,
    pushed: Seq<char>,
    d: Seq<char>,
)
    requires
        new_dv == old_dv || new_dv == old_dv.push(pushed),
    ensures
        new_dv.contains(d) <==> (old_dv.contains(d) || (new_dv != old_dv && d == pushed)),
{
    if new_dv == old_dv {
    } else {
        assert(new_dv.len() == old_dv.len() + 1);
        if new_dv.contains(d) {
            let j = choose|j: int| 0 <= j < new_dv.len() && new_dv[j] == d;
            if j < old_dv.len() {
                assert(old_dv[j] == d);
                assert(old_dv.contains(d));
            } else {
                assert(d == pushed);
            }
        }
        if old_dv.contains(d) {
            let j = choose|j: int| 0 <= j < old_dv.len() && old_dv[j] == d;
            assert(new_dv[j] == d);
            assert(new_dv.contains(d));
        }
        if d == pushed {
            assert(new_dv[old_dv.len() as int] == d);
            assert(new_dv.contains(d));
        }
    }
}


/// The page was built from one of the given files.
pub open spec fn page_from_files(files: Seq<SourceFile>, p: PageEntry) -> bool {
    exists|k: int|
        0 <= k < files.len() && spec_is_markdown(#[trigger] files[k].rel_path@) && page_for(
            files[k].rel_path@,
            files[k].contents@,
            p,
        )
}

/// The file's page is in the registry.
pub open spec fn file_has_page(pages: Seq<PageEntry>, f: SourceFile) -> bool {
    exists|j: int|
        0 <= j < pages.len() && page_for(f.rel_path@, f.contents@, #[trigger] pages[j])
}

proof fn lemma_page_from_files_push(files: Seq<SourceFile>, f: SourceFile, p: PageEntry)
    requires
        page_from_files(files, p),
    ensures
        page_from_files(files.push(f), p),
{
    let k = choose|k: int|
        0 <= k < files.len() && spec_is_markdown(#[trigger] files[k].rel_path@) && page_for(
            files[k].rel_path@,
            files[k].contents@,
            p,
        );
    assert(files.push(f)[k] == files[k]);
    assert(spec_is_markdown(files.push(f)[k].rel_path@));
}

proof fn lemma_file_has_page_push(pages: Seq<PageEntry>, p: PageEntry, f: SourceFile)
    requires
        file_has_page(pages, f),
    ensures
        file_has_page(pages.push(p), f),
{
    let j = choose|j: int|
        0 <= j < pages.len() && page_for(f.rel_path@, f.contents@, #[trigger] pages[j]);
    assert(pages.push(p)[j] == pages[j]);
    assert(page_for(f.rel_path@, f.contents@, pages.push(p)[j]));
}

/// How the index classification grows by one walked file.
proof fn lemma_has_index_step(pre: Seq<SourceFile>, f: SourceFile, d: Seq<char>)
    ensures
        dir_has_index(pre.push(f), d) <==> (dir_has_index(pre, d) || (spec_is_index(f.rel_path@)
            && parent_dir(f.rel_path@) == d)),
{
    let ext = pre.push(f);
    if dir_has_index(ext, d) {
        let k = choose|k: int|
            0 <= k < ext.len() && spec_is_index(#[trigger] ext[k].rel_path@) && parent_dir(
                ext[k].rel_path@,
            ) == d;
        if k < pre.len() {
            assert(pre[k] == ext[k]);
            assert(spec_is_index(pre[k].rel_path@));
            assert(dir_has_index(pre, d));
        } else {
            assert(ext[k] == f);
        }
    }
    if dir_has_index(pre, d) {
        let k = choose|k: int|
            0 <= k < pre.len() && spec_is_index(#[trigger] pre[k].rel_path@) && parent_dir(
                pre[k].rel_path@,
            ) == d;
        assert(ext[k] == pre[k]);
        assert(spec_is_index(ext[k].rel_path@));
        assert(dir_has_index(ext, d));
    }
    if spec_is_index(f.rel_path@) && parent_dir(f.rel_path@) == d {
        assert(ext[pre.len() as int] == f);
        assert(spec_is_index(ext[pre.len() as int].rel_path@));
        assert(dir_has_index(ext, d));
    }
}

/// How the landing classification grows by one walked file.
proof fn lemma_has_landing_step(pre: Seq<SourceFile>, f: SourceFile, d: Seq<char>)
    ensures
        dir_has_landing(pre.push(f), d) <==> (dir_has_landing(pre, d) || ((spec_is_index(
            f.rel_path@,
        ) || spec_is_readme(f.rel_path@)) && parent_dir(f.rel_path@) == d)),
{
    let ext = pre.push(f);
    if dir_has_landing(ext, d) {
        let k = choose|k: int|
            0 <= k < ext.len() && (spec_is_index(#[trigger] ext[k].rel_path@) || spec_is_readme(
                ext[k].rel_path@,
            )) && parent_dir(ext[k].rel_path@) == d;
        if k < pre.len() {
            assert(pre[k] == ext[k]);
            assert(spec_is_index(pre[k].rel_path@) || spec_is_readme(pre[k].rel_path@));
            assert(dir_has_landing(pre, d));
        } else {
            assert(ext[k] == f);
        }
    }
    if dir_has_landing(pre, d) {
        let k = choose|k: int|
            0 <= k < pre.len() && (spec_is_index(#[trigger] pre[k].rel_path@) || spec_is_readme(
                pre[k].rel_path@,
            )) && parent_dir(pre[k].rel_path@) == d;
        assert(ext[k] == pre[k]);
        assert(spec_is_index(ext[k].rel_path@) || spec_is_readme(ext[k].rel_path@));
        assert(dir_has_landing(ext, d));
    }
    if (spec_is_index(f.rel_path@) || spec_is_readme(f.rel_path@)) && parent_dir(f.rel_path@)
        == d {
        assert(ext[pre.len() as int] == f);
        assert(spec_is_index(ext[pre.len() as int].rel_path@) || spec_is_readme(
            ext[pre.len() as int].rel_path@,
        ));
        assert(dir_has_landing(ext, d));
    }
}

/// Record one walked file: a content file adds its page and classifies
/// its directory; anything else changes nothing.
fn record_file(
    pages: &mut Vec<PageEntry>,
    index_dirs: &mut Vec<String>,
    landing_dirs: &mut Vec<String>,
    f: &SourceFile,
)
    ensures
        spec_is_markdown(f.rel_path@) ==> final(pages)@ == old(pages)@.push(
            final(pages)@.last(),
        ) && page_for(f.rel_path@, f.contents@, final(pages)@.last()),
        !spec_is_markdown(f.rel_path@) ==> final(pages)@ == old(pages)@,
        forall|d: Seq<char>|
            #[trigger] final(index_dirs).deep_view().contains(d) <==> (old(
                index_dirs,
            ).deep_view().contains(d) || (spec_is_index(f.rel_path@) && parent_dir(f.rel_path@)
                == d)),
        forall|d: Seq<char>|
            #[trigger] final(landing_dirs).deep_view().contains(d) <==> (old(
                landing_dirs,
            ).deep_view().contains(d) || ((spec_is_index(f.rel_path@) || spec_is_readme(
                f.rel_path@,
            )) && parent_dir(f.rel_path@) == d)),
        distinct_dirs(old(index_dirs).deep_view()) ==> distinct_dirs(
            final(index_dirs).deep_view(),
        ),
        distinct_dirs(old(landing_dirs).deep_view()) ==> distinct_dirs(
            final(landing_dirs).deep_view(),
        ),
{
    let rel = str_chars(f.rel_path.as_str());
    if !crate::paths::is_markdown_chars(&rel) {
        return ;
    }
    let title = page_title(&rel, f.contents.as_str());
    let output = chars_string(&output_path_exec(&rel));
    let is_i = crate::paths::is_index_chars(&rel);
    let is_r = crate::paths::is_readme_chars(&rel);
    let page = PageEntry {
        rel_path: f.rel_path.clone(),
        output_rel: output,
        title,
        is_index: is_i,
        is_readme: is_r,
    };
    assert(page_for(f.rel_path@, f.contents@, page));
    let ghost pages0 = pages@;
    pages.push(page);
    assert(pages@ =~= pages0.push(pages@.last()));
    let dir = chars_string(&parent_dir_chars(&rel));
    let ghost idx0 = index_dirs.deep_view();
    let ghost land0 = landing_dirs.deep_view();
    if is_i {
        if !crate::links::contains_string(index_dirs, &dir) {
            index_dirs.push(dir.clone());
            assert(index_dirs.deep_view() =~~= idx0.push(dir@));
        }
    }
    if is_i || is_r {
        if !crate::links::contains_string(landing_dirs, &dir) {
            landing_dirs.push(dir.clone());
            assert(landing_dirs.deep_view() =~~= land0.push(dir@));
        }
    }
    proof {
        assert forall|d: Seq<char>| #[trigger]
            index_dirs.deep_view().contains(d) <==> (idx0.contains(d) || (is_i && dir@ == d)) by {
            lemma_contains_step(idx0, index_dirs.deep_view(), dir@, d);
        }
        assert forall|d: Seq<char>| #[trigger]
            landing_dirs.deep_view().contains(d) <==> (land0.contains(d) || ((is_i || is_r)
                && dir@ == d)) by {
            lemma_contains_step(land0, landing_dirs.deep_view(), dir@, d);
        }
        lemma_push_keeps_distinct(idx0, index_dirs.deep_view(), dir@);
        lemma_push_keeps_distinct(land0, landing_dirs.deep_view(), dir@);
    }
}

/// Appending a directory that was absent keeps the list duplicate-free.
proof fn lemma_push_keeps_distinct(old_dv: Seq<Seq<char>>, new_dv: Seq<Seq<char>>, pushed: Seq<char>)
    requires
        new_dv == old_dv || (new_dv == old_dv.push(pushed) && !old_dv.contains(pushed)),
    ensures
        distinct_dirs(old_dv) ==> distinct_dirs(new_dv),
{
    if distinct_dirs(old_dv) && new_dv != old_dv {
        assert forall|i: int, j: int| 0 <= i < j < new_dv.len() implies #[trigger] new_dv[i]
            != #[trigger] new_dv[j] by {
            if j < old_dv.len() {
                assert(new_dv[i] == old_dv[i] && new_dv[j] == old_dv[j]);
            } else {
                assert(new_dv[j] == pushed);
                assert(new_dv[i] == old_dv[i]);
                if old_dv[i] == pushed {
                    assert(old_dv.contains(pushed));
                }
            }
        }
    }
}

/// Walk the given files once and build the full page registry: one page
/// per content file, and the index/landing classification of every
/// directory that has one.
pub fn build_site_map(files: &Vec<SourceFile>) -> (m: SiteMap)
    ensures
        site_map_wf(m),
        forall|j: int|
            0 <= j < m.pages@.len() ==> page_from_files(files@, #[trigger] m.pages@[j]),
        forall|k: int|
            0 <= k < files@.len() && spec_is_markdown(#[trigger] files@[k].rel_path@)
                ==> file_has_page(m.pages@, files@[k]),
        forall|d: Seq<char>|
            #[trigger] m.index_dirs.deep_view().contains(d) <==> dir_has_index(files@, d),
        forall|d: Seq<char>|
            #[trigger] m.landing_dirs.deep_view().contains(d) <==> dir_has_landing(files@, d),
        distinct_dirs(m.index_dirs.deep_view()),
        distinct_dirs(m.landing_dirs.deep_view()),
{
    let mut pages: Vec<PageEntry> = Vec::new();
    let mut index_dirs: Vec<String> = Vec::new();
    let mut landing_dirs: Vec<String> = Vec::new();
    let mut i: usize = 0;
    while i < files.len()
        invariant
            i <= files@.len(),
            forall|j: int|
                0 <= j < pages@.len() ==> page_from_files(
                    files@.subrange(0, i as int),
                    #[trigger] pages@[j],
                ),
            forall|k: int|
                0 <= k < i && spec_is_markdown(#[trigger] files@[k].rel_path@) ==> file_has_page(
                    pages@,
                    files@[k],
                ),
            forall|d: Seq<char>|
                #[trigger] index_dirs.deep_view().contains(d) <==> dir_has_index(
                    files@.subrange(0, i as int),
                    d,
                ),
            forall|d: Seq<char>|
                #[trigger] landing_dirs.deep_view().contains(d) <==> dir_has_landing(
                    files@.subrange(0, i as int),
                    d,
                ),
            distinct_dirs(index_dirs.deep_view()),
            distinct_dirs(landing_dirs.deep_view()),
        decreases files.len() - i,
    {
        let ghost pre = files@.subrange(0, i as int);
        let ghost pages0 = pages@;
        let f = &files[i];
        record_file(&mut pages, &mut index_dirs, &mut landing_dirs, f);
        proof {
            let ghost fi = files@[i as int];
            assert(files@.subrange(0, i + 1) =~= pre.push(fi));
            let ext = pre.push(fi);
            assert forall|d: Seq<char>| #[trigger]
                index_dirs.deep_view().contains(d) <==> dir_has_index(ext, d) by {
                lemma_has_index_step(pre, fi, d);
            }
            assert forall|d: Seq<char>| #[trigger]
                landing_dirs.deep_view().contains(d) <==> dir_has_landing(ext, d) by {
                lemma_has_landing_step(pre, fi, d);
            }
            if spec_is_markdown(fi.rel_path@) {
                let newp = pages@.last();
                assert(pages@ == pages0.push(newp));
                assert(page_for(fi.rel_path@, fi.contents@, newp));
                assert forall|j: int| 0 <= j < pages@.len() implies page_from_files(
                    ext,
                    #[trigger] pages@[j],
                ) by {
                    if j < pages0.len() {
                        assert(pages@[j] == pages0[j]);
                        lemma_page_from_files_push(pre, fi, pages0[j]);
                    } else {
                        assert(pages@[j] == newp);
                        assert(ext[pre.len() as int] == fi);
                        assert(spec_is_markdown(ext[pre.len() as int].rel_path@));
                        assert(page_from_files(ext, newp));
                    }
                }
                assert forall|k: int|
                    0 <= k < i + 1 && spec_is_markdown(
                        #[trigger] files@[k].rel_path@,
                    ) implies file_has_page(pages@, files@[k]) by {
                    if k < i {
                        lemma_file_has_page_push(pages0, newp, files@[k]);
                    } else {
                        assert(pages@[pages0.len() as int] == newp);
                        assert(page_for(
                            files@[k].rel_path@,
                            files@[k].contents@,
                            pages@[pages0.len() as int],
                        ));
                        assert(file_has_page(pages@, files@[k]));
                    }
                }
            } else {
                assert(pages@ == pages0);
                assert forall|j: int| 0 <= j < pages@.len() implies page_from_files(
                    ext,
                    #[trigger] pages@[j],
                ) by {
                    lemma_page_from_files_push(pre, fi, pages@[j]);
                }
            }
        }
        i += 1;
    }
    proof {
        assert(files@.subrange(0, i as int) =~= files@);
    }
    let m = SiteMap { pages, index_dirs, landing_dirs };
    proof {
        assert forall|d: Seq<char>| #[trigger]
            m.index_dirs.deep_view().contains(d) implies m.landing_dirs.deep_view().contains(
            d,
        ) by {
            assert(dir_has_index(files@, d));
            let k = choose|k: int|
                0 <= k < files@.len() && spec_is_index(#[trigger] files@[k].rel_path@)
                    && parent_dir(files@[k].rel_path@) == d;
            assert(spec_is_readme(files@[k].rel_path@) || spec_is_index(files@[k].rel_path@));
            assert(dir_has_landing(files@, d));
        }
        assert forall|j: int| 0 <= j < m.pages@.len() implies page_coherent(
            #[trigger] m.pages@[j],
        ) by {
            assert(page_from_files(files@, m.pages@[j]));
            let k = choose|k: int|
                0 <= k < files@.len() && spec_is_markdown(#[trigger] files@[k].rel_path@)
                    && page_for(files@[k].rel_path@, files@[k].contents@, m.pages@[j]);
        }
    }
    m
}

/// Pages in non-descending title order (ordinal comparison).
pub open spec fn sorted_by_title(s: Seq<PageEntry>) -> bool {
    forall|i: int, j: int| 0 <= i <= j < s.len() ==> lex_le(#[trigger] s[i].title@, #[trigger] s[j].title@)
}

/// A field-for-field copy of a page.
pub fn clone_page(p: &PageEntry) -> (r: PageEntry)
    ensures
        r == *p,
{
    let r = PageEntry {
        rel_path: p.rel_path.clone(),
        output_rel: p.output_rel.clone(),
        title: p.title.clone(),
        is_index: p.is_index,
        is_readme: p.is_readme,
    };
    assert(r == *p);
    r
}

/// Sort pages into non-descending title order (ordinal comparison).
pub fn sort_pages(input: Vec<PageEntry>) -> (r: Vec<PageEntry>)
    ensures
        sorted_by_title(r@),
        r@.to_multiset() == input@.to_multiset(),
{
    broadcast use vstd::seq_lib::group_to_multiset_ensures;

    let mut rem = input;
    let mut out: Vec<PageEntry> = Vec::new();
    proof {
        assert(out@.to_multiset() =~= Multiset::<PageEntry>::empty());
    }
    while rem.len() > 0
        invariant
            out@.to_multiset().add(rem@.to_multiset()) =~= input@.to_multiset(),
            sorted_by_title(out@),
            forall|a: int, b: int|
                0 <= a < out@.len() && 0 <= b < rem@.len() ==> lex_le(
                    #[trigger] out@[a].title@,
                    #[trigger] rem@[b].title@,
                ),
        decreases rem.len(),
    {
        broadcast use vstd::seq_lib::group_to_multiset_ensures;

        let mut min_idx: usize = 0;
        let mut t: usize = 1;
        proof {
            crate::text::lemma_lex_le_total(rem@[0].title@, rem@[0].title@);
        }
        while t < rem.len()
            invariant
                min_idx < t,
                t <= rem@.len(),
                1 <= t,
                forall|q: int| 0 <= q < t ==> lex_le(rem@[min_idx as int].title@, #[trigger] rem@[q].title@),
            decreases rem.len() - t,
        {
            let a = crate::text::str_chars(rem[t].title.as_str());
            let b = crate::text::str_chars(rem[min_idx].title.as_str());
            if crate::text::chars_lt(&a, &b) {
                proof {
                    assert forall|q: int| 0 <= q < t implies lex_le(
                        rem@[t as int].title@,
                        #[trigger] rem@[q].title@,
                    ) by {
                        if crate::text::lex_lt(rem@[q].title@, rem@[t as int].title@) {
                            crate::text::lemma_lex_lt_trans(
                                rem@[q].title@,
                                rem@[t as int].title@,
                                rem@[min_idx as int].title@,
                            );
                        }
                    }
                }
                min_idx = t;
            }
            proof {
                crate::text::lemma_lex_le_total(
                    rem@[min_idx as int].title@,
                    rem@[t as int].title@,
                );
            }
            t += 1;
        }
        let ghost rem0 = rem@;
        let e = rem.remove(min_idx);
        assert(rem@ == rem0.remove(min_idx as int));
        assert(e == rem0[min_idx as int]);
        assert(rem0.contains(e));
        assert(rem0.to_multiset().count(e) > 0);
        let ghost out0 = out@;
        out.push(e);
        proof {
            assert(out@ == out0.push(e));
            assert(out@.to_multiset().add(rem@.to_multiset()) =~= input@.to_multiset());
            assert forall|a: int, b: int|
                0 <= a < out@.len() && 0 <= b < rem@.len() implies lex_le(
                #[trigger] out@[a].title@,
                #[trigger] rem@[b].title@,
            ) by {
                let orig_b: int = if b < min_idx {
                    b
                } else {
                    b + 1
                };
                assert(rem@[b] == rem0[orig_b]);
                if a < out0.len() {
                    assert(out@[a] == out0[a]);
                    assert(lex_le(out0[a].title@, rem0[orig_b].title@));
                } else {
                    assert(out@[a] == e);
                    assert(lex_le(e.title@, rem0[orig_b].title@));
                }
            }
            assert forall|a: int, b: int| 0 <= a <= b < out@.len() implies lex_le(
                #[trigger] out@[a].title@,
                #[trigger] out@[b].title@,
            ) by {
                if b < out0.len() {
                } else if a < out0.len() {
                    assert(lex_le(out0[a].title@, rem0[min_idx as int].title@));
                } else {
                    crate::text::lemma_lex_le_total(e.title@, e.title@);
                }
            }
        }
    }
    proof {
        assert(rem@.to_multiset() =~= Multiset::<PageEntry>::empty());
        assert(out@.to_multiset() =~= input@.to_multiset());
    }
    out
}

/// The pages of one directory, in title order: the page list shown in
/// that directory's navigation.
pub fn pages_in_dir(m: &SiteMap, dir: &str) -> (r: Vec<PageEntry>)
    ensures
        sorted_by_title(r@),
        r@.to_multiset() == m.pages@.filter(
            |p: PageEntry| parent_dir(p.rel_path@) == dir@,
        ).to_multiset(),
{
    let dir_chars = str_chars(dir);
    let mut picked: Vec<PageEntry> = Vec::new();
    let mut j: usize = 0;
    let ghost pred = |p: PageEntry| parent_dir(p.rel_path@) == dir@;
    proof {
        assert(m.pages@.subrange(0, 0) =~= Seq::<PageEntry>::empty());
        assert(picked@ =~= m.pages@.subrange(0, 0).filter(pred));
    }
    while j < m.pages.len()
        invariant
            j <= m.pages@.len(),
            dir_chars@ == dir@,
            picked@ == m.pages@.subrange(0, j as int).filter(pred),
            pred == (|p: PageEntry| parent_dir(p.rel_path@) == dir@),
        decreases m.pages.len() - j,
    {
        let p = &m.pages[j];
        let prel = str_chars(p.rel_path.as_str());
        let pdir = parent_dir_chars(&prel);
        let ghost prefix = m.pages@.subrange(0, j as int);
        proof {
            assert(m.pages@.subrange(0, j + 1).drop_last() =~= prefix);
            assert(m.pages@.subrange(0, j + 1).last() == m.pages@[j as int]);
            reveal_with_fuel(Seq::filter, 2);
        }
        if crate::text::chars_eq(&pdir, &dir_chars) {
            picked.push(clone_page(p));
            assert(picked@ =~= m.pages@.subrange(0, j + 1).filter(pred));
        } else {
            assert(picked@ =~= m.pages@.subrange(0, j + 1).filter(pred));
        }
        j += 1;
    }
    proof {
        assert(m.pages@.subrange(0, m.pages@.len() as int) =~= m.pages@);
    }
    sort_pages(picked)
}

/// The position of the page whose source path is `rel_path`, if one is
/// in the registry.
pub fn find_page(m: &SiteMap, rel_path: &str) -> (r: Option<usize>)
    ensures
        match r {
            Some(ix) => ix < m.pages@.len() && m.pages@[ix as int].rel_path@ == rel_path@,
            None => forall|j: int| 0 <= j < m.pages@.len() ==> (#[trigger] m.pages@[j]).rel_path@ != rel_path@,
        },
{
    let mut j: usize = 0;
    while j < m.pages.len()
        invariant
            j <= m.pages@.len(),
            forall|q: int| 0 <= q < j ==> (#[trigger] m.pages@[q]).rel_path@ != rel_path@,
        decreases m.pages.len() - j,
    {
        let candidate = rel_path.to_owned();
        if String::eq(&m.pages[j].rel_path, &candidate) {
            return Some(j);
        }
        j += 1;
    }
    None
}

/// A README is duplicated to `index.html` only when its directory has no
/// index file of its own.
pub fn should_write_index(rel_path: &str, index_dirs: &Vec<String>) -> (r: bool)
    ensures
        r == !index_dirs.deep_view().contains(parent_dir(rel_path@)),
{
    let rel = str_chars(rel_path);
    let dir = chars_string(&parent_dir_chars(&rel));
    !crate::links::contains_string(index_dirs, &dir)
}

/// The directory's own landing page path: `index.html` beside `rel`.
pub open spec fn index_sibling_of(rel: Seq<char>) -> Seq<char> {
    let pre = if parent_dir(rel).len() == 0 {
        Seq::<char>::empty()
    } else {
        parent_dir(rel) + seq!['/']
    };
    pre + seq!['i', 'n', 'd', 'e', 'x', '.', 'h', 't', 'm', 'l']
}

/// Where a content file is emitted: a README standing in for a missing
/// index lands on `index.html`; everything else keeps its stem.
pub open spec fn emitted_path_of(rel: Seq<char>, index_dirs: Seq<Seq<char>>) -> Seq<char> {
    if spec_is_readme(rel) && !index_dirs.contains(parent_dir(rel)) {
        index_sibling_of(rel)
    } else {
        output_path_of(rel)
    }
}

/// The output-relative path of a content file, or none for any other
/// file (assets are copied under their own names).
pub fn output_rel_path(rel_path: &str, index_dirs: &Vec<String>) -> (r: Option<String>)
    ensures
        match r {
            Some(o) => spec_is_markdown(rel_path@) && o@ == emitted_path_of(
                rel_path@,
                index_dirs.deep_view(),
            ),
            None => !spec_is_markdown(rel_path@),
        },
{
    let rel = str_chars(rel_path);
    if !crate::paths::is_markdown_chars(&rel) {
        return None;
    }
    if crate::paths::is_readme_chars(&rel) && should_write_index(rel_path, index_dirs) {
        let par = parent_dir_chars(&rel);
        let mut out: Vec<char> = Vec::new();
        if par.len() > 0 {
            crate::text::push_all(&mut out, &par);
            out.push('/');
        }
        let name = str_chars("index.html");
        proof {
            reveal_strlit("index.html");
            assert(name@ =~= seq!['i', 'n', 'd', 'e', 'x', '.', 'h', 't', 'm', 'l']);
        }
        crate::text::push_all(&mut out, &name);
        assert(out@ =~= index_sibling_of(rel_path@));
        Some(chars_string(&out))
    } else {
        Some(chars_string(&output_path_exec(&rel)))
    }
}

/// A content file whose stem is neither `index` nor `readme` is emitted
/// at its source path with the extension replaced by `.html`, in the
/// same relative directory.
pub proof fn lemma_output_path_plain(rel: Seq<char>, index_dirs: Seq<Seq<char>>)
    requires
        spec_is_markdown(rel),
        !spec_is_readme(rel),
        !spec_is_index(rel),
    ensures
        emitted_path_of(rel, index_dirs) == output_path_of(rel),
        parent_dir(output_path_of(rel)) == parent_dir(rel),
{
    let stem = stem_of_name(base_part(rel));
    let tail = stem + seq!['.', 'h', 't', 'm', 'l'];
    assert forall|q: int| 0 <= q < stem.len() implies stem[q] != '/' by {
        crate::paths::lemma_last_pos_props(rel, '/');
        crate::paths::lemma_last_pos_props(base_part(rel), '.');
    }
    assert(forall|q: int| 0 <= q < tail.len() ==> tail[q] != '/');
    crate::paths::lemma_no_char_no_last_pos(tail, '/');
    if parent_dir(rel).len() == 0 {
        assert(output_path_of(rel) =~= Seq::<char>::empty() + tail);
        assert(Seq::<char>::empty() + tail =~= tail);
        assert(parent_dir(tail) =~= Seq::<char>::empty());
    } else {
        let pre = parent_dir(rel) + seq!['/'];
        crate::paths::lemma_last_pos_concat(pre, tail, '/');
        assert(crate::paths::last_pos_of(pre, '/') == Some(pre.len() - 1)) by {
            assert(pre[pre.len() - 1] == '/');
        }
        assert(output_path_of(rel) == pre + tail);
        assert(parent_dir(pre + tail) =~= parent_dir(rel));
    }
}

} // verus!
