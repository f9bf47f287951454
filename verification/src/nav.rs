//! Sibling navigation and breadcrumbs, derived from the site map relative
//! to one page's output location.
//!
//! The page list of a directory is sorted by title; folder entries are
//! sorted by their labels; both orders are ordinal, and both are part of
//! the contract, not an accident of the implementation.

use vstd::multiset::Multiset;
use vstd::prelude::*;

use crate::paths::{join_segs, parent_dir, segs_of, file_name_opt};
use crate::sitemap::{humanize, sorted_by_title, PageEntry, SiteMap};
use crate::text::{escape_seq, lex_le, lex_lt, str_chars, chars_string, push_all};

verus! {

/// The longest common prefix of two segment lists, from position `i`.
pub open spec fn common_from(a: Seq<Seq<char>>, b: Seq<Seq<char>>, i: int) -> int
    decreases a.len() - i,
{
    if i < 0 || i >= a.len() || i >= b.len() || a[i] != b[i] {
        i
    } else {
        common_from(a, b, i + 1)
    }
}

/// `..` once for every unshared segment of `from`, then the unshared
/// segments of `to`; `.` when nothing is left.
pub open spec fn rel_link_spec(from_parts: Seq<Seq<char>>, to_parts: Seq<Seq<char>>) -> Seq<char> {
    let c = common_from(from_parts, to_parts, 0);
    let ups = Seq::new((from_parts.len() - c) as nat, |k: int| seq!['.', '.']);
    let parts = ups + to_parts.skip(c);
    if parts.len() == 0 {
        seq!['.']
    } else {
        join_segs(parts)
    }
}

/// The link text that leads from the directory `from_dir` to the file
/// `target`, both given relative to the output root.
pub fn relative_link(from_dir: &str, target: &str) -> (r: String)
    ensures
        r@ == rel_link_spec(segs_of(from_dir@), segs_of(target@)),
{
    let fv = str_chars(from_dir);
    let tv = str_chars(target);
    let from_parts = crate::paths::split_segments(&fv);
    let to_parts = crate::paths::split_segments(&tv);
    let ghost fps = from_parts.deep_view();
    let ghost tps = to_parts.deep_view();
    let mut c: usize = 0;
    while c < from_parts.len() && c < to_parts.len() && crate::text::chars_eq(
        &from_parts[c],
        &to_parts[c],
    )
        invariant
            c <= fps.len(),
            c <= tps.len(),
            from_parts.deep_view() == fps,
            to_parts.deep_view() == tps,
            common_from(fps, tps, 0) == common_from(fps, tps, c as int),
        decreases fps.len() - c,
    {
        proof {
            assert(fps[c as int] =~~= from_parts@[c as int]@);
            assert(tps[c as int] =~~= to_parts@[c as int]@);
        }
        c += 1;
    }
    proof {
        if c < fps.len() && c < tps.len() {
            assert(fps[c as int] =~~= from_parts@[c as int]@);
            assert(tps[c as int] =~~= to_parts@[c as int]@);
        }
        assert(common_from(fps, tps, c as int) == c);
    }
    let mut parts: Vec<Vec<char>> = Vec::new();
    let mut k: usize = c;
    let ghost ups = Seq::new((fps.len() - c) as nat, |q: int| seq!['.', '.']);
    assert(parts.deep_view() =~~= ups.subrange(0, 0));
    while k < from_parts.len()
        invariant
            c <= k <= fps.len(),
            from_parts.deep_view() == fps,
            ups == Seq::new((fps.len() - c) as nat, |q: int| seq!['.', '.']),
            parts.deep_view() == ups.subrange(0, k - c),
        decreases fps.len() - k,
    {
        let dd: Vec<char> = vec!['.', '.'];
        assert(dd@ =~= seq!['.', '.']);
        let ghost prev = parts.deep_view();
        parts.push(dd);
        assert(parts.deep_view() =~~= prev.push(seq!['.', '.']));
        k += 1;
        assert(parts.deep_view() =~= ups.subrange(0, k - c));
    }
    assert(parts.deep_view() =~= ups);
    let mut k2: usize = c;
    while k2 < to_parts.len()
        invariant
            c <= k2 <= tps.len(),
            to_parts.deep_view() == tps,
            ups == Seq::new((fps.len() - c) as nat, |q: int| seq!['.', '.']),
            parts.deep_view() == ups + tps.subrange(c as int, k2 as int),
        decreases tps.len() - k2,
    {
        let piece = crate::text::sub_chars(&to_parts[k2], 0, to_parts[k2].len());
        assert(piece@ =~~= tps[k2 as int]);
        let ghost prev = parts.deep_view();
        parts.push(piece);
        assert(parts.deep_view() =~~= prev.push(tps[k2 as int]));
        k2 += 1;
        assert(parts.deep_view() =~= ups + tps.subrange(c as int, k2 as int));
    }
    assert(tps.subrange(c as int, tps.len() as int) =~= tps.skip(c as int));
    assert(parts.deep_view() =~= ups + tps.skip(c as int));
    if parts.len() == 0 {
        let dot: Vec<char> = vec!['.'];
        assert(dot@ =~= seq!['.']);
        chars_string(&dot)
    } else {
        chars_string(&crate::paths::join_segments(&parts))
    }
}

/// The ancestor directories of `dir`, root first, `dir` itself last.
pub fn ancestor_dirs(dir: &str) -> (r: Vec<String>)
    ensures
        r.deep_view().len() == segs_of(dir@).len() + 1,
        forall|k: int|
            0 <= k < r.deep_view().len() ==> #[trigger] r.deep_view()[k] == join_segs(
                segs_of(dir@).subrange(0, k),
            ),
{
    let v = str_chars(dir);
    let segs = crate::paths::split_segments(&v);
    let ghost sv = segs_of(dir@);
    let mut out: Vec<String> = Vec::new();
    let mut k: usize = 0;
    out.push(String::new());
    proof {
        assert(sv.subrange(0, 0) =~= Seq::<Seq<char>>::empty());
        assert(out.deep_view() =~~= seq![join_segs(sv.subrange(0, 0))]);
    }
    while k < segs.len()
        invariant
            k <= sv.len(),
            segs.deep_view() == sv,
            out.deep_view().len() == k + 1,
            forall|q: int|
                0 <= q <= k ==> #[trigger] out.deep_view()[q] == join_segs(sv.subrange(0, q)),
        decreases segs.len() - k,
    {
        let prefix = crate::text::sub_chars(&segs[k], 0, segs[k].len());
        let mut sub: Vec<Vec<char>> = Vec::new();
        let mut q: usize = 0;
        while q < k + 1 && q < segs.len()
            invariant
                q <= k + 1,
                k < sv.len(),
                segs.deep_view() == sv,
                q <= sv.len(),
                sub.deep_view() == sv.subrange(0, q as int),
            decreases segs.len() - q,
        {
            let piece = crate::text::sub_chars(&segs[q], 0, segs[q].len());
            assert(piece@ =~~= sv[q as int]);
            let ghost prev = sub.deep_view();
            sub.push(piece);
            assert(sub.deep_view() =~~= prev.push(sv[q as int]));
            q += 1;
            assert(sub.deep_view() =~= sv.subrange(0, q as int));
        }
        assert(sub.deep_view() =~= sv.subrange(0, (k + 1) as int));
        let joined = chars_string(&crate::paths::join_segments(&sub));
        let ghost prev_out = out.deep_view();
        out.push(joined);
        assert(out.deep_view() =~~= prev_out.push(join_segs(sv.subrange(0, (k + 1) as int))));
        k += 1;
    }
    out
}

/// The humanized folder name shown when a directory has no landing page.
pub open spec fn dir_label_fallback(dir: Seq<char>) -> Seq<char> {
    match file_name_opt(dir) {
        Some(n) => humanize(n),
        None => humanize("Folder"@),
    }
}

/// A folder's display name: its last path segment, humanized.
pub fn display_dir_name(dir: &str) -> (r: String)
    ensures
        r@ == dir_label_fallback(dir@),
{
    let v = str_chars(dir);
    let name = match crate::paths::file_name_exec(&v) {
        Some(n) => n,
        None => str_chars("Folder"),
    };
    let mut out: Vec<char> = Vec::new();
    let mut i: usize = 0;
    let ghost target = humanize(name@);
    while i < name.len()
        invariant
            i <= name@.len(),
            target == humanize(name@),
            out@ =~= target.subrange(0, i as int),
        decreases name.len() - i,
    {
        let ch = name[i];
        if ch == '-' || ch == '_' {
            out.push(' ');
        } else {
            out.push(ch);
        }
        i += 1;
        assert(out@ =~= target.subrange(0, i as int));
    }
    assert(out@ =~= target);
    chars_string(&out)
}

/// The pages of one directory of the site map.
pub open spec fn dir_pages(m: SiteMap, dir: Seq<char>) -> Seq<PageEntry> {
    m.pages@.filter(|p: PageEntry| parent_dir(p.rel_path@) == dir)
}

/// `t` is the title of the first page the given flag selects in the
/// directory's title-sorted page list: a selected page has it, and no
/// selected page's title is smaller.
pub open spec fn first_selected_title(
    pages: Seq<PageEntry>,
    want_index: bool,
    t: Seq<char>,
) -> bool {
    &&& exists|p: PageEntry|
        #[trigger] pages.contains(p) && (if want_index {
            p.is_index
        } else {
            p.is_readme
        }) && p.title@ == t
    &&& forall|p: PageEntry|
        #[trigger] pages.contains(p) && (if want_index {
            p.is_index
        } else {
            p.is_readme
        }) ==> lex_le(t, p.title@)
}

/// Some page the flag selects is in the directory.
pub open spec fn has_selected(pages: Seq<PageEntry>, want_index: bool) -> bool {
    exists|p: PageEntry|
        #[trigger] pages.contains(p) && (if want_index {
            p.is_index
        } else {
            p.is_readme
        })
}

/// The title of the first selected page of a title-sorted vector.
fn first_flag_title(sorted: &Vec<PageEntry>, want_index: bool) -> (r: Option<String>)
    requires
        sorted_by_title(sorted@),
    ensures
        match r {
            Some(t) => first_selected_title(sorted@, want_index, t@),
            None => !has_selected(sorted@, want_index),
        },
{
    let mut i: usize = 0;
    while i < sorted.len()
        invariant
            i <= sorted@.len(),
            sorted_by_title(sorted@),
            forall|q: int|
                0 <= q < i ==> !(if want_index {
                    (#[trigger] sorted@[q]).is_index
                } else {
                    sorted@[q].is_readme
                }),
        decreases sorted.len() - i,
    {
        let hit = if want_index {
            sorted[i].is_index
        } else {
            sorted[i].is_readme
        };
        if hit {
            let t = sorted[i].title.clone();
            proof {
                assert(sorted@.contains(sorted@[i as int]));
                assert forall|p: PageEntry|
                    #[trigger] sorted@.contains(p) && (if want_index {
                        p.is_index
                    } else {
                        p.is_readme
                    }) implies lex_le(t@, p.title@) by {
                    let q = choose|q: int| 0 <= q < sorted@.len() && sorted@[q] == p;
                    assert(q >= i);
                    assert(lex_le(sorted@[i as int].title@, sorted@[q].title@));
                }
            }
            return Some(t);
        }
        i += 1;
    }
    proof {
        if has_selected(sorted@, want_index) {
            let p = choose|p: PageEntry|
                #[trigger] sorted@.contains(p) && (if want_index {
                    p.is_index
                } else {
                    p.is_readme
                });
            let q = choose|q: int| 0 <= q < sorted@.len() && sorted@[q] == p;
            assert(!(if want_index {
                sorted@[q].is_index
            } else {
                sorted@[q].is_readme
            }));
        }
    }
    None
}

/// The landing title of a directory: the first index page's title in the
/// directory's title order, else the first README's, else none.
pub fn landing_title(m: &SiteMap, dir: &str) -> (r: Option<String>)
    ensures
        match r {
            Some(t) => (has_selected(dir_pages(*m, dir@), true) && first_selected_title(
                dir_pages(*m, dir@),
                true,
                t@,
            )) || (!has_selected(dir_pages(*m, dir@), true) && first_selected_title(
                dir_pages(*m, dir@),
                false,
                t@,
            )),
            None => !has_selected(dir_pages(*m, dir@), true) && !has_selected(
                dir_pages(*m, dir@),
                false,
            ),
        },
{
    broadcast use vstd::seq_lib::group_to_multiset_ensures;

    let sorted = crate::sitemap::pages_in_dir(m, dir);
    let ghost dp = dir_pages(*m, dir@);
    proof {
        assert(sorted@.to_multiset() == dp.to_multiset());
        assert forall|p: PageEntry| sorted@.contains(p) == dp.contains(p) by {
            assert(sorted@.contains(p) <==> sorted@.to_multiset().count(p) > 0);
            assert(dp.contains(p) <==> dp.to_multiset().count(p) > 0);
        }
    }
    match first_flag_title(&sorted, true) {
        Some(t) => {
            proof {
                lemma_selected_transfer(sorted@, dp, true, t@);
            }
            Some(t)
        },
        None => {
            proof {
                lemma_has_selected_transfer(sorted@, dp, true);
            }
            match first_flag_title(&sorted, false) {
                Some(t) => {
                    proof {
                        lemma_selected_transfer(sorted@, dp, false, t@);
                    }
                    Some(t)
                },
                None => {
                    proof {
                        lemma_has_selected_transfer(sorted@, dp, false);
                    }
                    None
                },
            }
        },
    }
}

/// Selection facts carry between sequences with the same members.
proof fn lemma_selected_transfer(a: Seq<PageEntry>, b: Seq<PageEntry>, want_index: bool, t: Seq<char>)
    requires
        forall|p: PageEntry| #[trigger] a.contains(p) == b.contains(p),
        first_selected_title(a, want_index, t),
    ensures
        first_selected_title(b, want_index, t),
{
    let p = choose|p: PageEntry|
        #[trigger] a.contains(p) && (if want_index {
            p.is_index
        } else {
            p.is_readme
        }) && p.title@ == t;
    assert(b.contains(p));
    assert forall|q: PageEntry|
        #[trigger] b.contains(q) && (if want_index {
            q.is_index
        } else {
            q.is_readme
        }) implies lex_le(t, q.title@) by {
        assert(a.contains(q));
    }
}

/// One list entry of the sidebar.
pub open spec fn li_item(href: Seq<char>, label: Seq<char>) -> Seq<char> {
    "<li><a href=\""@ + href + "\">"@ + label + "</a></li>"@
}

/// One linked breadcrumb.
pub open spec fn anchor_item(href: Seq<char>, label: Seq<char>) -> Seq<char> {
    "<a href=\""@ + href + "\">"@ + label + "</a>"@
}

/// The final, unlinked breadcrumb.
pub open spec fn span_item(label: Seq<char>) -> Seq<char> {
    "<span>"@ + label + "</span>"@
}

/// The items of a list, concatenated from position `i` on.
pub open spec fn concat_items(items: Seq<Seq<char>>, i: int) -> Seq<char>
    decreases items.len() - i,
{
    if i < 0 || i >= items.len() {
        Seq::empty()
    } else {
        items[i] + concat_items(items, i + 1)
    }
}

/// One titled sidebar section holding a list of items.
pub open spec fn nav_section(title: Seq<char>, items: Seq<Seq<char>>) -> Seq<char> {
    "<div class=\"nav-section\">"@ + "<div class=\"nav-title\">"@ + title + "</div>"@
        + "<ul class=\"nav-list\">"@ + concat_items(items, 0) + "</ul></div>"@
}

/// The whole sidebar: a Pages section and a Folders section, either one
/// absent when it has no items.
pub open spec fn nav_html_spec(page_items: Seq<Seq<char>>, folder_items: Seq<Seq<char>>) -> Seq<
    char,
> {
    (if page_items.len() == 0 {
        Seq::<char>::empty()
    } else {
        nav_section("Pages"@, page_items)
    }) + (if folder_items.len() == 0 {
        Seq::<char>::empty()
    } else {
        nav_section("Folders"@, folder_items)
    })
}

/// The sidebar entry of one sibling page, seen from `from_dir`.
pub open spec fn page_item_of(p: PageEntry, from_dir: Seq<char>) -> Seq<char> {
    li_item(rel_link_spec(segs_of(from_dir), segs_of(p.output_rel@)), escape_seq(p.title@))
}

pub open spec fn page_items_of(pages: Seq<PageEntry>, from_dir: Seq<char>) -> Seq<Seq<char>> {
    pages.map(|k: int, p: PageEntry| page_item_of(p, from_dir))
}

/// The landing page a folder link points at.
pub open spec fn index_target(dir: Seq<char>) -> Seq<char> {
    if dir.len() == 0 {
        "index.html"@
    } else {
        dir + seq!['/'] + "index.html"@
    }
}

/// The label a directory gets: its landing page's title when it has one,
/// else its humanized name; the root is always `Home` in breadcrumbs.
pub open spec fn dir_label_ok(m: SiteMap, dir: Seq<char>, label: Seq<char>) -> bool {
    if has_selected(dir_pages(m, dir), true) {
        first_selected_title(dir_pages(m, dir), true, label)
    } else if has_selected(dir_pages(m, dir), false) {
        first_selected_title(dir_pages(m, dir), false, label)
    } else {
        label == dir_label_fallback(dir)
    }
}

/// One folder entry of the sidebar: the child landing directory it
/// stands for, the label it is sorted by, and its rendered list item.
pub struct FolderEntry {
    pub dir: String,
    pub label: String,
    pub item: String,
}

/// The entry stands for one child landing directory of the current
/// page's directory (never the current directory itself), carries that
/// directory's label, and renders as its link.
pub open spec fn folder_entry_ok(m: SiteMap, current: PageEntry, e: FolderEntry) -> bool {
    &&& m.landing_dirs.deep_view().contains(e.dir@)
    &&& e.dir@ != parent_dir(current.rel_path@)
    &&& parent_dir(e.dir@) == parent_dir(current.rel_path@)
    &&& dir_label_ok(m, e.dir@, e.label@)
    &&& e.item@ == li_item(
        rel_link_spec(
            segs_of(parent_dir(current.output_rel@)),
            segs_of(index_target(e.dir@)),
        ),
        escape_seq(e.label@),
    )
}

/// The directories of folder entries, in order.
pub open spec fn folder_dirs_of(folders: Seq<FolderEntry>) -> Seq<Seq<char>> {
    folders.map(|k: int, e: FolderEntry| e.dir@)
}

/// The child landing directories of the current page's directory: the
/// directories whose folder links the sidebar owes, one each.
pub open spec fn child_landing_dirs(m: SiteMap, current: PageEntry) -> Seq<Seq<char>> {
    m.landing_dirs.deep_view().filter(
        |d: Seq<char>|
            d != parent_dir(current.rel_path@) && parent_dir(d) == parent_dir(current.rel_path@),
    )
}

/// The rendered items of folder entries, in order.
pub open spec fn folder_views(folders: Seq<FolderEntry>) -> Seq<Seq<char>> {
    folders.map(|k: int, e: FolderEntry| e.item@)
}

/// Folder entries in non-descending label order (ordinal comparison).
pub open spec fn sorted_by_label(s: Seq<FolderEntry>) -> bool {
    forall|i: int, j: int|
        0 <= i <= j < s.len() ==> lex_le(#[trigger] s[i].label@, #[trigger] s[j].label@)
}

/// Sort folder entries into non-descending label order (ordinal
/// comparison).
pub fn sort_folders(input: Vec<FolderEntry>) -> (r: Vec<FolderEntry>)
    ensures
        sorted_by_label(r@),
        r@.to_multiset() == input@.to_multiset(),
        folder_dirs_of(r@).to_multiset() == folder_dirs_of(input@).to_multiset(),
{
    broadcast use vstd::seq_lib::group_to_multiset_ensures;

    let mut rem = input;
    let mut out: Vec<FolderEntry> = Vec::new();
    proof {
        assert(out@.to_multiset() =~= Multiset::<FolderEntry>::empty());
    }
    proof {
        assert(folder_dirs_of(out@).to_multiset() =~= Multiset::<Seq<char>>::empty());
    }
    while rem.len() > 0
        invariant
            out@.to_multiset().add(rem@.to_multiset()) =~= input@.to_multiset(),
            folder_dirs_of(out@).to_multiset().add(folder_dirs_of(rem@).to_multiset())
                =~= folder_dirs_of(input@).to_multiset(),
            sorted_by_label(out@),
            forall|a: int, b: int|
                0 <= a < out@.len() && 0 <= b < rem@.len() ==> lex_le(
                    #[trigger] out@[a].label@,
                    #[trigger] rem@[b].label@,
                ),
        decreases rem.len(),
    {
        broadcast use vstd::seq_lib::group_to_multiset_ensures;

        let mut min_idx: usize = 0;
        let mut t: usize = 1;
        proof {
            crate::text::lemma_lex_le_total(rem@[0].label@, rem@[0].label@);
        }
        while t < rem.len()
            invariant
                min_idx < t,
                t <= rem@.len(),
                1 <= t,
                forall|q: int|
                    0 <= q < t ==> lex_le(rem@[min_idx as int].label@, #[trigger] rem@[q].label@),
            decreases rem.len() - t,
        {
            let a = str_chars(rem[t].label.as_str());
            let b = str_chars(rem[min_idx].label.as_str());
            if crate::text::chars_lt(&a, &b) {
                proof {
                    assert forall|q: int| 0 <= q < t implies lex_le(
                        rem@[t as int].label@,
                        #[trigger] rem@[q].label@,
                    ) by {
                        if lex_lt(rem@[q].label@, rem@[t as int].label@) {
                            crate::text::lemma_lex_lt_trans(
                                rem@[q].label@,
                                rem@[t as int].label@,
                                rem@[min_idx as int].label@,
                            );
                        }
                    }
                }
                min_idx = t;
            }
            proof {
                crate::text::lemma_lex_le_total(rem@[min_idx as int].label@, rem@[t as int].label@);
            }
            t += 1;
        }
        let ghost rem0 = rem@;
        let e = rem.remove(min_idx);
        assert(rem@ == rem0.remove(min_idx as int));
        assert(e == rem0[min_idx as int]);
        assert(rem0.contains(e));
        assert(rem0.to_multiset().count(e) > 0);
        let ghost out0 = out@;
        out.push(e);
        proof {
            assert(out@ == out0.push(e));
            assert(out@.to_multiset().add(rem@.to_multiset()) =~= input@.to_multiset());
            assert(folder_dirs_of(rem0.remove(min_idx as int)) =~= folder_dirs_of(rem0).remove(
                min_idx as int,
            ));
            assert(folder_dirs_of(rem0)[min_idx as int] == e.dir@);
            assert(folder_dirs_of(out@) =~= folder_dirs_of(out0).push(e.dir@));
            assert(folder_dirs_of(out@).to_multiset().add(folder_dirs_of(rem@).to_multiset())
                =~= folder_dirs_of(input@).to_multiset());
            assert forall|a: int, b: int|
                0 <= a < out@.len() && 0 <= b < rem@.len() implies lex_le(
                #[trigger] out@[a].label@,
                #[trigger] rem@[b].label@,
            ) by {
                let orig_b: int = if b < min_idx {
                    b
                } else {
                    b + 1
                };
                assert(rem@[b] == rem0[orig_b]);
                if a < out0.len() {
                    assert(out@[a] == out0[a]);
                    assert(lex_le(out0[a].label@, rem0[orig_b].label@));
                } else {
                    assert(out@[a] == e);
                    assert(lex_le(e.label@, rem0[orig_b].label@));
                }
            }
            assert forall|a: int, b: int| 0 <= a <= b < out@.len() implies lex_le(
                #[trigger] out@[a].label@,
                #[trigger] out@[b].label@,
            ) by {
                if b < out0.len() {
                    assert(out@[a] == out0[a] && out@[b] == out0[b]);
                } else if a < out0.len() {
                    assert(out@[a] == out0[a]);
                    assert(out@[b] == e);
                    assert(lex_le(out0[a].label@, rem0[min_idx as int].label@));
                } else {
                    crate::text::lemma_lex_le_total(e.label@, e.label@);
                }
            }
        }
    }
    proof {
        assert(rem@.to_multiset() =~= Multiset::<FolderEntry>::empty());
        assert(out@.to_multiset() =~= input@.to_multiset());
        assert(folder_dirs_of(rem@).to_multiset() =~= Multiset::<Seq<char>>::empty());
        assert(folder_dirs_of(out@).to_multiset() =~= folder_dirs_of(input@).to_multiset());
    }
    out
}

/// The sibling pages shown beside the current page: every other page of
/// its directory, in title order.
pub fn nav_page_links(current: &PageEntry, m: &SiteMap) -> (r: Vec<PageEntry>)
    ensures
        sorted_by_title(r@),
        r@.to_multiset() == m.pages@.filter(
            |p: PageEntry|
                parent_dir(p.rel_path@) == parent_dir(current.rel_path@) && p.rel_path@
                    != current.rel_path@,
        ).to_multiset(),
{
    let cur_rel = str_chars(current.rel_path.as_str());
    let cur_dir = crate::paths::parent_dir_chars(&cur_rel);
    let mut picked: Vec<PageEntry> = Vec::new();
    let mut j: usize = 0;
    let ghost pred = |p: PageEntry|
        parent_dir(p.rel_path@) == parent_dir(current.rel_path@) && p.rel_path@
            != current.rel_path@;
    proof {
        assert(m.pages@.subrange(0, 0) =~= Seq::<PageEntry>::empty());
        assert(picked@ =~= m.pages@.subrange(0, 0).filter(pred));
    }
    while j < m.pages.len()
        invariant
            j <= m.pages@.len(),
            cur_dir@ == parent_dir(current.rel_path@),
            cur_rel@ == current.rel_path@,
            picked@ == m.pages@.subrange(0, j as int).filter(pred),
            pred == (|p: PageEntry|
                parent_dir(p.rel_path@) == parent_dir(current.rel_path@) && p.rel_path@
                    != current.rel_path@),
        decreases m.pages.len() - j,
    {
        let p = &m.pages[j];
        let prel = str_chars(p.rel_path.as_str());
        let pdir = crate::paths::parent_dir_chars(&prel);
        let ghost prefix = m.pages@.subrange(0, j as int);
        proof {
            assert(m.pages@.subrange(0, j + 1).drop_last() =~= prefix);
            assert(m.pages@.subrange(0, j + 1).last() == m.pages@[j as int]);
            reveal_with_fuel(Seq::filter, 2);
        }
        if crate::text::chars_eq(&pdir, &cur_dir) && !crate::text::chars_eq(&prel, &cur_rel) {
            picked.push(crate::sitemap::clone_page(p));
            assert(picked@ =~= m.pages@.subrange(0, j + 1).filter(pred));
        } else {
            assert(picked@ =~= m.pages@.subrange(0, j + 1).filter(pred));
        }
        j += 1;
    }
    proof {
        assert(m.pages@.subrange(0, m.pages@.len() as int) =~= m.pages@);
    }
    crate::sitemap::sort_pages(picked)
}

proof fn lemma_has_selected_transfer(a: Seq<PageEntry>, b: Seq<PageEntry>, want_index: bool)
    requires
        forall|p: PageEntry| #[trigger] a.contains(p) == b.contains(p),
        !has_selected(a, want_index),
    ensures
        !has_selected(b, want_index),
{
    if has_selected(b, want_index) {
        let p = choose|p: PageEntry|
            #[trigger] b.contains(p) && (if want_index {
                p.is_index
            } else {
                p.is_readme
            });
        assert(a.contains(p));
    }
}

/// Concatenate the rendered items of a list.
fn concat_item_vec(items: &Vec<String>) -> (r: Vec<char>)
    ensures
        r@ == concat_items(items.deep_view(), 0),
{
    let mut out: Vec<char> = Vec::new();
    let mut i: usize = 0;
    proof {
        assert(out@ =~= Seq::<char>::empty());
    }
    while i < items.len()
        invariant
            i <= items@.len(),
            concat_items(items.deep_view(), 0) == out@ + concat_items(
                items.deep_view(),
                i as int,
            ),
        decreases items.len() - i,
    {
        let piece = str_chars(items[i].as_str());
        assert(piece@ =~~= items.deep_view()[i as int]);
        push_all(&mut out, &piece);
        i += 1;
        assert(concat_items(items.deep_view(), 0) =~= out@ + concat_items(
            items.deep_view(),
            i as int,
        ));
    }
    assert(out@ =~= out@ + concat_items(items.deep_view(), i as int));
    out
}

/// Render one sidebar list entry.
fn make_li(href: &String, label: &String) -> (r: String)
    ensures
        r@ == li_item(href@, escape_seq(label@)),
{
    let mut out = str_chars("<li><a href=\"");
    let hv = str_chars(href.as_str());
    push_all(&mut out, &hv);
    let mid = str_chars("\">");
    push_all(&mut out, &mid);
    let lv = str_chars(label.as_str());
    let esc = crate::text::escape_chars(&lv);
    push_all(&mut out, &esc);
    let tail = str_chars("</a></li>");
    push_all(&mut out, &tail);
    assert(out@ =~= li_item(href@, escape_seq(label@)));
    chars_string(&out)
}

/// Render one linked breadcrumb.
fn make_anchor(href: &String, label: &String) -> (r: String)
    ensures
        r@ == anchor_item(href@, escape_seq(label@)),
{
    let mut out = str_chars("<a href=\"");
    let hv = str_chars(href.as_str());
    push_all(&mut out, &hv);
    let mid = str_chars("\">");
    push_all(&mut out, &mid);
    let lv = str_chars(label.as_str());
    let esc = crate::text::escape_chars(&lv);
    push_all(&mut out, &esc);
    let tail = str_chars("</a>");
    push_all(&mut out, &tail);
    assert(out@ =~= anchor_item(href@, escape_seq(label@)));
    chars_string(&out)
}

/// The landing page path of a directory, as a link target.
fn index_target_exec(dir: &Vec<char>) -> (r: String)
    ensures
        r@ == index_target(dir@),
{
    let mut out: Vec<char> = Vec::new();
    if dir.len() > 0 {
        push_all(&mut out, dir);
        out.push('/');
    }
    let name = str_chars("index.html");
    push_all(&mut out, &name);
    proof {
        if dir@.len() == 0 {
            assert(out@ =~= "index.html"@);
        } else {
            assert(out@ =~= dir@ + seq!['/'] + "index.html"@);
        }
    }
    chars_string(&out)
}

/// The sidebar of one page: the Pages section holds exactly the
/// directory's other pages, in title order; the Folders section holds
/// exactly one entry per child landing directory, sorted by label.
pub open spec fn nav_html_ok(m: SiteMap, current: PageEntry, r: Seq<char>) -> bool {
    exists|pis: Seq<PageEntry>, folders: Seq<FolderEntry>|
        {
            &&& sorted_by_title(pis)
            &&& pis.to_multiset() == m.pages@.filter(
                |p: PageEntry|
                    parent_dir(p.rel_path@) == parent_dir(current.rel_path@) && p.rel_path@
                        != current.rel_path@,
            ).to_multiset()
            &&& sorted_by_label(folders)
            &&& (forall|k: int|
                0 <= k < folders.len() ==> folder_entry_ok(m, current, #[trigger] folders[k]))
            &&& folder_dirs_of(folders).to_multiset() == child_landing_dirs(
                m,
                current,
            ).to_multiset()
            &&& r == #[trigger] nav_html_spec(
                page_items_of(pis, parent_dir(current.output_rel@)),
                folder_views(folders),
            )
        }
}

/// The sidebar of one page: every other page of its directory in title
/// order under `Pages`, and one entry per child landing directory,
/// sorted by label, under `Folders`.
pub fn build_nav_html(current: &PageEntry, m: &SiteMap) -> (r: String)
    ensures
        nav_html_ok(*m, *current, r@),
{
    broadcast use vstd::seq_lib::group_to_multiset_ensures;

    let links = nav_page_links(current, m);
    let out_rel = str_chars(current.output_rel.as_str());
    let from_dir = chars_string(&crate::paths::parent_dir_chars(&out_rel));
    let cur_rel = str_chars(current.rel_path.as_str());
    let cur_dir = crate::paths::parent_dir_chars(&cur_rel);
    let mut page_items: Vec<String> = Vec::new();
    let mut i: usize = 0;
    let ghost fd = parent_dir(current.output_rel@);
    proof {
        assert(page_items.deep_view() =~~= page_items_of(links@.subrange(0, 0), fd));
    }
    while i < links.len()
        invariant
            i <= links@.len(),
            from_dir@ == fd,
            page_items.deep_view() == page_items_of(links@.subrange(0, i as int), fd),
        decreases links.len() - i,
    {
        let href = relative_link(from_dir.as_str(), links[i].output_rel.as_str());
        let item = make_li(&href, &links[i].title);
        let ghost prev = page_items.deep_view();
        page_items.push(item);
        proof {
            assert(page_items.deep_view() =~~= prev.push(page_item_of(links@[i as int], fd)));
            assert(links@.subrange(0, i + 1).drop_last() =~= links@.subrange(0, i as int));
            assert(prev.push(page_item_of(links@[i as int], fd)) =~= page_items_of(
                links@.subrange(0, i + 1),
                fd,
            ));
        }
        i += 1;
    }
    proof {
        assert(links@.subrange(0, links@.len() as int) =~= links@);
    }
    let mut folder_entries: Vec<FolderEntry> = Vec::new();
    let mut j: usize = 0;
    let ghost ldv = m.landing_dirs.deep_view();
    let ghost child_pred = |d: Seq<char>|
        d != parent_dir(current.rel_path@) && parent_dir(d) == parent_dir(current.rel_path@);
    proof {
        assert(ldv.subrange(0, 0) =~= Seq::<Seq<char>>::empty());
        assert(folder_dirs_of(folder_entries@) =~~= ldv.subrange(0, 0).filter(child_pred));
    }
    while j < m.landing_dirs.len()
        invariant
            j <= m.landing_dirs@.len(),
            cur_dir@ == parent_dir(current.rel_path@),
            from_dir@ == fd,
            fd == parent_dir(current.output_rel@),
            ldv == m.landing_dirs.deep_view(),
            ldv.len() == m.landing_dirs@.len(),
            child_pred == (|d: Seq<char>|
                d != parent_dir(current.rel_path@) && parent_dir(d) == parent_dir(
                    current.rel_path@,
                )),
            forall|k: int|
                0 <= k < folder_entries@.len() ==> folder_entry_ok(
                    *m,
                    *current,
                    #[trigger] folder_entries@[k],
                ),
            folder_dirs_of(folder_entries@) == ldv.subrange(0, j as int).filter(child_pred),
        decreases m.landing_dirs.len() - j,
    {
        let dirv = str_chars(m.landing_dirs[j].as_str());
        let ddir = crate::paths::parent_dir_chars(&dirv);
        let ghost prefix = ldv.subrange(0, j as int);
        proof {
            assert(ldv.subrange(0, j + 1).drop_last() =~= prefix);
            assert(ldv.subrange(0, j + 1).last() == ldv[j as int]);
            assert(ldv[j as int] =~~= dirv@);
            reveal_with_fuel(Seq::filter, 2);
        }
        if !crate::text::chars_eq(&dirv, &cur_dir) && crate::text::chars_eq(&ddir, &cur_dir) {
            let label = match landing_title(m, m.landing_dirs[j].as_str()) {
                Some(t) => t,
                None => display_dir_name(m.landing_dirs[j].as_str()),
            };
            let dir_string = chars_string(&dirv);
            let target = index_target_exec(&dirv);
            let href = relative_link(from_dir.as_str(), target.as_str());
            let item = make_li(&href, &label);
            let entry = FolderEntry { dir: dir_string, label, item };
            proof {
                assert(m.landing_dirs.deep_view().contains(dirv@));
                assert(dir_label_ok(*m, dirv@, entry.label@));
                assert(folder_entry_ok(*m, *current, entry));
            }
            let ghost prev = folder_entries@;
            folder_entries.push(entry);
            proof {
                assert(folder_dirs_of(folder_entries@) =~= folder_dirs_of(prev).push(entry.dir@));
                assert(folder_dirs_of(folder_entries@) =~= ldv.subrange(0, j + 1).filter(
                    child_pred,
                ));
            }
        } else {
            proof {
                assert(!child_pred(ldv[j as int]));
                assert(folder_dirs_of(folder_entries@) =~= ldv.subrange(0, j + 1).filter(
                    child_pred,
                ));
            }
        }
        j += 1;
    }
    proof {
        assert(ldv.subrange(0, ldv.len() as int) =~= ldv);
        assert(folder_dirs_of(folder_entries@) =~= child_landing_dirs(*m, *current));
    }
    let ghost orig_folders = folder_entries@;
    let folder_entries = sort_folders(folder_entries);
    proof {
        assert forall|k: int| 0 <= k < folder_entries@.len() implies folder_entry_ok(
            *m,
            *current,
            #[trigger] folder_entries@[k],
        ) by {
            assert(folder_entries@.contains(folder_entries@[k]));
            assert(folder_entries@.to_multiset().count(folder_entries@[k]) > 0);
            assert(orig_folders.to_multiset().count(folder_entries@[k]) > 0);
            assert(orig_folders.contains(folder_entries@[k]));
            let q = choose|q: int|
                0 <= q < orig_folders.len() && orig_folders[q] == folder_entries@[k];
            assert(folder_entry_ok(*m, *current, orig_folders[q]));
        }
        assert(folder_dirs_of(folder_entries@).to_multiset() == child_landing_dirs(
            *m,
            *current,
        ).to_multiset());
    }
    let mut folder_items: Vec<String> = Vec::new();
    let mut fi: usize = 0;
    let ghost item_views = folder_entries@.map(|k: int, e: FolderEntry| e.item@);
    proof {
        assert(folder_items.deep_view() =~~= item_views.subrange(0, 0));
    }
    while fi < folder_entries.len()
        invariant
            fi <= folder_entries@.len(),
            item_views == folder_entries@.map(|k: int, e: FolderEntry| e.item@),
            item_views.len() == folder_entries@.len(),
            folder_items.deep_view() == item_views.subrange(0, fi as int),
        decreases folder_entries.len() - fi,
    {
        let ghost prev = folder_items.deep_view();
        folder_items.push(folder_entries[fi].item.clone());
        proof {
            assert(folder_items.deep_view() =~~= prev.push(item_views[fi as int]));
        }
        fi += 1;
        assert(folder_items.deep_view() =~= item_views.subrange(0, fi as int));
    }
    proof {
        assert(folder_items.deep_view() =~= item_views);
    }
    let mut outv: Vec<char> = Vec::new();
    if page_items.len() > 0 {
        let s1 = str_chars("<div class=\"nav-section\">");
        push_all(&mut outv, &s1);
        let s2 = str_chars("<div class=\"nav-title\">");
        push_all(&mut outv, &s2);
        let s3 = str_chars("Pages");
        push_all(&mut outv, &s3);
        let s4 = str_chars("</div>");
        push_all(&mut outv, &s4);
        let s5 = str_chars("<ul class=\"nav-list\">");
        push_all(&mut outv, &s5);
        let body = concat_item_vec(&page_items);
        push_all(&mut outv, &body);
        let s6 = str_chars("</ul></div>");
        push_all(&mut outv, &s6);
        assert(outv@ =~= nav_section("Pages"@, page_items.deep_view()));
    }
    let ghost first_part = outv@;
    if folder_items.len() > 0 {
        let s1 = str_chars("<div class=\"nav-section\">");
        push_all(&mut outv, &s1);
        let s2 = str_chars("<div class=\"nav-title\">");
        push_all(&mut outv, &s2);
        let s3 = str_chars("Folders");
        push_all(&mut outv, &s3);
        let s4 = str_chars("</div>");
        push_all(&mut outv, &s4);
        let s5 = str_chars("<ul class=\"nav-list\">");
        push_all(&mut outv, &s5);
        let body = concat_item_vec(&folder_items);
        push_all(&mut outv, &body);
        let s6 = str_chars("</ul></div>");
        push_all(&mut outv, &s6);
        assert(outv@ =~= first_part + nav_section("Folders"@, folder_items.deep_view()));
    }
    proof {
        assert(page_items.deep_view().len() == 0 ==> page_items.deep_view()
            =~= Seq::<Seq<char>>::empty());
        assert(outv@ =~= nav_html_spec(page_items.deep_view(), folder_items.deep_view()));
        let pis = links@;
        let folders = folder_entries@;
        assert(page_items.deep_view() =~= page_items_of(pis, fd));
        assert(folder_items.deep_view() == folder_views(folders));
        assert(sorted_by_title(pis) && pis.to_multiset() == m.pages@.filter(
            |p: PageEntry|
                parent_dir(p.rel_path@) == parent_dir(current.rel_path@) && p.rel_path@
                    != current.rel_path@,
        ).to_multiset() && sorted_by_label(folders) && (forall|k: int|
            0 <= k < folders.len() ==> folder_entry_ok(*m, *current, #[trigger] folders[k]))
            && folder_dirs_of(folders).to_multiset() == child_landing_dirs(
            *m,
            *current,
        ).to_multiset() && outv@ == nav_html_spec(
            page_items_of(pis, parent_dir(current.output_rel@)),
            folder_views(folders),
        ));
    }
    chars_string(&outv)
}

/// The separator written between breadcrumbs.
pub open spec fn crumb_sep() -> Seq<char> {
    "<span class=\"sep\">/</span>"@
}

/// Breadcrumbs joined with the separator, from position `i` on.
pub open spec fn sep_join(items: Seq<Seq<char>>, i: int) -> Seq<char>
    decreases items.len() - i,
{
    if i < 0 || i >= items.len() {
        Seq::empty()
    } else if i == items.len() - 1 {
        items[i]
    } else {
        items[i] + crumb_sep() + sep_join(items, i + 1)
    }
}

/// The label a breadcrumb ancestor gets: `Home` for the root, else the
/// directory's landing title or humanized name.
pub open spec fn crumb_label_ok(m: SiteMap, dir: Seq<char>, label: Seq<char>) -> bool {
    if dir.len() == 0 {
        label == "Home"@
    } else {
        dir_label_ok(m, dir, label)
    }
}

/// The ancestors of a directory, root (the empty path) first, the
/// directory itself last.
pub open spec fn ancestor_list(dir: Seq<char>) -> Seq<Seq<char>> {
    Seq::new((segs_of(dir).len() + 1) as nat, |k: int| join_segs(segs_of(dir).subrange(0, k)))
}

/// The ancestor gets a crumb: it is a landing directory, and not the
/// page's own directory when the page is that directory's landing page.
pub open spec fn crumb_qualifies(m: SiteMap, current: PageEntry, a: Seq<char>) -> bool {
    m.landing_dirs.deep_view().contains(a) && !(a == parent_dir(current.rel_path@) && (
    current.is_index || current.is_readme))
}

/// The directories the trail links, in root-first order: every landing
/// ancestor of the page's directory, minus the suppressed self entry.
pub open spec fn crumb_dirs(m: SiteMap, current: PageEntry) -> Seq<Seq<char>> {
    ancestor_list(parent_dir(current.rel_path@)).filter(
        |a: Seq<char>| crumb_qualifies(m, current, a),
    )
}

/// The rendered link of each crumb directory, in order.
pub open spec fn crumb_items(
    dirs: Seq<Seq<char>>,
    labels: Seq<Seq<char>>,
    from_dir: Seq<char>,
) -> Seq<Seq<char>> {
    Seq::new(
        dirs.len(),
        |k: int|
            anchor_item(
                rel_link_spec(segs_of(from_dir), segs_of(index_target(dirs[k]))),
                escape_seq(labels[k]),
            ),
    )
}

/// The breadcrumb trail of one page: one link per landing ancestor of its
/// directory, root first, each under its label, then the page's own title
/// in an unlinked span, all separated by `/`.
pub open spec fn breadcrumbs_ok(m: SiteMap, current: PageEntry, r: Seq<char>) -> bool {
    exists|labels: Seq<Seq<char>>|
        {
            &&& labels.len() == crumb_dirs(m, current).len()
            &&& (forall|k: int|
                0 <= k < labels.len() ==> crumb_label_ok(
                    m,
                    crumb_dirs(m, current)[k],
                    #[trigger] labels[k],
                ))
            &&& r == #[trigger] sep_join(
                crumb_items(crumb_dirs(m, current), labels, parent_dir(current.output_rel@)).push(
                    span_item(escape_seq(current.title@)),
                ),
                0,
            )
        }
}

/// The breadcrumb trail of one page: one link per landing ancestor of
/// its directory, root first, then the page's own title, separated by
/// `/`.
pub fn build_breadcrumbs_html(current: &PageEntry, m: &SiteMap) -> (r: String)
    ensures
        breadcrumbs_ok(*m, *current, r@),
{
    let cur_rel = str_chars(current.rel_path.as_str());
    let cur_dir = crate::paths::parent_dir_chars(&cur_rel);
    let cur_dir_s = chars_string(&cur_dir);
    let out_rel = str_chars(current.output_rel.as_str());
    let from_dir = chars_string(&crate::paths::parent_dir_chars(&out_rel));
    let is_landing = current.is_index || current.is_readme;
    let ancestors = ancestor_dirs(cur_dir_s.as_str());
    let mut crumbs: Vec<String> = Vec::new();
    let mut k: usize = 0;
    let ghost cd = parent_dir(current.rel_path@);
    let ghost fd = parent_dir(current.output_rel@);
    let ghost alist = ancestor_list(cd);
    let ghost qual = |a: Seq<char>| crumb_qualifies(*m, *current, a);
    let ghost mut gdirs = Seq::<Seq<char>>::empty();
    let ghost mut glabels = Seq::<Seq<char>>::empty();
    proof {
        assert(ancestors.deep_view() =~= alist);
        assert(alist.subrange(0, 0) =~= Seq::<Seq<char>>::empty());
        assert(gdirs =~= alist.subrange(0, 0).filter(qual));
        assert(crumbs.deep_view() =~= crumb_items(gdirs, glabels, fd));
    }
    while k < ancestors.len()
        invariant
            k <= ancestors@.len(),
            cur_dir@ == cd,
            cd == parent_dir(current.rel_path@),
            cur_dir_s@ == cd,
            from_dir@ == fd,
            fd == parent_dir(current.output_rel@),
            is_landing == (current.is_index || current.is_readme),
            ancestors.deep_view() == alist,
            alist == ancestor_list(cd),
            alist.len() == ancestors@.len(),
            qual == (|a: Seq<char>| crumb_qualifies(*m, *current, a)),
            gdirs == alist.subrange(0, k as int).filter(qual),
            glabels.len() == gdirs.len(),
            forall|q: int|
                0 <= q < gdirs.len() ==> crumb_label_ok(*m, gdirs[q], #[trigger] glabels[q]),
            crumbs.deep_view() == crumb_items(gdirs, glabels, fd),
        decreases ancestors.len() - k,
    {
        let a = str_chars(ancestors[k].as_str());
        proof {
            assert(alist[k as int] =~~= a@);
            assert(alist.subrange(0, k + 1).drop_last() =~= alist.subrange(0, k as int));
            assert(alist.subrange(0, k + 1).last() == alist[k as int]);
            reveal_with_fuel(Seq::filter, 2);
        }
        let skip_self = crate::text::chars_eq(&a, &cur_dir) && is_landing;
        let a_string = chars_string(&a);
        if !skip_self && crate::links::contains_string(&m.landing_dirs, &a_string) {
            let label = if a.len() == 0 {
                "Home".to_owned()
            } else {
                match landing_title(m, a_string.as_str()) {
                    Some(t) => t,
                    None => display_dir_name(a_string.as_str()),
                }
            };
            let target = index_target_exec(&a);
            let href = relative_link(from_dir.as_str(), target.as_str());
            let item = make_anchor(&href, &label);
            proof {
                assert(crumb_qualifies(*m, *current, a@));
                assert(crumb_label_ok(*m, a@, label@));
            }
            let ghost prev_dirs = gdirs;
            let ghost prev_labels = glabels;
            let ghost prev_items = crumbs.deep_view();
            proof {
                gdirs = gdirs.push(a@);
                glabels = glabels.push(label@);
            }
            crumbs.push(item);
            proof {
                assert(gdirs =~= alist.subrange(0, k + 1).filter(qual));
                assert(crumbs.deep_view() =~~= prev_items.push(item@));
                assert(item@ == anchor_item(
                    rel_link_spec(segs_of(fd), segs_of(index_target(a@))),
                    escape_seq(label@),
                ));
                assert(crumbs.deep_view() =~= crumb_items(gdirs, glabels, fd));
            }
        } else {
            proof {
                assert(!qual(alist[k as int]));
                assert(gdirs =~= alist.subrange(0, k + 1).filter(qual));
            }
        }
        k += 1;
    }
    proof {
        assert(alist.subrange(0, alist.len() as int) =~= alist);
        assert(gdirs =~= crumb_dirs(*m, *current));
    }
    let mut lastv = str_chars("<span>");
    let tv = str_chars(current.title.as_str());
    let esc = crate::text::escape_chars(&tv);
    push_all(&mut lastv, &esc);
    let close = str_chars("</span>");
    push_all(&mut lastv, &close);
    assert(lastv@ =~= span_item(escape_seq(current.title@)));
    let ghost items_before_span = crumbs.deep_view();
    crumbs.push(chars_string(&lastv));
    let ghost cv = crumbs.deep_view();
    proof {
        assert(cv =~~= items_before_span.push(span_item(escape_seq(current.title@))));
        assert(cv =~= crumb_items(crumb_dirs(*m, *current), glabels, fd).push(
            span_item(escape_seq(current.title@)),
        ));
    }
    let mut outv: Vec<char> = Vec::new();
    let mut idx: usize = 0;
    while idx < crumbs.len()
        invariant
            idx <= crumbs@.len(),
            crumbs.deep_view() == cv,
            cv.len() == crumbs@.len(),
            sep_join(cv, 0) == outv@ + (if idx == cv.len() {
                Seq::<char>::empty()
            } else if idx == 0 {
                sep_join(cv, 0)
            } else {
                crumb_sep() + sep_join(cv, idx as int)
            }),
            idx == 0 ==> outv@ =~= Seq::<char>::empty(),
        decreases crumbs.len() - idx,
    {
        if idx > 0 {
            let s = str_chars("<span class=\"sep\">/</span>");
            push_all(&mut outv, &s);
        }
        let piece = str_chars(crumbs[idx].as_str());
        assert(piece@ =~~= cv[idx as int]);
        push_all(&mut outv, &piece);
        idx += 1;
        assert(sep_join(cv, 0) =~= outv@ + (if idx == cv.len() {
            Seq::<char>::empty()
        } else if idx == 0 {
            sep_join(cv, 0)
        } else {
            crumb_sep() + sep_join(cv, idx as int)
        }));
    }
    assert(outv@ =~= sep_join(cv, 0));
    proof {
        assert(glabels.len() == crumb_dirs(*m, *current).len() && (forall|q: int|
            0 <= q < glabels.len() ==> crumb_label_ok(
                *m,
                crumb_dirs(*m, *current)[q],
                #[trigger] glabels[q],
            )) && outv@ == sep_join(
            crumb_items(crumb_dirs(*m, *current), glabels, parent_dir(current.output_rel@)).push(
                span_item(escape_seq(current.title@)),
            ),
            0,
        ));
    }
    chars_string(&outv)
}

} // verus!
