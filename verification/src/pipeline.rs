//! The build pipeline's per-page work: everything one tree conversion
//! decides and computes for a content file, as plain values.  Walking the
//! source tree, writing files and copying assets are the caller's I/O;
//! the caller hands each page's contents in and writes the results out.

use vstd::prelude::*;

use crate::markdown::{
    html_with_dests, mermaid_spec, render_markdown, rewritten_dests, warnings_spec, RenderedPage,
};
use crate::nav::{breadcrumbs_ok, build_breadcrumbs_html, build_nav_html, nav_html_ok};
use crate::paths::{parent_dir, spec_is_markdown};
use crate::sitemap::{index_sibling_of, PageEntry, SiteMap, SourceFile};
use crate::template::{render_spec, Template};

verus! {

/// How a tree conversion is rendered.
pub struct RenderOptions<'a> {
    pub live_reload: bool,
    pub template: &'a Template,
}

/// Everything the pipeline produces for one content file: the finished
/// document, where it goes, whether the same document is duplicated as
/// the directory's `index.html`, and the page's advisory link warnings.
pub struct PageOutput {
    pub html: String,
    pub output_rel: String,
    pub index_copy: Option<String>,
    pub warnings: Vec<String>,
}

/// The script a previewed page polls the version counter with.
pub open spec fn reload_script() -> Seq<char> {
    "<script>\n(function () {\n  const endpoint = \"/__rendar_version\";\n  let last = null;\n  async function poll() {\n    try {\n      const res = await fetch(endpoint, { cache: \"no-store\" });\n      const text = await res.text();\n      if (last === null) {\n        last = text;\n      } else if (last !== text) {\n        location.reload();\n        return;\n      }\n    } catch (_) {}\n    setTimeout(poll, 1000);\n  }\n  poll();\n})();\n</script>\n"@
}

/// The poll-and-reload script injected into previewed pages. It watches
/// the version endpoint and reloads the page when the value changes.
pub fn live_reload_script() -> (r: &'static str)
    ensures
        r@ == reload_script(),
{
    "<script>\n(function () {\n  const endpoint = \"/__rendar_version\";\n  let last = null;\n  async function poll() {\n    try {\n      const res = await fetch(endpoint, { cache: \"no-store\" });\n      const text = await res.text();\n      if (last === null) {\n        last = text;\n      } else if (last !== text) {\n        location.reload();\n        return;\n      }\n    } catch (_) {}\n    setTimeout(poll, 1000);\n  }\n  poll();\n})();\n</script>\n"
}

/// The finished document of one page: the rendered body in the template,
/// with that page's sidebar and breadcrumbs, and the reload script when
/// previewing.
pub open spec fn page_html_ok(
    m: SiteMap,
    page: PageEntry,
    contents: Seq<char>,
    raw: Seq<char>,
    style: Seq<char>,
    live_reload: bool,
    html: Seq<char>,
) -> bool {
    exists|nav: Seq<char>, bc: Seq<char>|
        {
            &&& #[trigger] nav_html_ok(m, page, nav)
            &&& #[trigger] breadcrumbs_ok(m, page, bc)
            &&& html == render_spec(
                raw,
                style,
                page.title@,
                mermaid_spec(
                    html_with_dests(
                        contents,
                        rewritten_dests(contents, page.rel_path@, m.index_dirs.deep_view()),
                    ),
                ),
                nav,
                bc,
                Seq::<char>::empty(),
                if live_reload {
                    reload_script()
                } else {
                    Seq::<char>::empty()
                },
            )
        }
}

/// Render one content file of the site.  Yields nothing when the path is
/// not in the registry.  The `index_copy` field names the second path the
/// same document is written to: a README stands in for its directory's
/// missing `index.html`, and is never duplicated when the directory has
/// an index file of its own.
pub fn render_page(
    m: &SiteMap,
    files: &Vec<String>,
    rel_path: &str,
    contents: &str,
    options: &RenderOptions<'_>,
) -> (r: Option<PageOutput>)
    ensures
        match r {
            Some(out) => exists|page: PageEntry|
                {
                    &&& #[trigger] m.pages@.contains(page)
                    &&& page.rel_path@ == rel_path@
                    &&& out.output_rel@ == page.output_rel@
                    &&& match out.index_copy {
                        Some(ix) => page.is_readme && !m.index_dirs.deep_view().contains(
                            parent_dir(page.rel_path@),
                        ) && ix@ == index_sibling_of(page.rel_path@),
                        None => !(page.is_readme && !m.index_dirs.deep_view().contains(
                            parent_dir(page.rel_path@),
                        )),
                    }
                    &&& out.warnings.deep_view() == warnings_spec(
                        contents@,
                        rel_path@,
                        files.deep_view(),
                    )
                    &&& page_html_ok(
                        *m,
                        page,
                        contents@,
                        options.template.raw@,
                        options.template.style@,
                        options.live_reload,
                        out.html@,
                    )
                },
            None => forall|j: int|
                0 <= j < m.pages@.len() ==> (#[trigger] m.pages@[j]).rel_path@ != rel_path@,
        },
{
    let ix = match crate::sitemap::find_page(m, rel_path) {
        Some(ix) => ix,
        None => {
            return None;
        },
    };
    let page = &m.pages[ix];
    let rendered: RenderedPage = render_markdown(contents, rel_path, files, &m.index_dirs);
    let nav = build_nav_html(page, m);
    let bc = build_breadcrumbs_html(page, m);
    let extra_body = if options.live_reload {
        Some(live_reload_script())
    } else {
        None
    };
    let html = options.template.render(
        page.title.as_str(),
        rendered.html.as_str(),
        nav.as_str(),
        bc.as_str(),
        None,
        extra_body,
    );
    let index_copy = if page.is_readme && crate::sitemap::should_write_index(
        rel_path,
        &m.index_dirs,
    ) {
        let rel = crate::text::str_chars(rel_path);
        let par = crate::paths::parent_dir_chars(&rel);
        let mut out: Vec<char> = Vec::new();
        if par.len() > 0 {
            crate::text::push_all(&mut out, &par);
            out.push('/');
        }
        let name = crate::text::str_chars("index.html");
        proof {
            reveal_strlit("index.html");
            assert(name@ =~= seq!['i', 'n', 'd', 'e', 'x', '.', 'h', 't', 'm', 'l']);
        }
        crate::text::push_all(&mut out, &name);
        assert(out@ =~= index_sibling_of(page.rel_path@));
        Some(crate::text::chars_string(&out))
    } else {
        None
    };
    let out = PageOutput {
        html,
        output_rel: page.output_rel.clone(),
        index_copy,
        warnings: rendered.warnings,
    };
    proof {
        assert(m.pages@.contains(m.pages@[ix as int]));
        assert(page_html_ok(
            *m,
            m.pages@[ix as int],
            contents@,
            options.template.raw@,
            options.template.style@,
            options.live_reload,
            out.html@,
        ));
    }
    Some(out)
}

/// The advisory warnings of every content file, flattened in file order.
pub open spec fn all_warnings(files: Seq<SourceFile>, known: Seq<Seq<char>>, i: int) -> Seq<
    Seq<char>,
>
    decreases files.len() - i,
{
    if i < 0 || i >= files.len() {
        Seq::empty()
    } else {
        (if spec_is_markdown(files[i].rel_path@) {
            warnings_spec(files[i].contents@, files[i].rel_path@, known)
        } else {
            Seq::empty()
        }) + all_warnings(files, known, i + 1)
    }
}

/// Append every string of `more` to `out`, in order.
fn append_strings(out: &mut Vec<String>, more: &Vec<String>)
    ensures
        final(out).deep_view() == old(out).deep_view() + more.deep_view(),
{
    let mut k: usize = 0;
    proof {
        assert(out.deep_view() =~~= old(out).deep_view() + more.deep_view().subrange(0, 0));
    }
    while k < more.len()
        invariant
            k <= more@.len(),
            out.deep_view() == old(out).deep_view() + more.deep_view().subrange(0, k as int),
        decreases more.len() - k,
    {
        let s = more[k].clone();
        let ghost prev = out.deep_view();
        out.push(s);
        proof {
            assert(out.deep_view() =~~= prev.push(more.deep_view()[k as int]));
        }
        k += 1;
        assert(out.deep_view() =~= old(out).deep_view() + more.deep_view().subrange(0, k as int));
    }
    assert(out.deep_view() =~= old(out).deep_view() + more.deep_view());
}

/// Check the whole tree without writing output: every content file's
/// advisory warnings, in walk order.  The caller's pass/fail signal is
/// whether any came back.
pub fn check_pages(files: &Vec<SourceFile>, known: &Vec<String>, index_dirs: &Vec<String>) -> (r:
    Vec<String>)
    ensures
        r.deep_view() == all_warnings(files@, known.deep_view(), 0),
{
    let mut out: Vec<String> = Vec::new();
    let mut i: usize = 0;
    proof {
        assert(out.deep_view() =~~= Seq::<Seq<char>>::empty());
    }
    while i < files.len()
        invariant
            i <= files@.len(),
            all_warnings(files@, known.deep_view(), 0) == out.deep_view() + all_warnings(
                files@,
                known.deep_view(),
                i as int,
            ),
        decreases files.len() - i,
    {
        let f = &files[i];
        let rel = crate::text::str_chars(f.rel_path.as_str());
        if crate::paths::is_markdown_chars(&rel) {
            let page = render_markdown(f.contents.as_str(), f.rel_path.as_str(), known, index_dirs);
            append_strings(&mut out, &page.warnings);
        }
        i += 1;
        assert(all_warnings(files@, known.deep_view(), 0) =~= out.deep_view() + all_warnings(
            files@,
            known.deep_view(),
            i as int,
        ));
    }
    proof {
        assert(out.deep_view() =~= out.deep_view() + all_warnings(
            files@,
            known.deep_view(),
            i as int,
        ));
    }
    out
}

} // verus!
