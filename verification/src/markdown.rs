//! The Markdown engine boundary.
//!
//! Parsing Markdown and serializing HTML are delegated to pulldown-cmark;
//! each call sits behind a trusted wrapper whose result is named by an
//! uninterpreted function of its arguments.  Everything decided *about*
//! those results — which destination every link gets, which warnings are
//! reported, how mermaid code fences are re-tagged — is verified code.

use vstd::prelude::*;

use pulldown_cmark::{html, CowStr, Event, Options, Parser, Tag, TagEnd};

use crate::links::{link_base, rewrite_dest_spec, rewrite_link_dest, spec_link_missing, warn_text};
use crate::text::{
    chars_string, find_from, find_sub_from, lemma_find_from_bounds, push_all, str_chars, sub_chars,
};

verus! {

#[verifier::external_type_specification]
#[verifier::external_body]
pub struct ExOptions(Options);

/// Relies on pulldown_cmark::Options: the extension set used when
/// scanning a document for its title.
#[verifier::external_body]
fn heading_opts() -> Options {
    let mut opts = Options::empty();
    opts.insert(Options::ENABLE_GFM);
    opts.insert(Options::ENABLE_SMART_PUNCTUATION);
    opts
}

/// Relies on pulldown_cmark::Options: the extension set used when a page
/// is rendered.
#[verifier::external_body]
fn render_opts() -> Options {
    let mut opts = Options::empty();
    opts.insert(Options::ENABLE_GFM);
    opts.insert(Options::ENABLE_TABLES);
    opts.insert(Options::ENABLE_STRIKETHROUGH);
    opts.insert(Options::ENABLE_TASKLISTS);
    opts.insert(Options::ENABLE_FOOTNOTES);
    opts.insert(Options::ENABLE_HEADING_ATTRIBUTES);
    opts.insert(Options::ENABLE_SMART_PUNCTUATION);
    opts.insert(Options::ENABLE_MATH);
    opts
}

/// The text of the first non-empty heading of a Markdown document, a
/// function of the document alone.
pub uninterp spec fn first_heading_of(md: Seq<char>) -> Option<Seq<char>>;

/// Relies on pulldown_cmark::Parser: walks the event stream and returns
/// the first heading's text, trimmed; the result depends on the document
/// alone.
#[verifier::external_body]
pub fn first_heading_title(markdown: &str) -> (r: Option<String>)
    ensures
        match r {
            Some(t) => first_heading_of(markdown@) == Some(t@),
            None => first_heading_of(markdown@) is None,
        },
{
    let mut in_heading = false;
    let mut buffer = String::new();
    for ev in Parser::new_ext(markdown, heading_opts()) {
        match ev {
            Event::Start(Tag::Heading { .. }) => { in_heading = true; buffer.clear(); },
            Event::End(TagEnd::Heading(_)) if in_heading && !buffer.trim().is_empty() => return Some(buffer.trim().to_string()),
            Event::End(TagEnd::Heading(_)) => in_heading = false,
            Event::Text(t) | Event::Code(t) if in_heading => buffer.push_str(t.as_ref()),
            Event::SoftBreak | Event::HardBreak if in_heading => buffer.push(' '),
            _ => {},
        }
    }
    None
}

/// The link destinations of a Markdown document, in parse order, a
/// function of the document alone.
pub uninterp spec fn link_dests_of(md: Seq<char>) -> Seq<Seq<char>>;

/// Relies on pulldown_cmark::Parser: collects every link start tag's
/// destination, in the order the parser yields them.
#[verifier::external_body]
fn collect_link_dests(markdown: &str) -> (r: Vec<String>)
    ensures
        r.deep_view() == link_dests_of(markdown@),
{
    let mut dests = Vec::new();
    for ev in Parser::new_ext(markdown, render_opts()) {
        if let Event::Start(Tag::Link { dest_url, .. }) = ev {
            dests.push(dest_url.to_string());
        }
    }
    dests
}

/// The HTML pulldown-cmark writes for a document whose link destinations
/// are replaced, in order, by the given sequence; a function of the
/// document and that sequence alone.
pub uninterp spec fn html_with_dests(md: Seq<char>, dests: Seq<Seq<char>>) -> Seq<char>;

/// Relies on pulldown_cmark::{Parser, html::push_html}: renders the
/// document, substituting the i-th link destination for the parser's
/// i-th link start tag.
#[verifier::external_body]
fn render_html_with_dests(markdown: &str, dests: &Vec<String>) -> (r: String)
    ensures
        r@ == html_with_dests(markdown@, dests.deep_view()),
{
    let mut i: usize = 0;
    let events = Parser::new_ext(markdown, render_opts()).map(|ev| match ev {
        Event::Start(Tag::Link { link_type, dest_url, title, id }) => {
            let dest = dests.get(i).map(|s| CowStr::from(s.clone())).unwrap_or(dest_url);
            i += 1;
            Event::Start(Tag::Link { link_type, dest_url: dest, title, id })
        },
        other => other,
    });
    let mut out = String::new();
    html::push_html(&mut out, events);
    out
}

/// Every link destination of the document, rewritten for the page at
/// `source_rel`.
pub open spec fn rewritten_dests(md: Seq<char>, source_rel: Seq<char>, index_dirs: Seq<Seq<char>>) -> Seq<
    Seq<char>,
> {
    link_dests_of(md).map(|i: int, d: Seq<char>| rewrite_dest_spec(d, source_rel, index_dirs))
}

/// The advisory warnings of the document: one per link whose target is
/// not a known content file, in link order.
pub open spec fn warnings_spec(
    md: Seq<char>,
    source_rel: Seq<char>,
    files: Seq<Seq<char>>,
) -> Seq<Seq<char>> {
    link_dests_of(md).filter(|d: Seq<char>| spec_link_missing(d, source_rel, files)).map(
        |i: int, d: Seq<char>| warn_text(link_base(d), source_rel),
    )
}

/// Convert a page's Markdown to HTML, rewriting every link destination
/// through the resolver, and collect the advisory warnings in link order.
pub fn markdown_to_html_with_rewrites(
    markdown: &str,
    source_rel: &str,
    files: &Vec<String>,
    index_dirs: &Vec<String>,
) -> (r: (String, Vec<String>))
    ensures
        r.0@ == html_with_dests(
            markdown@,
            rewritten_dests(markdown@, source_rel@, index_dirs.deep_view()),
        ),
        r.1.deep_view() == warnings_spec(markdown@, source_rel@, files.deep_view()),
{
    let dests = collect_link_dests(markdown);
    let mut outs: Vec<String> = Vec::new();
    let mut warns: Vec<String> = Vec::new();
    let ghost all = dests.deep_view();
    let ghost src = source_rel@;
    let ghost fvs = files.deep_view();
    let ghost dirs = index_dirs.deep_view();
    let mut i: usize = 0;
    proof {
        assert(all.subrange(0, 0) =~= Seq::<Seq<char>>::empty());
        assert(outs.deep_view() =~~= all.subrange(0, 0).map(
            |k: int, d: Seq<char>| rewrite_dest_spec(d, src, dirs),
        ));
        assert(warns.deep_view() =~~= all.subrange(0, 0).filter(
            |d: Seq<char>| spec_link_missing(d, src, fvs),
        ).map(|k: int, d: Seq<char>| warn_text(link_base(d), src)));
    }
    while i < dests.len()
        invariant
            i <= dests@.len(),
            dests.deep_view() == all,
            all.len() == dests@.len(),
            files.deep_view() == fvs,
            index_dirs.deep_view() == dirs,
            src == source_rel@,
            outs.deep_view() == all.subrange(0, i as int).map(
                |k: int, d: Seq<char>| rewrite_dest_spec(d, src, dirs),
            ),
            warns.deep_view() == all.subrange(0, i as int).filter(
                |d: Seq<char>| spec_link_missing(d, src, fvs),
            ).map(|k: int, d: Seq<char>| warn_text(link_base(d), src)),
        decreases dests.len() - i,
    {
        let d = &dests[i];
        assert(d@ =~~= all[i as int]);
        let (out, warn) = rewrite_link_dest(d.as_str(), source_rel, files, index_dirs);
        let ghost prev_outs = outs.deep_view();
        let ghost prev_warns = warns.deep_view();
        outs.push(out);
        proof {
            let pre = all.subrange(0, i as int);
            let f = |k: int, dd: Seq<char>| rewrite_dest_spec(dd, src, dirs);
            assert(all.subrange(0, i + 1).drop_last() =~= pre);
            assert(all.subrange(0, i + 1).last() == all[i as int]);
            assert(outs.deep_view() =~~= prev_outs.push(rewrite_dest_spec(all[i as int], src, dirs)));
            assert(pre.map(f).push(f(i as int, all[i as int])) =~= all.subrange(0, i + 1).map(f));
        }
        match warn {
            Some(w) => {
                warns.push(w);
            },
            None => {},
        }
        proof {
            let pre = all.subrange(0, i as int);
            let ext = all.subrange(0, i + 1);
            let p = |dd: Seq<char>| spec_link_missing(dd, src, fvs);
            let g = |k: int, dd: Seq<char>| warn_text(link_base(dd), src);
            assert(ext.drop_last() =~= pre);
            assert(ext.last() == all[i as int]);
            reveal_with_fuel(Seq::filter, 2);
            if p(all[i as int]) {
                assert(ext.filter(p) =~= pre.filter(p).push(all[i as int]));
                assert(warns.deep_view() =~~= prev_warns.push(warn_text(
                    link_base(all[i as int]),
                    src,
                )));
                assert(pre.filter(p).map(g).push(g(pre.filter(p).len() as int, all[i as int])) =~= ext.filter(
                    p,
                ).map(g));
            } else {
                assert(ext.filter(p) =~= pre.filter(p));
            }
        }
        i += 1;
    }
    proof {
        assert(all.subrange(0, all.len() as int) =~= all);
    }
    let html = render_html_with_dests(markdown, &outs);
    (html, warns)
}

/// The fenced-code HTML pulldown-cmark writes for a mermaid block.
pub open spec fn mermaid_open() -> Seq<char> {
    "<pre><code class=\"language-mermaid\">"@
}

pub open spec fn mermaid_close() -> Seq<char> {
    "</code></pre>"@
}

/// The tag the preview page's mermaid script looks for.
pub open spec fn mermaid_new_open() -> Seq<char> {
    "<pre class=\"mermaid\">"@
}

pub open spec fn mermaid_new_close() -> Seq<char> {
    "</pre>"@
}

/// The HTML from position `from` on, with each mermaid fenced-code block
/// re-tagged as `<pre class="mermaid">…</pre>`; a block whose closing tag
/// is missing keeps its tail unchanged after the re-tagged opening.
pub open spec fn mermaid_from(h: Seq<char>, from: int) -> Seq<char>
    decreases h.len() - from,
    via mermaid_from_decreases
{
    if from < 0 || from > h.len() {
        Seq::empty()
    } else {
        match find_from(h, mermaid_open(), from) {
            None => h.subrange(from, h.len() as int),
            Some(i) => {
                let after_open = i + mermaid_open().len();
                h.subrange(from, i) + mermaid_new_open() + match find_from(
                    h,
                    mermaid_close(),
                    after_open,
                ) {
                    None => h.subrange(after_open, h.len() as int),
                    Some(e) => h.subrange(after_open, e) + mermaid_new_close() + mermaid_from(
                        h,
                        e + mermaid_close().len(),
                    ),
                }
            },
        }
    }
}

#[via_fn]
proof fn mermaid_from_decreases(h: Seq<char>, from: int) {
    reveal_strlit("<pre><code class=\"language-mermaid\">");
    reveal_strlit("</code></pre>");
    if 0 <= from <= h.len() {
        match find_from(h, mermaid_open(), from) {
            None => {},
            Some(i) => {
                lemma_find_from_bounds(h, mermaid_open(), from, i);
                let after_open = i + mermaid_open().len();
                match find_from(h, mermaid_close(), after_open) {
                    None => {},
                    Some(e) => {
                        lemma_find_from_bounds(h, mermaid_close(), after_open, e);
                    },
                }
            },
        }
    }
}

/// `h` with every mermaid fenced-code block re-tagged.
pub open spec fn mermaid_spec(h: Seq<char>) -> Seq<char> {
    mermaid_from(h, 0)
}

/// Re-tag the mermaid fenced-code blocks of rendered HTML so the page's
/// mermaid script can find them.
pub fn rewrite_mermaid_blocks(html: &str) -> (r: String)
    ensures
        r@ == mermaid_spec(html@),
{
    let h = str_chars(html);
    let open_tag = str_chars("<pre><code class=\"language-mermaid\">");
    let close_tag = str_chars("</code></pre>");
    let new_open = str_chars("<pre class=\"mermaid\">");
    let new_close = str_chars("</pre>");
    proof {
        reveal_strlit("<pre><code class=\"language-mermaid\">");
        reveal_strlit("</code></pre>");
    }
    let h_len: usize = h.len();
    let mut out: Vec<char> = Vec::new();
    let mut pos: usize = 0;
    loop
        invariant
            pos <= h_len,
            h@ == html@,
            h@.len() == h_len,
            open_tag@ == mermaid_open(),
            close_tag@ == mermaid_close(),
            new_open@ == mermaid_new_open(),
            new_close@ == mermaid_new_close(),
            open_tag@.len() > 0,
            close_tag@.len() > 0,
            mermaid_spec(h@) == out@ + mermaid_from(h@, pos as int),
        decreases h_len - pos,
    {
        match find_sub_from(&h, &open_tag, pos) {
            None => {
                let rest = sub_chars(&h, pos, h_len);
                push_all(&mut out, &rest);
                assert(out@ =~= mermaid_spec(h@));
                return chars_string(&out);
            },
            Some(i) => {
                proof {
                    lemma_find_from_bounds(h@, open_tag@, pos as int, i as int);
                }
                let before = sub_chars(&h, pos, i);
                push_all(&mut out, &before);
                push_all(&mut out, &new_open);
                let after_open = i + open_tag.len();
                match find_sub_from(&h, &close_tag, after_open) {
                    None => {
                        let rest = sub_chars(&h, after_open, h_len);
                        push_all(&mut out, &rest);
                        assert(out@ =~= mermaid_spec(h@));
                        return chars_string(&out);
                    },
                    Some(e) => {
                        proof {
                            lemma_find_from_bounds(h@, close_tag@, after_open as int, e as int);
                        }
                        let code = sub_chars(&h, after_open, e);
                        push_all(&mut out, &code);
                        push_all(&mut out, &new_close);
                        pos = e + close_tag.len();
                        assert(out@ + mermaid_from(h@, pos as int) =~= mermaid_spec(h@));
                    },
                }
            },
        }
    }
}

/// One rendered page: its HTML and the advisory warnings its links earned.
pub struct RenderedPage {
    pub html: String,
    pub warnings: Vec<String>,
}

/// Render a page's Markdown: convert to HTML with every link destination
/// rewritten through the resolver, then re-tag mermaid blocks.
pub fn render_markdown(
    contents: &str,
    source_rel: &str,
    files: &Vec<String>,
    index_dirs: &Vec<String>,
) -> (r: RenderedPage)
    ensures
        r.html@ == mermaid_spec(
            html_with_dests(
                contents@,
                rewritten_dests(contents@, source_rel@, index_dirs.deep_view()),
            ),
        ),
        r.warnings.deep_view() == warnings_spec(contents@, source_rel@, files.deep_view()),
{
    let (html, warnings) = markdown_to_html_with_rewrites(contents, source_rel, files, index_dirs);
    let html = rewrite_mermaid_blocks(html.as_str());
    RenderedPage { html, warnings }
}

} // verus!
