//! HTML template substitution: a raw template with named placeholders,
//! each replaced by the page's parts when a page is rendered.

use vstd::prelude::*;

use crate::text::{chars_string, replace_all, replace_spec, str_chars};

verus! {

/// A page template: the raw document, and a stylesheet spliced into it.
pub struct Template {
    pub raw: String,
    pub style: String,
}

/// What `render` produces: each placeholder replaced in turn, in a fixed
/// order, every occurrence at once.
pub open spec fn render_spec(
    raw: Seq<char>,
    style: Seq<char>,
    title: Seq<char>,
    content: Seq<char>,
    nav: Seq<char>,
    breadcrumbs: Seq<char>,
    extra_head: Seq<char>,
    extra_body: Seq<char>,
) -> Seq<char> {
    let s1 = replace_spec(raw, "{{title}}"@, title);
    let s2 = replace_spec(s1, "{{content}}"@, content);
    let s3 = replace_spec(s2, "{{nav}}"@, nav);
    let s4 = replace_spec(s3, "{{breadcrumbs}}"@, breadcrumbs);
    let s5 = replace_spec(s4, "{{style}}"@, style);
    let s6 = replace_spec(s5, "{{extra_head}}"@, extra_head);
    replace_spec(s6, "{{extra_body}}"@, extra_body)
}

impl Template {
    /// The built-in theme: a plain document with a sidebar and a
    /// breadcrumb bar, used when no template file is given.
    pub fn built_in() -> (t: Template)
        ensures
            t.raw@ == builtin_raw(),
            t.style@ == builtin_style(),
    {
        Template { raw: builtin_raw_exec(), style: builtin_style_exec() }
    }

    /// Fill the template: every placeholder occurrence is replaced by the
    /// matching part, title first, extra body last.
    pub fn render(
        &self,
        title: &str,
        content: &str,
        nav: &str,
        breadcrumbs: &str,
        extra_head: Option<&str>,
        extra_body: Option<&str>,
    ) -> (r: String)
        ensures
            r@ == render_spec(
                self.raw@,
                self.style@,
                title@,
                content@,
                nav@,
                breadcrumbs@,
                match extra_head {
                    Some(h) => h@,
                    None => Seq::empty(),
                },
                match extra_body {
                    Some(b) => b@,
                    None => Seq::empty(),
                },
            ),
    {
        let head_str = match extra_head {
            Some(h) => h,
            None => "",
        };
        let body_str = match extra_body {
            Some(b) => b,
            None => "",
        };
        proof {
            reveal_strlit("");
            assert(""@ =~= Seq::<char>::empty());
            reveal_strlit("{{title}}");
            reveal_strlit("{{content}}");
            reveal_strlit("{{nav}}");
            reveal_strlit("{{breadcrumbs}}");
            reveal_strlit("{{style}}");
            reveal_strlit("{{extra_head}}");
            reveal_strlit("{{extra_body}}");
        }
        let mut cur = str_chars(self.raw.as_str());
        cur = replace_one(&cur, "{{title}}", title);
        cur = replace_one(&cur, "{{content}}", content);
        cur = replace_one(&cur, "{{nav}}", nav);
        cur = replace_one(&cur, "{{breadcrumbs}}", breadcrumbs);
        cur = replace_one(&cur, "{{style}}", self.style.as_str());
        cur = replace_one(&cur, "{{extra_head}}", head_str);
        cur = replace_one(&cur, "{{extra_body}}", body_str);
        chars_string(&cur)
    }
}

/// Replace every occurrence of one placeholder.
fn replace_one(cur: &Vec<char>, pat: &str, value: &str) -> (r: Vec<char>)
    requires
        pat@.len() > 0,
    ensures
        r@ == replace_spec(cur@, pat@, value@),
{
    let p = str_chars(pat);
    let v = str_chars(value);
    replace_all(cur, &p, &v)
}

/// The placeholders every template is expected to carry.
pub open spec fn required_placeholders() -> Seq<Seq<char>> {
    seq!["{{title}}"@, "{{content}}"@, "{{nav}}"@, "{{breadcrumbs}}"@]
}

/// A pattern occurs somewhere in the text.
pub open spec fn text_contains(s: Seq<char>, pat: Seq<char>) -> bool {
    crate::text::find_from(s, pat, 0) is Some
}

/// The required placeholders the template does not contain, in their
/// fixed order.
pub open spec fn missing_spec(template: Seq<char>) -> Seq<Seq<char>> {
    required_placeholders().filter(|p: Seq<char>| !text_contains(template, p))
}

/// List the required placeholders missing from a template; a template
/// missing one still renders, so this is advisory.
pub fn missing_placeholders(template: &str) -> (r: Vec<&'static str>)
    ensures
        r.deep_view() == missing_spec(template@),
{
    let tv = str_chars(template);
    let mut missing: Vec<&'static str> = Vec::new();
    let t = str_chars("{{title}}");
    let c = str_chars("{{content}}");
    let n = str_chars("{{nav}}");
    let b = str_chars("{{breadcrumbs}}");
    proof {
        reveal_strlit("{{title}}");
        reveal_strlit("{{content}}");
        reveal_strlit("{{nav}}");
        reveal_strlit("{{breadcrumbs}}");
    }
    let ghost pred = |p: Seq<char>| !text_contains(template@, p);
    if crate::text::find_sub_from(&tv, &t, 0).is_none() {
        missing.push("{{title}}");
    }
    proof {
        let pre = required_placeholders().subrange(0, 1);
        assert(pre.drop_last() =~= Seq::<Seq<char>>::empty());
        reveal_with_fuel(Seq::filter, 2);
        assert(missing.deep_view() =~~= pre.filter(pred));
    }
    if crate::text::find_sub_from(&tv, &c, 0).is_none() {
        missing.push("{{content}}");
    }
    proof {
        let pre = required_placeholders().subrange(0, 2);
        assert(pre.drop_last() =~= required_placeholders().subrange(0, 1));
        reveal_with_fuel(Seq::filter, 2);
        assert(missing.deep_view() =~~= pre.filter(pred));
    }
    if crate::text::find_sub_from(&tv, &n, 0).is_none() {
        missing.push("{{nav}}");
    }
    proof {
        let pre = required_placeholders().subrange(0, 3);
        assert(pre.drop_last() =~= required_placeholders().subrange(0, 2));
        reveal_with_fuel(Seq::filter, 2);
        assert(missing.deep_view() =~~= pre.filter(pred));
    }
    if crate::text::find_sub_from(&tv, &b, 0).is_none() {
        missing.push("{{breadcrumbs}}");
    }
    proof {
        let pre = required_placeholders().subrange(0, 4);
        assert(pre.drop_last() =~= required_placeholders().subrange(0, 3));
        reveal_with_fuel(Seq::filter, 2);
        assert(missing.deep_view() =~~= pre.filter(pred));
        assert(required_placeholders().subrange(0, 4) =~= required_placeholders());
    }
    missing
}

/// The built-in template text.
pub open spec fn builtin_raw() -> Seq<char> {
    "<!doctype html>\n<html lang=\"en\">\n<head>\n<meta charset=\"utf-8\">\n<meta name=\"viewport\" content=\"width=device-width, initial-scale=1\">\n<title>{{title}}</title>\n<style>\n{{style}}</style>\n{{extra_head}}</head>\n<body>\n<div class=\"layout\">\n<nav class=\"sidebar\">{{nav}}</nav>\n<main class=\"main\">\n<div class=\"breadcrumbs\">{{breadcrumbs}}</div>\n<article class=\"content\">\n{{content}}\n</article>\n</main>\n</div>\n{{extra_body}}</body>\n</html>\n"@
}

/// The built-in stylesheet text.
pub open spec fn builtin_style() -> Seq<char> {
    "body { margin: 0; font-family: system-ui, sans-serif; color: #1f2933; }\n.layout { display: flex; min-height: 100vh; }\n.sidebar { width: 16rem; padding: 1.5rem; border-right: 1px solid #e0e6ed; }\n.main { flex: 1; padding: 1.5rem 2rem; max-width: 52rem; }\n.breadcrumbs { font-size: 0.9rem; color: #52606d; margin-bottom: 1rem; }\n.breadcrumbs .sep { margin: 0 0.4rem; color: #9aa5b1; }\n.nav-section { margin-bottom: 1.25rem; }\n.nav-title { font-weight: 600; margin-bottom: 0.5rem; }\n.nav-list { list-style: none; margin: 0; padding: 0; }\n.nav-list li { margin: 0.25rem 0; }\na { color: #2563eb; text-decoration: none; }\na:hover { text-decoration: underline; }\ntable.csv-table { border-collapse: collapse; }\ntable.csv-table th, table.csv-table td { border: 1px solid #e0e6ed; padding: 0.3rem 0.6rem; }\n"@
}

fn builtin_raw_exec() -> (r: String)
    ensures
        r@ == builtin_raw(),
{
    "<!doctype html>\n<html lang=\"en\">\n<head>\n<meta charset=\"utf-8\">\n<meta name=\"viewport\" content=\"width=device-width, initial-scale=1\">\n<title>{{title}}</title>\n<style>\n{{style}}</style>\n{{extra_head}}</head>\n<body>\n<div class=\"layout\">\n<nav class=\"sidebar\">{{nav}}</nav>\n<main class=\"main\">\n<div class=\"breadcrumbs\">{{breadcrumbs}}</div>\n<article class=\"content\">\n{{content}}\n</article>\n</main>\n</div>\n{{extra_body}}</body>\n</html>\n".to_owned()
}

fn builtin_style_exec() -> (r: String)
    ensures
        r@ == builtin_style(),
{
    "body { margin: 0; font-family: system-ui, sans-serif; color: #1f2933; }\n.layout { display: flex; min-height: 100vh; }\n.sidebar { width: 16rem; padding: 1.5rem; border-right: 1px solid #e0e6ed; }\n.main { flex: 1; padding: 1.5rem 2rem; max-width: 52rem; }\n.breadcrumbs { font-size: 0.9rem; color: #52606d; margin-bottom: 1rem; }\n.breadcrumbs .sep { margin: 0 0.4rem; color: #9aa5b1; }\n.nav-section { margin-bottom: 1.25rem; }\n.nav-title { font-weight: 600; margin-bottom: 0.5rem; }\n.nav-list { list-style: none; margin: 0; padding: 0; }\n.nav-list li { margin: 0.25rem 0; }\na { color: #2563eb; text-decoration: none; }\na:hover { text-decoration: underline; }\ntable.csv-table { border-collapse: collapse; }\ntable.csv-table th, table.csv-table td { border: 1px solid #e0e6ed; padding: 0.3rem 0.6rem; }\n".to_owned()
}

} // verus!
