use rendar::links::{has_scheme, rewrite_link_dest, split_link};
use rendar::markdown::{markdown_to_html_with_rewrites, rewrite_mermaid_blocks};

fn strings(items: &[&str]) -> Vec<String> {
    items.iter().map(|s| s.to_string()).collect()
}

#[test]
fn rewrites_mermaid_code_fences() {
    let markdown = "\n```mermaid\ngraph TD;\n  A-->B;\n```\n";
    let index_dirs: Vec<String> = Vec::new();
    let files: Vec<String> = Vec::new();
    let (html, _warnings) = markdown_to_html_with_rewrites(markdown, ".", &files, &index_dirs);
    let rewritten = rewrite_mermaid_blocks(&html);
    assert!(rewritten.contains("<pre class=\"mermaid\">"));
    assert!(rewritten.contains("graph TD;"));
}

#[test]
fn rewrites_markdown_links_to_html() {
    let files = strings(&["docs/README.md", "docs/guide/intro.md"]);
    let index_dirs = strings(&["docs"]);
    let markdown = "[Doc](guide/intro.md) and [Root](README.md)";
    let (html, warnings) =
        markdown_to_html_with_rewrites(markdown, "docs/index.md", &files, &index_dirs);
    assert!(warnings.is_empty());
    assert!(html.contains("guide/intro.html"));
    assert!(html.contains("README.html"));
}

#[test]
fn warns_on_missing_markdown_link() {
    let files: Vec<String> = Vec::new();
    let index_dirs: Vec<String> = Vec::new();
    let markdown = "[Missing](missing.md)";
    let (_html, warnings) =
        markdown_to_html_with_rewrites(markdown, "docs/index.md", &files, &index_dirs);
    assert_eq!(warnings.len(), 1);
    assert!(warnings[0].contains("missing.md"));
}

#[test]
fn passes_through_schemes_and_fragments() {
    let files: Vec<String> = Vec::new();
    let index_dirs: Vec<String> = Vec::new();
    for dest in ["https://example.org/x.md", "http://e/x.md", "mailto:a@b", "tel:123", "#frag"] {
        let (out, warning) = rewrite_link_dest(dest, "docs/index.md", &files, &index_dirs);
        assert_eq!(out, dest);
        assert!(warning.is_none());
    }
    assert!(has_scheme("https://example.org"));
    assert!(!has_scheme("ftp:x"));
}

#[test]
fn keeps_fragment_suffix() {
    let files = strings(&["docs/guide/intro.md"]);
    let index_dirs: Vec<String> = Vec::new();
    let (out, warning) =
        rewrite_link_dest("intro.md#section", "docs/guide/extra.md", &files, &index_dirs);
    assert_eq!(out, "intro.html#section");
    assert!(warning.is_none());
}

#[test]
fn index_link_stays_index_and_sibling_readme_collapses() {
    // The directory has its own index file: a README link keeps its name.
    let files = strings(&["docs/guide/index.md", "docs/guide/extra.md", "docs/guide/README.md"]);
    let index_dirs = strings(&["docs/guide"]);
    let (out, _) = rewrite_link_dest("index.md", "docs/guide/extra.md", &files, &index_dirs);
    assert_eq!(out, "index.html");
    let (out2, _) = rewrite_link_dest("README.md", "docs/guide/extra.md", &files, &index_dirs);
    assert_eq!(out2, "README.html");
}

#[test]
fn root_readme_link_follows_index_rule() {
    // A link to the root README from docs/guide/extra.md: it becomes the
    // root's index.html when the root has no index file, and stays
    // README.html when it has one.
    let files = strings(&["README.md", "docs/guide/index.md", "docs/guide/extra.md"]);
    let no_root_index = strings(&["docs/guide"]);
    let (out, warning) =
        rewrite_link_dest("../../README.md", "docs/guide/extra.md", &files, &no_root_index);
    assert_eq!(out, "../../index.html");
    assert!(warning.is_none());
    let with_root_index = strings(&["docs/guide", ""]);
    let (out2, _) =
        rewrite_link_dest("../../README.md", "docs/guide/extra.md", &files, &with_root_index);
    assert_eq!(out2, "../../README.html");
}

#[test]
fn rewriting_is_idempotent_on_its_own_output() {
    let files = strings(&["docs/guide/intro.md"]);
    let index_dirs: Vec<String> = Vec::new();
    let (once, _) = rewrite_link_dest("guide/intro.md#a", "docs/index.md", &files, &index_dirs);
    assert_eq!(once, "guide/intro.html#a");
    let (twice, _) = rewrite_link_dest(&once, "docs/index.md", &files, &index_dirs);
    assert_eq!(twice, once);
    // A non-markup destination passes through unchanged.
    let (asset, warning) = rewrite_link_dest("img/logo.png", "docs/index.md", &files, &index_dirs);
    assert_eq!(asset, "img/logo.png");
    assert!(warning.is_none());
}

#[test]
fn splits_destination_at_first_break() {
    assert_eq!(split_link(""), None);
    let (base, suffix) = split_link("a/b.md?q=1#x").expect("split");
    assert_eq!(base, "a/b.md");
    assert_eq!(suffix, "?q=1#x");
    let (base2, suffix2) = split_link("plain.md").expect("split");
    assert_eq!(base2, "plain.md");
    assert_eq!(suffix2, "");
}

#[test]
fn absolute_links_resolve_against_root() {
    let files = strings(&["docs/guide/intro.md"]);
    let index_dirs: Vec<String> = Vec::new();
    let (out, warning) =
        rewrite_link_dest("/docs/guide/intro.md", "other/page.md", &files, &index_dirs);
    assert_eq!(out, "/docs/guide/intro.html");
    assert!(warning.is_none());
}

#[test]
fn dot_segments_normalize_when_resolving() {
    let files = strings(&["docs/intro.md"]);
    let index_dirs: Vec<String> = Vec::new();
    let (out, warning) =
        rewrite_link_dest("./sub/../intro.md", "docs/index.md", &files, &index_dirs);
    assert_eq!(out, "./sub/../intro.html");
    assert!(warning.is_none());
}
