use rendar::nav::{build_breadcrumbs_html, build_nav_html, relative_link};
use rendar::pipeline::{render_page, RenderOptions};
use rendar::sitemap::{build_site_map, find_page, output_rel_path, SiteMap, SourceFile};
use rendar::template::Template;
use rendar::text::html_escape;

fn source(rel: &str, contents: &str) -> SourceFile {
    SourceFile { rel_path: rel.to_string(), contents: contents.to_string() }
}

fn current<'a>(map: &'a SiteMap, rel: &str) -> &'a rendar::sitemap::PageEntry {
    let ix = find_page(map, rel).expect("current page");
    &map.pages[ix]
}

#[test]
fn builds_nav_and_breadcrumbs() {
    let files = vec![
        source("README.md", "# Root"),
        source("docs/README.md", "# Docs"),
        source("docs/intro.md", "# Intro"),
        source("docs/guide/index.md", "# Guide"),
        source("docs/guide/extra.md", "# Extra"),
        source("docs/guide/sub/README.md", "# Subsection"),
    ];
    let site_map = build_site_map(&files);
    let page = current(&site_map, "docs/guide/extra.md");

    let nav = build_nav_html(page, &site_map);
    assert!(nav.contains("Pages"));
    assert!(nav.contains("Guide"));
    assert!(!nav.contains("intro.html"));
    assert!(nav.contains("Subsection"));

    let breadcrumbs = build_breadcrumbs_html(page, &site_map);
    assert!(breadcrumbs.contains("Home"));
    assert!(breadcrumbs.contains("Docs"));
    assert!(breadcrumbs.contains("Guide"));
    assert!(breadcrumbs.contains("Extra"));
}

#[test]
fn excludes_current_folder_from_nav_folders() {
    let files = vec![
        source("docs/guide/index.md", "# Guide"),
        source("docs/guide/page.md", "# Page"),
        source("docs/guide/sub/README.md", "# Subsection"),
    ];
    let site_map = build_site_map(&files);
    let page = current(&site_map, "docs/guide/page.md");

    let nav = build_nav_html(page, &site_map);
    assert!(nav.contains("Subsection"));
    assert_eq!(nav.matches("Guide</a>").count(), 1);
}

#[test]
fn sorts_pages_and_folders_by_title() {
    let files = vec![
        source("docs/README.md", "# Docs"),
        source("docs/zeta.md", "# Zeta"),
        source("docs/alpha.md", "# Alpha"),
        source("docs/alpha-folder/README.md", "# Alpha Folder"),
        source("docs/zeta-folder/README.md", "# Zeta Folder"),
    ];
    let site_map = build_site_map(&files);
    let page = current(&site_map, "docs/README.md");

    let nav = build_nav_html(page, &site_map);
    let alpha_index = nav.find("Alpha</a>").expect("alpha page");
    let zeta_index = nav.find("Zeta</a>").expect("zeta page");
    assert!(alpha_index < zeta_index);

    let alpha_folder = nav.find("Alpha Folder</a>").expect("alpha folder");
    let zeta_folder = nav.find("Zeta Folder</a>").expect("zeta folder");
    assert!(alpha_folder < zeta_folder);
}

#[test]
fn plain_page_output_path_swaps_extension() {
    let index_dirs: Vec<String> = Vec::new();
    assert_eq!(
        output_rel_path("docs/page.md", &index_dirs),
        Some("docs/page.html".to_string())
    );
    assert_eq!(output_rel_path("assets/logo.txt", &index_dirs), None);
}

#[test]
fn readme_output_follows_index_rule() {
    let no_index: Vec<String> = Vec::new();
    assert_eq!(
        output_rel_path("docs/README.md", &no_index),
        Some("docs/index.html".to_string())
    );
    let with_index = vec!["docs".to_string()];
    assert_eq!(
        output_rel_path("docs/README.md", &with_index),
        Some("docs/README.html".to_string())
    );
}

#[test]
fn readme_page_is_duplicated_as_index_only_without_sibling() {
    let template = Template::built_in();
    let options = RenderOptions { live_reload: false, template: &template };
    // No index sibling: the README is also written as the directory's index.
    let files = vec![source("docs/README.md", "# Docs")];
    let map = build_site_map(&files);
    let known = vec!["docs/README.md".to_string()];
    let out = render_page(&map, &known, "docs/README.md", "# Docs", &options).expect("page");
    assert_eq!(out.output_rel, "docs/README.html");
    assert_eq!(out.index_copy, Some("docs/index.html".to_string()));
    // With an index sibling only the README's own output is produced.
    let files2 = vec![source("docs/README.md", "# Docs"), source("docs/index.md", "# Home")];
    let map2 = build_site_map(&files2);
    let known2 = vec!["docs/README.md".to_string(), "docs/index.md".to_string()];
    let out2 = render_page(&map2, &known2, "docs/README.md", "# Docs", &options).expect("page");
    assert_eq!(out2.output_rel, "docs/README.html");
    assert_eq!(out2.index_copy, None);
}

#[test]
fn renders_linked_tree_without_warnings() {
    // Input tree a/index.md and a/b.md, where b links to the index.
    let template = Template::built_in();
    let options = RenderOptions { live_reload: false, template: &template };
    let files = vec![
        source("a/index.md", "# A"),
        source("a/b.md", "# B linking to [A](index.md)"),
    ];
    let map = build_site_map(&files);
    let known = vec!["a/index.md".to_string(), "a/b.md".to_string()];

    let index_out = render_page(&map, &known, "a/index.md", "# A", &options).expect("index page");
    assert_eq!(index_out.output_rel, "a/index.html");
    assert!(index_out.warnings.is_empty());

    let b_out = render_page(&map, &known, "a/b.md", "# B linking to [A](index.md)", &options)
        .expect("b page");
    assert_eq!(b_out.output_rel, "a/b.html");
    assert!(b_out.warnings.is_empty());
    assert!(b_out.html.contains("index.html"));
    assert!(b_out.html.contains("<!doctype html>"));
}

#[test]
fn titles_fall_back_to_humanized_stems() {
    let files = vec![source("docs/my-first_page.md", "no heading here")];
    let map = build_site_map(&files);
    let page = current(&map, "docs/my-first_page.md");
    assert_eq!(page.title, "my first page");
    assert!(!page.is_index);
    assert!(!page.is_readme);
}

#[test]
fn heading_titles_come_from_the_document() {
    let files = vec![source("docs/x.md", "intro text\n\n# The Title\nbody")];
    let map = build_site_map(&files);
    let page = current(&map, "docs/x.md");
    assert_eq!(page.title, "The Title");
}

#[test]
fn relative_links_walk_up_and_down() {
    assert_eq!(relative_link("docs/guide", "docs/guide/index.html"), "index.html");
    assert_eq!(relative_link("docs/guide", "docs/intro.html"), "../intro.html");
    assert_eq!(relative_link("", "index.html"), "index.html");
    assert_eq!(relative_link("a/b", "a/b"), ".");
    assert_eq!(relative_link("a/b", "c/d.html"), "../../c/d.html");
}

#[test]
fn escapes_html_metacharacters() {
    assert_eq!(html_escape("a<b&c>\"d'"), "a&lt;b&amp;c&gt;&quot;d&#39;");
}

#[test]
fn check_pages_counts_missing_links() {
    let files = vec![
        source("docs/index.md", "[Missing](missing.md) and [There](there.md)"),
        source("docs/there.md", "# There"),
        source("notes.txt", "not markdown"),
    ];
    let known = vec!["docs/index.md".to_string(), "docs/there.md".to_string()];
    let index_dirs: Vec<String> = Vec::new();
    let warnings = rendar::pipeline::check_pages(&files, &known, &index_dirs);
    assert_eq!(warnings.len(), 1);
    assert!(warnings[0].contains("missing.md"));
}
