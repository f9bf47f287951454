use rendar::template::{missing_placeholders, Template};

#[test]
fn detects_missing_placeholders() {
    let template = "<html>{{title}}</html>";
    let missing = missing_placeholders(template);
    assert!(missing.contains(&"{{content}}"));
    assert!(missing.contains(&"{{nav}}"));
    assert!(missing.contains(&"{{breadcrumbs}}"));
}

#[test]
fn complete_template_misses_nothing() {
    let template = "{{title}} {{content}} {{nav}} {{breadcrumbs}}";
    assert!(missing_placeholders(template).is_empty());
}

#[test]
fn render_replaces_every_placeholder() {
    let template = Template {
        raw: "<t>{{title}}</t><c>{{content}}</c><n>{{nav}}</n><b>{{breadcrumbs}}</b><s>{{style}}</s><h>{{extra_head}}</h><x>{{extra_body}}</x>".to_string(),
        style: "css".to_string(),
    };
    let html = template.render("T", "C", "N", "B", Some("H"), Some("X"));
    assert_eq!(html, "<t>T</t><c>C</c><n>N</n><b>B</b><s>css</s><h>H</h><x>X</x>");
    let bare = template.render("T", "C", "N", "B", None, None);
    assert_eq!(bare, "<t>T</t><c>C</c><n>N</n><b>B</b><s>css</s><h></h><x></x>");
}

#[test]
fn render_replaces_repeated_placeholders() {
    let template = Template { raw: "{{title}}-{{title}}".to_string(), style: String::new() };
    assert_eq!(template.render("A", "", "", "", None, None), "A-A");
}

#[test]
fn built_in_template_has_required_placeholders() {
    let template = Template::built_in();
    assert!(missing_placeholders(&template.raw).is_empty());
    assert!(template.raw.contains("<!doctype html>"));
    assert!(template.raw.contains("class=\"sidebar\""));
    assert!(template.raw.contains("class=\"breadcrumbs\""));
}

#[test]
fn slides_fragments_carry_script_and_style() {
    let head = rendar::slides::slides_extra_head();
    assert!(head.contains("slides-mode"));
    assert!(head.contains("<style>"));
    assert!(head.contains(".slide.is-active"));
    let body = rendar::slides::slides_extra_body();
    assert!(body.contains("__rendarSlides"));
    assert!(body.contains("hashchange"));
}
