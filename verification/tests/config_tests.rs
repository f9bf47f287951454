use rendar::config::{
    resolve_input, resolve_path, resolve_preview_open, resolve_preview_port, resolve_template,
    Config, PreviewConfig,
};

#[test]
fn resolves_input_with_cli_override() {
    let config = Config {
        input: Some("config-input".to_string()),
        template: None,
        exclude: None,
        preview: None,
    };
    let resolved = resolve_input(Some("cli-input".to_string()), Some(&config));
    assert_eq!(resolved, "cli-input");
}

#[test]
fn resolves_template_with_config_fallback() {
    let config = Config {
        input: None,
        template: Some("config-template.html".to_string()),
        exclude: None,
        preview: None,
    };
    let resolved = resolve_template(None, Some(&config));
    assert_eq!(resolved, Some("config-template.html".to_string()));
}

#[test]
fn resolves_preview_port_with_cli_override() {
    let config = Config {
        input: None,
        template: None,
        exclude: None,
        preview: Some(PreviewConfig { port: Some(4000), open: None }),
    };
    let resolved = resolve_preview_port(Some(5000), Some(&config));
    assert_eq!(resolved, 5000);
}

#[test]
fn resolves_preview_open_with_config_fallback() {
    let config = Config {
        input: None,
        template: None,
        exclude: None,
        preview: Some(PreviewConfig { port: None, open: Some(true) }),
    };
    let resolved = resolve_preview_open(false, Some(&config));
    assert!(resolved);
}

#[test]
fn resolves_preview_port_default_when_unset() {
    let config = Config { input: None, template: None, exclude: None, preview: None };
    let resolved = resolve_preview_port(None, Some(&config));
    assert_eq!(resolved, 3000);
}

#[test]
fn anchors_relative_config_paths() {
    assert_eq!(resolve_path("/base", "docs"), "/base/docs");
    assert_eq!(resolve_path("/base/", "docs"), "/base/docs");
    assert_eq!(resolve_path("/base", "/abs/docs"), "/abs/docs");
    assert_eq!(resolve_path("", "docs"), "docs");
    let mut config = Config {
        input: Some("docs".to_string()),
        template: Some("theme.html".to_string()),
        exclude: None,
        preview: None,
    };
    config.resolve_paths("/tmp/site");
    assert_eq!(config.input, Some("/tmp/site/docs".to_string()));
    assert_eq!(config.template, Some("/tmp/site/theme.html".to_string()));
}
