use coder::config::{parse, seed, to_toml, Config};

#[test]
fn default_has_no_languages() {
    assert!(Config::default().languages.is_empty());
}

#[test]
fn seed_includes_rust_and_ruff_python() {
    let cfg = seed();
    assert!(cfg.has_language("rust"));
    assert_eq!(cfg.language("python").unwrap().lsp, "ruff server");
    assert_eq!(cfg.language("python").unwrap().formatter, "ruff format -");
}

#[test]
fn parses_top_level_language_sections() {
    let cfg = parse(
        r#"
            theme = "my-theme"
            format_on_save = true

            [python]
            extensions = ["py"]
            lsp = "pyright-langserver --stdio"
            formatter = "ruff"
        "#,
    );
    assert_eq!(cfg.theme, "my-theme");
    assert!(cfg.format_on_save);
    assert_eq!(cfg.language("python").unwrap().formatter, "ruff");
    assert_eq!(cfg.language("python").unwrap().lsp, "pyright-langserver --stdio");
    // A file that declares its own languages replaces the defaults.
    assert!(!cfg.has_language("rust"));
}

#[test]
fn a_file_with_no_language_sections_stays_empty() {
    let cfg = parse("theme = \"x\"\n");
    assert!(cfg.languages.is_empty());
}

#[test]
fn round_trips_through_toml() {
    let cfg = seed();
    let restored = parse(&to_toml(&cfg));
    assert_eq!(restored.theme, cfg.theme);
    assert_eq!(
        restored.language("rust").unwrap().lsp,
        cfg.language("rust").unwrap().lsp
    );
    assert_eq!(
        restored.language("python").unwrap().extensions,
        cfg.language("python").unwrap().extensions
    );
}

#[test]
fn ascii_icons_round_trips_through_toml() {
    let mut cfg = seed();
    cfg.ascii_icons = true;
    let restored = parse(&to_toml(&cfg));
    assert!(restored.ascii_icons);
}

#[test]
fn ascii_icons_parses_from_toml() {
    let cfg = parse("ascii_icons = true\n");
    assert!(cfg.ascii_icons);
}

#[test]
fn default_settings_are_the_documented_ones() {
    let cfg = Config::default();
    assert_eq!(cfg.theme, "base16-ocean.dark");
    assert!(!cfg.format_on_save);
    assert!(!cfg.format_on_paste);
    assert!(cfg.trim_trailing_whitespace);
    assert!(cfg.insert_final_newline);
    assert!(cfg.inline_diagnostics);
    assert!(!cfg.ascii_icons);
}

#[test]
fn unparseable_text_yields_defaults() {
    let cfg = parse("theme = \"x\n[rust\n");
    assert_eq!(cfg.theme, "base16-ocean.dark");
    assert!(cfg.languages.is_empty());
    assert!(cfg.trim_trailing_whitespace);
}

#[test]
fn a_section_with_a_mistyped_field_is_not_a_language() {
    let cfg = parse("[weird]\nextensions = 5\n[ok]\nlsp = \"x\"\n");
    assert!(!cfg.has_language("weird"));
    assert_eq!(cfg.language("ok").unwrap().lsp, "x");
    assert!(cfg.language("ok").unwrap().extensions.is_empty());
}

#[test]
fn settings_of_the_wrong_type_keep_their_defaults() {
    let cfg = parse("format_on_save = \"yes\"\ntheme = 3\n");
    assert!(!cfg.format_on_save);
    assert_eq!(cfg.theme, "base16-ocean.dark");
}

#[test]
fn seed_has_exactly_the_starter_languages() {
    let cfg = seed();
    assert_eq!(cfg.languages.len(), 2);
    assert_eq!(cfg.language("rust").unwrap().formatter, "rustfmt --edition 2021");
    assert_eq!(cfg.language("python").unwrap().extensions, vec!["py".to_string(), "pyi".to_string()]);
    assert_eq!(cfg.language("rust").unwrap().linter, "");
}
