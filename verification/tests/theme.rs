use lst::theme::{is_valid_color, Theme, ThemeDirListing, ThemeError, ThemeFile, ThemeLoader, ThemeOverrides, ThemeSystem};

#[test]
fn test_color_validation() {
    assert!(is_valid_color("#ff0000"));
    assert!(is_valid_color("#FF0000"));
    assert!(is_valid_color("#f00"));
    assert!(!is_valid_color("ff0000"));
    assert!(!is_valid_color("#gg0000"));
    assert!(!is_valid_color("#ff00"));
}

#[test]
fn test_theme_loader() {
    let loader = ThemeLoader::new();
    let themes = loader.list_themes(&Vec::new());
    assert!(themes.contains(&"base16-default-dark".to_string()));
    assert!(themes.contains(&"base16-default-light".to_string()));
    assert!(themes.contains(&"base16-catppuccin-mocha".to_string()));
    assert!(themes.contains(&"base16-nord".to_string()));
    assert!(themes.contains(&"base16-tokyo-night-dark".to_string()));
    assert!(themes.contains(&"base16-everforest".to_string()));
}

#[test]
fn test_load_built_in_theme() {
    let loader = ThemeLoader::new();
    let theme = loader.load_theme("base16-catppuccin-mocha", &Vec::new(), Vec::new()).unwrap();
    assert_eq!(theme.scheme, "base16-catppuccin-mocha");
    assert_eq!(theme.system, ThemeSystem::Base16);
    assert!(theme.palette.base00.is_some());
}

#[test]
fn test_css_generation() {
    let loader = ThemeLoader::new();
    let theme = loader.load_theme("base16-catppuccin-mocha", &Vec::new(), Vec::new()).unwrap();
    let css = theme.generate_css_variables();

    assert!(css.contains("--color-base00: #1e1e2e"));
    assert!(css.contains("--color-base05: #cdd6f4"));

    assert!(css.contains("--color-background: var(--color-base00)"));
    assert!(css.contains("--color-foreground: var(--color-base05)"));

    assert!(css.contains("--background: var(--color-base00)"));
    assert!(css.contains("--foreground: var(--color-base05)"));
}

#[test]
fn test_color_resolution() {
    let loader = ThemeLoader::new();
    let theme = loader.load_theme("base16-catppuccin-mocha", &Vec::new(), Vec::new()).unwrap();

    assert_eq!(theme.resolve_base_color("base00"), Some("#1e1e2e".to_string()));
    assert_eq!(theme.resolve_base_color("base05"), Some("#cdd6f4".to_string()));

    assert_eq!(theme.resolve_semantic_color("background"), Some("#1e1e2e".to_string()));
    assert_eq!(theme.resolve_semantic_color("foreground"), Some("#cdd6f4".to_string()));
}

#[test]
fn css_theme_wraps_variables_in_root_block() {
    let theme = Theme::default();
    let block = theme.generate_css_theme();
    assert!(block.starts_with(":root {\n  /* Base16/Base24 Palette Colors */\n"));
    assert!(block.ends_with("  --ring: var(--color-base0D);\n}\n"));
    // An empty palette produces no palette lines.
    assert!(!block.contains("--color-base00:"));
}

#[test]
fn unknown_names_resolve_to_nothing() {
    let loader = ThemeLoader::new();
    let theme = loader.load_theme("base16-nord", &Vec::new(), Vec::new()).unwrap();
    assert_eq!(theme.resolve_base_color("base18"), None);
    assert_eq!(theme.resolve_semantic_color("shadow"), None);
    assert_eq!(theme.resolve_semantic_color("primary"), Some("#81A1C1".to_string()));
}

#[test]
fn missing_theme_is_not_found() {
    let loader = ThemeLoader::new();
    assert!(matches!(loader.load_theme("base16-unknown", &Vec::new(), Vec::new()), Err(lst::theme::ThemeError::NotFound(n)) if n == "base16-unknown"));
}

#[test]
fn alias_matches_catppuccin() {
    let loader = ThemeLoader::new();
    let a = loader.load_theme("catppuccin-mocha", &Vec::new(), Vec::new()).unwrap();
    assert_eq!(a.scheme, "base16-catppuccin-mocha");
    assert_eq!(a.palette.base0f, Some("#f2cdcd".to_string()));
}

#[test]
fn validation_reports_first_problem() {
    let loader = ThemeLoader::new();
    let mut theme = loader.load_theme("base16-nord", &Vec::new(), Vec::new()).unwrap();
    assert!(loader.validate_theme(&theme).is_ok());
    theme.palette.base03 = Some("blue".to_string());
    theme.palette.base07 = None;
    match loader.validate_theme(&theme) {
        Err(lst::theme::ThemeError::InvalidColor(n, v)) => {
            assert_eq!(n, "base03");
            assert_eq!(v, "blue");
        }
        other => panic!("unexpected {:?}", other),
    }
    theme.palette.base03 = Some("#abc".to_string());
    match loader.validate_theme(&theme) {
        Err(lst::theme::ThemeError::MissingColor(n)) => assert_eq!(n, "base07"),
        other => panic!("unexpected {:?}", other),
    }
}

#[test]
fn merge_prefers_child_colors() {
    let loader = ThemeLoader::new();
    let parent = loader.load_theme("base16-nord", &Vec::new(), Vec::new()).unwrap();
    let mut child = Theme::default();
    child.palette.base08 = Some("#123456".to_string());
    child.scheme = "my-nord".to_string();
    let merged = loader.merge_themes(parent, child).unwrap();
    assert_eq!(merged.palette.base08, Some("#123456".to_string()));
    assert_eq!(merged.palette.base00, Some("#2E3440".to_string()));
    assert_eq!(merged.scheme, "my-nord");
    assert_eq!(merged.name, Some("Default Dark".to_string()));
}

#[test]
fn overrides_apply_in_order() {
    let loader = ThemeLoader::new();
    let theme = loader.load_theme("base16-nord", &Vec::new(), Vec::new()).unwrap();
    let overrides = ThemeOverrides {
        palette: vec![
            ("base00".to_string(), "#000000".to_string()),
            ("base10".to_string(), "#111111".to_string()),
            ("base00".to_string(), "#010101".to_string()),
        ],
        semantic: Some(vec![("primary".to_string(), "base08".to_string())]),
    };
    let t = loader.apply_overrides(theme, &overrides).unwrap();
    assert_eq!(t.palette.base00, Some("#010101".to_string()));
    assert_eq!(t.palette.base10, None);
    assert_eq!(t.semantic.primary, "base08");
    assert_eq!(t.resolve_semantic_color("primary"), Some("#BF616A".to_string()));
}

#[test]
fn parse_theme_names() {
    let loader = ThemeLoader::new();
    assert_eq!(loader.parse_theme_name("base16-ocean"), Some(("base16".to_string(), "ocean".to_string())));
    assert_eq!(loader.parse_theme_name("base24-x"), Some(("base24".to_string(), "x".to_string())));
    assert_eq!(loader.parse_theme_name("ocean"), None);
}

#[test]
fn configured_dir_is_the_only_dir() {
    let mut loader = ThemeLoader::with_config(Some("/tmp/themes".to_string()));
    assert_eq!(loader.theme_dirs(), &vec!["/tmp/themes".to_string()]);
    loader.add_theme_dir("/etc/themes");
    assert_eq!(loader.theme_dirs().len(), 2);
    assert_eq!(lst::theme::default_theme_dirs(Some("/home/u".to_string()), None), vec!["/home/u/.config/themes".to_string()]);
}

#[test]
fn theme_info_uses_theme_name() {
    let loader = ThemeLoader::new();
    let info = loader.get_theme_info("base16-everforest", &Vec::new(), Vec::new()).unwrap();
    assert_eq!(info.name, "Everforest");
    assert_eq!(info.scheme, "base16-everforest");
}

#[test]
fn every_built_in_theme_validates() {
    let loader = ThemeLoader::new();
    for name in [
        "base16-default-dark",
        "base16-default-light",
        "base16-catppuccin-mocha",
        "base16-nord",
        "base16-tokyo-night-dark",
        "base16-everforest",
        "catppuccin-mocha",
    ] {
        let theme = loader.load_theme(name, &Vec::new(), Vec::new()).unwrap();
        assert!(loader.validate_theme(&theme).is_ok(), "{}", name);
    }
}

fn listing(entries: &[&str], base16: &[&str], base24: &[&str]) -> ThemeDirListing {
    let v = |xs: &[&str]| xs.iter().map(|s| s.to_string()).collect::<Vec<_>>();
    ThemeDirListing { entries: v(entries), base16: v(base16), base24: v(base24) }
}

fn file(path: &str, theme: Option<Theme>) -> ThemeFile {
    ThemeFile { path: path.to_string(), theme }
}

#[test]
fn file_themes_load_with_inheritance() {
    let loader = ThemeLoader::with_config(Some("/themes".to_string()));
    let mut child = Theme::default();
    child.scheme = "zen".to_string();
    child.inherits = Some("base16-nord".to_string());
    child.palette.base08 = Some("#123456".to_string());
    let ls = vec![listing(&["zen.toml"], &[], &[])];
    let theme = loader.load_theme("zen", &ls, vec![file("/themes/zen.toml", Some(child))]).unwrap();
    assert_eq!(theme.scheme, "zen");
    assert_eq!(theme.palette.base08.as_deref(), Some("#123456"));
    assert_eq!(theme.palette.base00.as_deref(), Some("#2E3440"));
}

#[test]
fn yaml_themes_take_the_name_they_are_loaded_by() {
    let loader = ThemeLoader::with_config(Some("/themes".to_string()));
    let nord = loader.load_theme("base16-nord", &Vec::new(), Vec::new()).unwrap();
    let ls = vec![listing(&[], &["ocean.yaml"], &["dracula.yml"])];
    let ocean = loader
        .load_theme("base16-ocean", &ls, vec![file("/themes/base16/ocean.yaml", Some(nord.clone()))])
        .unwrap();
    assert_eq!(ocean.scheme, "base16-ocean");
    let dracula = loader
        .load_theme("base24-dracula", &ls, vec![file("/themes/base24/dracula.yml", Some(nord))])
        .unwrap();
    assert_eq!(dracula.scheme, "base24-dracula");
}

#[test]
fn file_theme_failures() {
    let loader = ThemeLoader::with_config(Some("/themes".to_string()));
    let ls = vec![listing(&["zen.toml", "a.toml", "b.toml", "bare.toml"], &[], &[])];
    assert!(matches!(loader.load_theme("zen", &ls, Vec::new()), Err(ThemeError::Unreadable(p)) if p == "/themes/zen.toml"));
    assert!(matches!(loader.load_theme("zen", &ls, vec![file("/themes/zen.toml", None)]), Err(ThemeError::Unreadable(_))));
    assert!(matches!(loader.load_theme("other", &ls, Vec::new()), Err(ThemeError::NotFound(n)) if n == "other"));
    let mut a = Theme::default();
    a.inherits = Some("b".to_string());
    let mut b = Theme::default();
    b.inherits = Some("a".to_string());
    let files = vec![file("/themes/a.toml", Some(a)), file("/themes/b.toml", Some(b))];
    assert!(matches!(loader.load_theme("a", &ls, files), Err(ThemeError::Unreadable(p)) if p == "/themes/a.toml"));
    let bare = vec![file("/themes/bare.toml", Some(Theme::default()))];
    assert!(matches!(loader.load_theme("bare", &ls, bare), Err(ThemeError::MissingColor(n)) if n == "base00"));
}

#[test]
fn theme_information_agrees_with_loading() {
    let loader = ThemeLoader::with_config(Some("/themes".to_string()));
    let nord = loader.load_theme("base16-nord", &Vec::new(), Vec::new()).unwrap();
    let ls = vec![listing(&["bare.toml"], &["ocean.yaml"], &[])];
    let files = || {
        vec![
            file("/themes/base16/ocean.yaml", Some(nord.clone())),
            file("/themes/bare.toml", Some(Theme::default())),
        ]
    };
    let ocean = loader.load_theme("base16-ocean", &ls, files()).unwrap();
    let info = loader.get_theme_info("base16-ocean", &ls, files()).unwrap();
    assert_eq!(info.scheme, ocean.scheme);
    assert_eq!(info.name, ocean.name.clone().unwrap_or_else(|| "base16-ocean".to_string()));
    assert_eq!(info.author, ocean.author);
    assert!(matches!(loader.get_theme_info("bare", &ls, files()), Err(ThemeError::MissingColor(n)) if n == "base00"));
    assert!(matches!(loader.get_theme_info("none", &ls, files()), Err(ThemeError::NotFound(n)) if n == "none"));
}

#[test]
fn every_role_resolves_through_its_own_mapping() {
    let loader = ThemeLoader::new();
    let t = loader.load_theme("base16-nord", &Vec::new(), Vec::new()).unwrap();
    let s = t.semantic.clone();
    let roles = [
        ("background", &s.background),
        ("foreground", &s.foreground),
        ("primary", &s.primary),
        ("secondary", &s.secondary),
        ("accent", &s.accent),
        ("muted", &s.muted),
        ("border", &s.border),
        ("success", &s.success),
        ("warning", &s.warning),
        ("error", &s.error),
        ("info", &s.info),
    ];
    for (role, target) in roles {
        assert_eq!(t.resolve_semantic_color(role), t.resolve_base_color(target));
    }
    assert_eq!(t.resolve_base_color("base0a"), None);
}
