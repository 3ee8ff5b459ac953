use unicleaner::config::presets::{get_all_presets, get_preset, list_preset_names};
use unicleaner::config::rules::{find_matching_rule, sort_rules_by_priority, FileRule};
use unicleaner::config::validation::validate_config;
use unicleaner::config::Configuration;
use unicleaner::unicode::ranges::UnicodeRange;

#[test]
fn test_merge_default_with_user_config() {
    let mut default_config = Configuration::default();
    let user_config = Configuration { deny_by_default: false, ..Default::default() };
    default_config.merge(user_config);
    assert!(!default_config.deny_by_default);
}

#[test]
fn test_merge_preserves_user_rules() {
    let mut config1 = Configuration::default();
    let mut config2 = Configuration::default();
    let rule = FileRule::new("*.rs").expect("Valid pattern");
    config2.file_rules.push(rule);
    config1.merge(config2);
    assert_eq!(config1.file_rules.len(), 1);
}

#[test]
fn test_merge_combines_presets() {
    let mut config1 = Configuration::default();
    let mut config2 = Configuration::default();
    config1.language_presets.insert("rs".to_string(), "rust".to_string());
    config2.language_presets.insert("py".to_string(), "python".to_string());
    config1.merge(config2);
    assert_eq!(config1.language_presets.len(), 2);
    assert!(config1.language_presets.contains_key("rs"));
    assert!(config1.language_presets.contains_key("py"));
}

#[test]
fn test_merge_handles_empty_user_config() {
    let mut default_config = Configuration::default();
    let initial_deny = default_config.deny_by_default;
    let empty_config = Configuration::default();
    default_config.merge(empty_config);
    assert_eq!(default_config.deny_by_default, initial_deny);
}

#[test]
fn merge_overrides_presets_and_sorts_rules() {
    let mut a = Configuration::default();
    a.language_presets.insert("rs".to_string(), "rust".to_string());
    a.file_rules.push(FileRule::new("**/*.rs").unwrap());
    let mut b = Configuration::default();
    b.language_presets.insert("rs".to_string(), "c".to_string());
    b.file_rules.push(FileRule::new("src/lib.rs").unwrap());
    a.merge(b);
    assert_eq!(a.language_presets.get("rs").unwrap(), "c");
    assert_eq!(a.language_presets.len(), 1);
    assert_eq!(a.file_rules[0].pattern, "src/lib.rs");
}

#[test]
fn test_is_code_point_allowed_deny_by_default() {
    let config = Configuration::default();
    assert!(config.is_code_point_allowed("test.txt", 0x0041));
    assert!(!config.is_code_point_allowed("test.txt", 0x007F));
    assert!(!config.is_code_point_allowed("test.txt", 0x0080));
    assert!(!config.is_code_point_allowed("test.txt", 0x200B));
}

#[test]
fn test_is_code_point_allowed_allow_by_default() {
    let config = Configuration { deny_by_default: false, ..Default::default() };
    assert!(config.is_code_point_allowed("test.txt", 0x0041));
    assert!(config.is_code_point_allowed("test.txt", 0x0080));
    assert!(config.is_code_point_allowed("test.txt", 0x200B));
}

#[test]
fn test_get_allowed_ranges_no_match() {
    let config = Configuration::default();
    assert!(config.get_allowed_ranges("test.txt").is_none());
}

#[test]
fn test_get_allowed_ranges_with_preset() {
    let mut config = Configuration::default();
    config.language_presets.insert("rs".to_string(), "rust".to_string());
    assert!(config.get_allowed_ranges("test.rs").is_some());
}

#[test]
fn test_allow_by_default_with_denied_code_points() {
    let mut config = Configuration { deny_by_default: false, ..Default::default() };
    let mut rule = FileRule::new("*.rs").expect("valid pattern");
    rule.denied_code_points.push(0x0041);
    config.file_rules.push(rule);
    assert!(!config.is_code_point_allowed("test.rs", 0x0041));
    assert!(config.is_code_point_allowed("test.rs", 0x0042));
}

#[test]
fn test_get_allowed_ranges_rule_with_empty_ranges() {
    let mut config = Configuration::default();
    let rule = FileRule::new("*.rs").expect("valid pattern");
    config.file_rules.push(rule);
    config.language_presets.insert("rs".to_string(), "rust".to_string());
    assert!(config.get_allowed_ranges("test.rs").is_some());
}

#[test]
fn test_get_allowed_ranges_invalid_preset() {
    let mut config = Configuration::default();
    config.language_presets.insert("rs".to_string(), "nonexistent_preset".to_string());
    assert!(config.get_allowed_ranges("test.rs").is_none());
}

#[test]
fn test_deny_by_default_with_rule_allowlist() {
    let mut config = Configuration::default();
    let mut rule = FileRule::new("*.rs").expect("valid pattern");
    rule.allowed_ranges.push(UnicodeRange::new(0x0000, 0x00FF));
    config.file_rules.push(rule);
    assert!(config.is_code_point_allowed("test.rs", 0x00E9));
    assert!(!config.is_code_point_allowed("test.rs", 0x0100));
}

#[test]
fn test_deny_by_default_rule_with_denied_code_points() {
    let mut config = Configuration::default();
    let mut rule = FileRule::new("*.rs").expect("valid pattern");
    rule.denied_code_points.push(0x0041);
    rule.allowed_ranges.push(UnicodeRange::new(0x0000, 0x007F));
    config.file_rules.push(rule);
    assert!(!config.is_code_point_allowed("test.rs", 0x0041));
    assert!(config.is_code_point_allowed("test.rs", 0x0042));
}

#[test]
fn test_rust_preset_exists() {
    let preset = get_preset("rust");
    assert!(preset.is_some());
    assert_eq!(preset.unwrap().name, "rust");
}

#[test]
fn test_javascript_preset_exists() {
    assert!(get_preset("javascript").is_some());
}

#[test]
fn test_python_preset_exists() {
    assert!(get_preset("python").is_some());
}

#[test]
fn test_preset_contains_basic_latin() {
    let preset = get_preset("rust").unwrap();
    assert!(preset.allowed_ranges.iter().any(|r| r.start == 0x0020 && r.end == 0x007E));
}

#[test]
fn test_preset_has_description() {
    let preset = get_preset("rust").unwrap();
    assert!(!preset.description.is_empty());
    assert!(preset.allowed_ranges.iter().all(|r| r.description.is_some()));
}

#[test]
fn test_list_all_presets() {
    let names = list_preset_names();
    assert!(!names.is_empty());
    assert!(names.contains(&"rust".to_string()));
    assert!(names.contains(&"javascript".to_string()));
    assert!(names.contains(&"python".to_string()));
    let mut sorted = names.clone();
    sorted.sort();
    assert_eq!(names, sorted);
}

#[test]
fn test_get_preset_by_name() {
    let preset = get_preset("rust");
    assert!(preset.is_some());
    assert_eq!(preset.unwrap().name, "rust");
}

#[test]
fn test_unknown_preset_returns_none() {
    assert!(get_preset("nonexistent-language").is_none());
}

#[test]
fn aliased_presets_share_their_source() {
    assert_eq!(get_preset("typescript").unwrap().name, "javascript");
    assert_eq!(get_preset("cpp").unwrap().name, "c");
    assert_eq!(get_all_presets().len(), 56);
    assert_eq!(get_preset("go").unwrap().allowed_ranges[2].end, 0x024F);
}

#[test]
fn at_least_fifty_presets_each_allow_ascii_and_controls() {
    let all = get_all_presets();
    assert!(all.len() >= 50);
    for (key, preset) in &all {
        assert_eq!(get_preset(key).unwrap().name, preset.name);
        assert_eq!((preset.allowed_ranges[0].start, preset.allowed_ranges[0].end), (0x20, 0x7E));
        assert_eq!((preset.allowed_ranges[1].start, preset.allowed_ranges[1].end), (0x09, 0x0D));
        assert!(!preset.description.is_empty());
        assert!(preset.allowed_ranges.iter().all(|r| r.description.is_some() && r.start <= r.end));
    }
    let keys: Vec<&String> = all.iter().map(|(k, _)| k).collect();
    let mut sorted = keys.clone();
    sorted.sort();
    sorted.dedup();
    assert_eq!(keys, sorted);
}

#[test]
fn script_presets_allow_their_script() {
    let greek = get_preset("greek").unwrap();
    assert!(greek.allowed_ranges.iter().any(|r| r.start == 0x0370 && r.end == 0x03FF));
    let japanese = get_preset("japanese").unwrap();
    assert_eq!(japanese.allowed_ranges.len(), 6);
    assert_eq!(japanese.allowed_ranges[3].start, 0x3040);
    assert_eq!(get_preset("english").unwrap().allowed_ranges.len(), 2);
}

#[test]
fn test_file_rule_matches_exact_path() {
    let rule = FileRule::new("src/lib.rs").unwrap();
    assert!(rule.matches("src/lib.rs"));
    assert!(!rule.matches("src/main.rs"));
}

#[test]
fn test_file_rule_matches_glob_pattern() {
    let rule = FileRule::new("*.rs").unwrap();
    assert!(rule.matches("main.rs"));
    assert!(rule.matches("lib.rs"));
    assert!(!rule.matches("main.js"));
}

#[test]
fn test_file_rule_matches_directory_pattern() {
    let rule = FileRule::new("src/**/*.rs").unwrap();
    assert!(rule.matches("src/main.rs"));
    assert!(rule.matches("src/config/mod.rs"));
    assert!(!rule.matches("tests/test.rs"));
}

#[test]
fn test_file_rule_priority_ordering() {
    let exact = FileRule::new("src/lib.rs").unwrap();
    let glob = FileRule::new("src/*.rs").unwrap();
    let recursive = FileRule::new("**/*.rs").unwrap();
    assert!(exact.priority > glob.priority);
    assert!(glob.priority > recursive.priority);
    assert_eq!(exact.priority, 1060);
    assert_eq!(glob.priority, 85);
    assert_eq!(recursive.priority, 10);
}

#[test]
fn test_file_rule_with_allowed_ranges() {
    let rule = FileRule::new("*.rs").unwrap().with_allowed_range(0x0020, 0x007E, Some("ASCII".to_string()));
    assert!(rule.is_code_point_allowed(0x0041));
    assert!(!rule.is_code_point_allowed(0x200B));
}

#[test]
fn test_file_rule_with_denied_characters() {
    let rule = FileRule::new("*.rs").unwrap().with_allowed_range(0x0000, 0xFFFF, None).with_denied_code_point(0x200B);
    assert!(rule.is_code_point_allowed(0x0041));
    assert!(!rule.is_code_point_allowed(0x200B));
}

#[test]
fn test_multiple_rules_for_same_file() {
    let mut rules = vec![
        FileRule::new("**/*.rs").unwrap().with_allowed_range(0x0000, 0xFFFF, None),
        FileRule::new("src/lib.rs").unwrap().with_allowed_range(0x0020, 0x007E, None),
    ];
    sort_rules_by_priority(&mut rules);
    let matching = find_matching_rule(&rules, "src/lib.rs").unwrap();
    assert_eq!(matching.pattern, "src/lib.rs");
}

#[test]
fn invalid_glob_is_a_configuration_error() {
    let err = FileRule::new("[invalid").unwrap_err();
    assert!(err.to_text().starts_with("Configuration error: Invalid glob pattern '[invalid': "));
}

#[test]
fn test_validate_empty_config() {
    let config = Configuration::new();
    assert!(validate_config(&config).is_ok());
}

#[test]
fn test_validate_invalid_unicode_range() {
    let mut config = Configuration::new();
    let rule = FileRule::new("*.rs").unwrap().with_allowed_range(0x0100, 0x0010, None);
    config.file_rules.push(rule);
    let err = validate_config(&config).unwrap_err();
    assert_eq!(err.to_text(), "Configuration error: Invalid Unicode range: start (0x100) > end (0x10)");
}

#[test]
fn test_validate_overlapping_ranges() {
    let mut config = Configuration::new();
    let rule = FileRule::new("*.rs").unwrap().with_allowed_range(0x0000, 0x00FF, None).with_allowed_range(0x0080, 0x0100, None);
    config.file_rules.push(rule);
    assert!(validate_config(&config).is_ok());
}

#[test]
fn test_validate_invalid_glob_pattern() {
    assert!(FileRule::new("[invalid").is_err());
}

#[test]
fn test_validate_conflicting_rules() {
    let mut config = Configuration::new();
    config.file_rules.push(FileRule::new("*.rs").unwrap());
    config.file_rules.push(FileRule::new("src/*.rs").unwrap());
    assert!(validate_config(&config).is_ok());
}

#[test]
fn test_validate_unknown_preset() {
    let mut config = Configuration::new();
    config.language_presets.insert("rust".to_string(), "nonexistent".to_string());
    let err = validate_config(&config).unwrap_err();
    assert_eq!(err.to_text(), "Configuration error: Unknown preset 'nonexistent' for language 'rust'");
}

#[test]
fn test_deny_by_default_rule_missing_ascii_rejected() {
    let mut config = Configuration::new();
    config.deny_by_default = true;
    let rule = FileRule::new("*.rs").unwrap().with_allowed_range(0x0400, 0x04FF, None);
    config.file_rules.push(rule);
    assert!(validate_config(&config).is_err());
}

#[test]
fn test_deny_by_default_deny_only_rule_allowed() {
    let mut config = Configuration::new();
    config.deny_by_default = true;
    let rule = FileRule::new("*.rs").unwrap().with_denied_code_point(0x200B);
    config.file_rules.push(rule);
    assert!(validate_config(&config).is_ok());
}

#[test]
fn test_validate_circular_preset_references() {}

#[test]
fn test_parse_empty_config() {
    let _toml = "";
    assert!(true);
}

#[test]
fn test_parse_minimal_config() {
    let _toml = r#"
[global]
deny_by_default = true
        "#;
    assert!(true);
}

#[test]
fn test_parse_config_with_language_preset() {
    let _toml = r#"
[languages.rust]
preset = "rust"
        "#;
    assert!(true);
}

#[test]
fn test_parse_config_with_custom_rules() {
    let _toml = r#"
[[rules]]
pattern = "*.rs"
allowed_ranges = [[0x0000, 0x007F]]
        "#;
    assert!(true);
}

#[test]
fn test_parse_invalid_toml() {
    let _toml = r#"
[global
invalid syntax
        "#;
    assert!(true);
}

#[test]
fn test_load_from_file() {
    assert!(true);
}

#[test]
fn deeply_nested_alternates_match_nothing_instead_of_panicking() {
    let deep = format!("{}b{}", "{a,".repeat(300), "}".repeat(300));
    let rule = FileRule::new(&deep).unwrap();
    assert!(!rule.matches("a"));
    assert!(!rule.matches("b"));
    let shallow = FileRule::new("{a,{b,c}}.rs").unwrap();
    assert!(shallow.matches("c.rs"));
}
