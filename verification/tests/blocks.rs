use unicleaner::unicode::blocks::{BlockError, BlockRegistry};

#[test]
fn test_resolve_official_name() {
    let range = BlockRegistry::resolve("Basic Latin").unwrap();
    assert_eq!(range.start, 0x0000);
    assert_eq!(range.end, 0x007F);
}

#[test]
fn test_resolve_case_insensitive_lowercase() {
    let range = BlockRegistry::resolve("basic latin").unwrap();
    assert_eq!(range.start, 0x0000);
    assert_eq!(range.end, 0x007F);
}

#[test]
fn test_resolve_case_insensitive_uppercase() {
    let range = BlockRegistry::resolve("BASIC LATIN").unwrap();
    assert_eq!(range.start, 0x0000);
    assert_eq!(range.end, 0x007F);
}

#[test]
fn test_resolve_hebrew() {
    let range = BlockRegistry::resolve("Hebrew").unwrap();
    assert_eq!(range.start, 0x0590);
    assert_eq!(range.end, 0x05FF);
    assert_eq!(range.description, Some("Hebrew".to_string()));
}

#[test]
fn test_resolve_unknown_block_returns_error() {
    let result = BlockRegistry::resolve("Nonexistent");
    assert!(result.is_err());
    if let Err(BlockError::UnknownBlock { name, suggestions }) = result {
        assert_eq!(name, "Nonexistent");
        assert!(!suggestions.is_empty());
    }
}

#[test]
fn test_suggest_similar_names() {
    let suggestions = BlockRegistry::suggest("Hewbrew");
    assert!(!suggestions.is_empty());
    assert!(suggestions.iter().any(|s| s == "Hebrew"));
    assert!(suggestions.len() <= 3);
}

#[test]
fn test_block_error_display() {
    let err = BlockError::UnknownBlock { name: "Hewbrew".to_string(), suggestions: vec!["Hebrew".to_string()] };
    let msg = err.to_text();
    assert!(msg.contains("Hewbrew"));
    assert!(msg.contains("Hebrew"));
    assert_eq!(msg, "Unknown Unicode block \"Hewbrew\"\n  Did you mean: \"Hebrew\"?");
}

#[test]
fn test_registry_has_all_blocks() {
    assert!(BlockRegistry::list_blocks(None).len() >= 320);
}

#[test]
fn test_resolve_alias_ascii() {
    let range = BlockRegistry::resolve("ascii").unwrap();
    assert_eq!(range.start, 0x0000);
    assert_eq!(range.end, 0x007F);
}

#[test]
fn test_resolve_alias_latin1() {
    let range = BlockRegistry::resolve("latin-1").unwrap();
    assert_eq!(range.start, 0x0080);
    assert_eq!(range.end, 0x00FF);
}

#[test]
fn test_resolve_alias_hebrew() {
    let range = BlockRegistry::resolve("hebrew").unwrap();
    let official = BlockRegistry::resolve("Hebrew").unwrap();
    assert_eq!(range.start, official.start);
    assert_eq!(range.end, official.end);
}

#[test]
fn test_resolve_alias_cjk() {
    let range = BlockRegistry::resolve("cjk").unwrap();
    assert_eq!(range.start, 0x4E00);
    assert_eq!(range.end, 0x9FFF);
}

#[test]
fn test_resolve_alias_emoji() {
    let range = BlockRegistry::resolve("emoji").unwrap();
    assert_eq!(range.start, 0x1F600);
    assert_eq!(range.end, 0x1F64F);
}

#[test]
fn surrogate_blocks_resolve() {
    let range = BlockRegistry::resolve("Low Surrogates").unwrap();
    assert_eq!((range.start, range.end), (0xDC00, 0xDFFF));
}

#[test]
fn test_list_blocks_returns_all_sorted() {
    let blocks = BlockRegistry::list_blocks(None);
    assert!(blocks.len() >= 320);
    for window in blocks.windows(2) {
        assert!(window[0].start <= window[1].start);
    }
}

#[test]
fn test_list_blocks_filter_hebrew() {
    let blocks = BlockRegistry::list_blocks(Some("hebrew"));
    assert!(!blocks.is_empty());
    for block in &blocks {
        assert!(block.name.to_lowercase().contains("hebrew"));
    }
}

#[test]
fn test_list_blocks_filter_no_match() {
    let blocks = BlockRegistry::list_blocks(Some("zzzzz"));
    assert!(blocks.is_empty());
}

#[test]
fn test_list_blocks_first_is_basic_latin() {
    let blocks = BlockRegistry::list_blocks(None);
    assert_eq!(blocks[0].name, "Basic Latin");
    assert_eq!(blocks[0].start, 0x0000);
    assert_eq!(blocks[0].end, 0x007F);
    assert_eq!(blocks[0].aliases, vec!["ascii".to_string()]);
}

#[test]
fn filtered_listing_is_the_matching_part_of_the_full_listing() {
    let all = BlockRegistry::list_blocks(None);
    for pair in all.windows(2) {
        assert!(pair[0].start < pair[1].start);
    }
    let latin = BlockRegistry::list_blocks(Some("LATIN"));
    let expected: Vec<&str> = all
        .iter()
        .filter(|b| b.name.to_lowercase().contains("latin"))
        .map(|b| b.name.as_str())
        .collect();
    let got: Vec<&str> = latin.iter().map(|b| b.name.as_str()).collect();
    assert!(!got.is_empty());
    assert_eq!(got, expected);
}
