use agent_core::palette::{fuzzy_match, fuzzy_match_multi, is_separator, CommandCategory};

#[test]
fn test_exact_match() {
    let result = fuzzy_match("save", "Save File").unwrap();
    assert!(result.score > 0);
    assert_eq!(result.matched_indices, vec![0, 1, 2, 3]);
}

#[test]
fn test_fuzzy_match() {
    let result = fuzzy_match("sf", "Save File").unwrap();
    assert!(result.score > 0);
    assert_eq!(result.matched_indices, vec![0, 5]);
}

#[test]
fn test_no_match() {
    assert!(fuzzy_match("xyz", "Save File").is_none());
}

#[test]
fn test_empty_pattern() {
    let result = fuzzy_match("", "Save File").unwrap();
    assert_eq!(result.score, 0);
    assert!(result.matched_indices.is_empty());
}

#[test]
fn test_camel_case() {
    let result = fuzzy_match("gc", "gitCommit").unwrap();
    assert!(result.score > 0);
}

#[test]
fn exact_match_score_sums_bonuses() {
    // 's' at the start: 10 + 15 + 20 + 5 (upper case); then 'a', 'v', 'e': 10 each.
    let result = fuzzy_match("save", "Save File").unwrap();
    assert_eq!(result.score, 80);
}

#[test]
fn word_start_beats_inner_letter() {
    // "f" can match the 'F' of "File" (after a space) or nothing earlier; the
    // case change in "gitCommit" gives 'C' the camel-case bonus.
    let result = fuzzy_match("gc", "gitCommit").unwrap();
    assert_eq!(result.matched_indices, vec![0, 3]);
    assert_eq!(result.score, 45 + 30);
}

#[test]
fn pattern_longer_than_text_does_not_match() {
    assert!(fuzzy_match("saves", "save").is_none());
}

#[test]
fn multi_prefers_label_then_category_then_description() {
    let on_label = fuzzy_match_multi("save", "Save File", Some("writes"), "File").unwrap();
    assert_eq!(on_label.score, 180);
    let on_category = fuzzy_match_multi("file", "Save", None, "File").unwrap();
    assert_eq!(on_category.matched_indices, vec![0, 1, 2, 3]);
    assert!(on_category.score > 50);
    let on_description = fuzzy_match_multi("disk", "Save", Some("write to disk"), "File").unwrap();
    assert!(on_description.matched_indices.is_empty());
    assert!(on_description.score >= 25);
    assert!(fuzzy_match_multi("zzz", "Save", Some("write"), "File").is_none());
}

#[test]
fn separators_and_labels() {
    assert!(is_separator('/'));
    assert!(is_separator(' '));
    assert!(!is_separator('a'));
    assert_eq!(CommandCategory::Ai.label(), "AI");
    assert_eq!(CommandCategory::Terminal.label(), "Terminal");
}
