use weave_core::merge::{entity_merge, line_level_fallback};

#[test]
fn test_fast_path_identical() {
    let content = "hello world";
    let result = entity_merge(content, content, content, "test.ts");
    assert!(result.is_clean());
    assert_eq!(result.content, content);
}

#[test]
fn test_fast_path_only_ours_changed() {
    let base = "hello";
    let ours = "hello world";
    let result = entity_merge(base, ours, base, "test.ts");
    assert!(result.is_clean());
    assert_eq!(result.content, ours);
}

#[test]
fn test_fast_path_only_theirs_changed() {
    let base = "hello";
    let theirs = "hello world";
    let result = entity_merge(base, base, theirs, "test.ts");
    assert!(result.is_clean());
    assert_eq!(result.content, theirs);
}

#[test]
fn test_different_functions_no_conflict() {
    let base = r#"export function existing() {
    return 1;
}
"#;
    let ours = r#"export function existing() {
    return 1;
}

export function agentA() {
    return "added by agent A";
}
"#;
    let theirs = r#"export function existing() {
    return 1;
}

export function agentB() {
    return "added by agent B";
}
"#;
    let result = entity_merge(base, ours, theirs, "test.ts");
    assert!(
        result.is_clean(),
        "Should auto-resolve: different functions added. Conflicts: {:?}",
        result.conflicts
    );
    assert!(
        result.content.contains("agentA"),
        "Should contain agentA function"
    );
    assert!(
        result.content.contains("agentB"),
        "Should contain agentB function"
    );
}

#[test]
fn test_same_function_modified_by_both_conflict() {
    let base = r#"export function shared() {
    return "original";
}
"#;
    let ours = r#"export function shared() {
    return "modified by ours";
}
"#;
    let theirs = r#"export function shared() {
    return "modified by theirs";
}
"#;
    let result = entity_merge(base, ours, theirs, "test.ts");
    assert!(
        !result.is_clean(),
        "Should conflict when both modify same function differently"
    );
    assert_eq!(result.conflicts.len(), 1);
    assert_eq!(result.conflicts[0].entity_name, "shared");
}

#[test]
fn test_fallback_for_unknown_filetype() {
    let base = "line 1\nline 2\nline 3\nline 4\nline 5\n";
    let ours = "line 1 modified\nline 2\nline 3\nline 4\nline 5\n";
    let theirs = "line 1\nline 2\nline 3\nline 4\nline 5 modified\n";
    let result = entity_merge(base, ours, theirs, "test.xyz");
    assert!(
        result.is_clean(),
        "Non-adjacent changes should merge cleanly. Conflicts: {:?}",
        result.conflicts,
    );
}

#[test]
fn test_line_level_fallback() {
    let base = "a\nb\nc\nd\ne\n";
    let ours = "A\nb\nc\nd\ne\n";
    let theirs = "a\nb\nc\nd\nE\n";
    let result = line_level_fallback(base, ours, theirs);
    assert!(result.is_clean());
    assert!(result.stats.used_fallback);
    assert_eq!(result.content, "A\nb\nc\nd\nE\n");
}

#[test]
fn test_line_level_fallback_conflict() {
    let base = "a\nb\nc\n";
    let ours = "X\nb\nc\n";
    let theirs = "Y\nb\nc\n";
    let result = line_level_fallback(base, ours, theirs);
    assert!(!result.is_clean());
    assert!(result.stats.used_fallback);
}
