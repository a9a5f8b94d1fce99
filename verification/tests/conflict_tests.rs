use weave_core::conflict::{
    classify_conflict, ConflictComplexity, ConflictKind, EntityConflict, MergeStats,
};

#[test]
fn test_classify_functional_conflict() {
    let base = "function foo() {\n    return 1;\n}\n";
    let ours = "function foo() {\n    return 2;\n}\n";
    let theirs = "function foo() {\n    return 3;\n}\n";
    assert_eq!(
        classify_conflict(Some(base), Some(ours), Some(theirs)),
        ConflictComplexity::Functional
    );
}

#[test]
fn test_classify_syntax_conflict() {
    let base = "function foo(a: number) {\n    return a;\n}\n";
    let ours = "function foo(a: string) {\n    return a;\n}\n";
    let theirs = "function foo(a: boolean) {\n    return a;\n}\n";
    assert_eq!(
        classify_conflict(Some(base), Some(ours), Some(theirs)),
        ConflictComplexity::Syntax
    );
}

#[test]
fn test_classify_text_conflict() {
    let base = "// old comment\n    return 1;\n";
    let ours = "// ours comment\n    return 1;\n";
    let theirs = "// theirs comment\n    return 1;\n";
    assert_eq!(
        classify_conflict(Some(base), Some(ours), Some(theirs)),
        ConflictComplexity::Text
    );
}

#[test]
fn test_classify_syntax_functional_conflict() {
    let base = "function foo(a: number) {\n    return a;\n}\n";
    let ours = "function foo(a: string) {\n    return a + 1;\n}\n";
    let theirs = "function foo(a: boolean) {\n    return a + 2;\n}\n";
    assert_eq!(
        classify_conflict(Some(base), Some(ours), Some(theirs)),
        ConflictComplexity::SyntaxFunctional
    );
}

#[test]
fn test_classify_unknown_when_identical() {
    let content = "function foo() {\n    return 1;\n}\n";
    assert_eq!(
        classify_conflict(Some(content), Some(content), Some(content)),
        ConflictComplexity::Unknown
    );
}

#[test]
fn test_classify_modify_delete() {
    let base = "function foo() {\n    return 1;\n}\n";
    let ours = "function foo() {\n    return 2;\n}\n";
    assert_eq!(
        classify_conflict(Some(base), Some(ours), None),
        ConflictComplexity::SyntaxFunctional
    );
}

#[test]
fn test_classify_both_added() {
    let ours = "function foo() {\n    return 1;\n}\n";
    let theirs = "function foo() {\n    return 2;\n}\n";
    assert_eq!(
        classify_conflict(None, Some(ours), Some(theirs)),
        ConflictComplexity::SyntaxFunctional
    );
}

#[test]
fn test_conflict_markers_include_complexity() {
    let conflict = EntityConflict {
        entity_name: "foo".to_string(),
        entity_type: "function".to_string(),
        kind: ConflictKind::BothModified,
        complexity: ConflictComplexity::Functional,
        ours_content: Some("return 1;".to_string()),
        theirs_content: Some("return 2;".to_string()),
        base_content: Some("return 0;".to_string()),
    };
    let markers = conflict.to_conflict_markers();
    assert!(markers.contains("complexity: F"), "Markers should contain complexity: {}", markers);
}

#[test]
fn conflict_markers_are_rendered_exactly() {
    let conflict = EntityConflict {
        entity_name: "foo".to_string(),
        entity_type: "function".to_string(),
        kind: ConflictKind::BothModified,
        complexity: ConflictComplexity::Functional,
        ours_content: Some("return 1;".to_string()),
        theirs_content: Some("return 2;\n".to_string()),
        base_content: None,
    };
    assert_eq!(
        conflict.to_conflict_markers(),
        "<<<<<<< ours \u{2014} function `foo` (both modified, complexity: F)\nreturn 1;\n=======\nreturn 2;\n>>>>>>> theirs \u{2014} function `foo` (both modified, complexity: F)\n"
    );
}

#[test]
fn conflict_markers_allow_an_empty_side() {
    let conflict = EntityConflict {
        entity_name: "shared".to_string(),
        entity_type: "function".to_string(),
        kind: ConflictKind::ModifyDelete { modified_in_ours: true },
        complexity: ConflictComplexity::Unknown,
        ours_content: Some("x\n".to_string()),
        theirs_content: None,
        base_content: Some("y\n".to_string()),
    };
    assert_eq!(
        conflict.to_conflict_markers(),
        "<<<<<<< ours \u{2014} function `shared` (modified in ours, deleted in theirs, complexity: ?)\nx\n=======\n>>>>>>> theirs \u{2014} function `shared` (modified in ours, deleted in theirs, complexity: ?)\n"
    );
}

#[test]
fn kind_and_complexity_texts() {
    assert_eq!(ConflictKind::BothModified.to_string(), "both modified");
    assert_eq!(
        ConflictKind::ModifyDelete { modified_in_ours: false }.to_string(),
        "deleted in ours, modified in theirs"
    );
    assert_eq!(ConflictKind::BothAdded.to_string(), "both added");
    assert_eq!(ConflictComplexity::Text.to_string(), "T");
    assert_eq!(ConflictComplexity::TextSyntax.to_string(), "T+S");
    assert_eq!(ConflictComplexity::TextFunctional.to_string(), "T+F");
    assert_eq!(ConflictComplexity::TextSyntaxFunctional.to_string(), "T+S+F");
    assert_eq!(ConflictComplexity::Unknown.to_string(), "?");
}

#[test]
fn stats_confidence_levels() {
    let mut stats = MergeStats::default();
    assert!(!stats.has_conflicts());
    assert_eq!(stats.confidence(), "very_high");
    stats.resolved_via_diffy = 1;
    assert_eq!(stats.confidence(), "high");
    stats.used_fallback = true;
    assert_eq!(stats.confidence(), "medium");
    stats.entities_conflicted = 2;
    assert_eq!(stats.confidence(), "conflict");
    assert!(stats.has_conflicts());
}

#[test]
fn stats_summary_line() {
    let mut stats = MergeStats::default();
    assert_eq!(stats.to_string(), "unchanged: 0");
    stats.entities_unchanged = 12;
    stats.entities_theirs_only = 3;
    stats.entities_conflicted = 105;
    stats.used_fallback = true;
    assert_eq!(
        stats.to_string(),
        "unchanged: 12, theirs-only: 3, CONFLICTS: 105 (line-level fallback)"
    );
}
