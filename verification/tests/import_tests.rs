use weave_core::imports::{is_import_line, is_import_region, merge_imports_commutatively};
use weave_core::separators::{collapse_separators, expand_separators};

#[test]
fn test_expand_separators() {
    let code = "function foo() { return 1; }";
    let expanded = expand_separators(code);
    assert!(expanded.contains("{\n"), "Opening brace should have newline after");
    assert!(expanded.contains(";\n"), "Semicolons should have newline after");
    assert!(expanded.contains("\n}"), "Closing brace should have newline before");
}

#[test]
fn test_expand_separators_preserves_strings() {
    let code = r#"let x = "hello { world };";"#;
    let expanded = expand_separators(code);
    assert!(
        expanded.contains("\"hello { world };\""),
        "Separators in strings should be preserved: {}",
        expanded
    );
}

#[test]
fn test_is_import_region() {
    assert!(is_import_region("import foo from 'foo';\nimport bar from 'bar';\n"));
    assert!(is_import_region("use std::io;\nuse std::fs;\n"));
    assert!(!is_import_region("let x = 1;\nlet y = 2;\n"));
    assert!(!is_import_region("import foo from 'foo';\nlet x = 1;\nlet y = 2;\n"));
    assert!(!is_import_region(""));
}

#[test]
fn test_is_import_line() {
    assert!(is_import_line("import foo from 'foo';"));
    assert!(is_import_line("import { bar } from 'bar';"));
    assert!(is_import_line("from typing import List"));
    assert!(is_import_line("use std::io::Read;"));
    assert!(is_import_line("#include <stdio.h>"));
    assert!(is_import_line("const fs = require('fs');"));
    assert!(!is_import_line("let x = 1;"));
    assert!(!is_import_line("function foo() {}"));
}

#[test]
fn test_commutative_import_merge_both_add_different() {
    let base = "import a from 'a';\nimport b from 'b';\n";
    let ours = "import a from 'a';\nimport b from 'b';\nimport c from 'c';\n";
    let theirs = "import a from 'a';\nimport b from 'b';\nimport d from 'd';\n";
    let result = merge_imports_commutatively(base, ours, theirs);
    assert!(result.contains("import a from 'a';"));
    assert!(result.contains("import b from 'b';"));
    assert!(result.contains("import c from 'c';"));
    assert!(result.contains("import d from 'd';"));
}

#[test]
fn test_commutative_import_merge_one_removes() {
    let base = "import a from 'a';\nimport b from 'b';\nimport c from 'c';\n";
    let ours = "import a from 'a';\nimport c from 'c';\n";
    let theirs = "import a from 'a';\nimport b from 'b';\nimport c from 'c';\n";
    let result = merge_imports_commutatively(base, ours, theirs);
    assert!(result.contains("import a from 'a';"));
    assert!(!result.contains("import b from 'b';"), "Removed import should stay removed");
    assert!(result.contains("import c from 'c';"));
}

#[test]
fn test_commutative_import_merge_both_add_same() {
    let base = "import a from 'a';\n";
    let ours = "import a from 'a';\nimport b from 'b';\n";
    let theirs = "import a from 'a';\nimport b from 'b';\n";
    let result = merge_imports_commutatively(base, ours, theirs);
    let count = result.matches("import b from 'b';").count();
    assert_eq!(count, 1, "Duplicate import should be deduplicated");
}

#[test]
fn test_commutative_import_merge_rust_use() {
    let base = "use std::io;\nuse std::fs;\n";
    let ours = "use std::io;\nuse std::fs;\nuse std::path::Path;\n";
    let theirs = "use std::io;\nuse std::fs;\nuse std::collections::HashMap;\n";
    let result = merge_imports_commutatively(base, ours, theirs);
    assert!(result.contains("use std::path::Path;"));
    assert!(result.contains("use std::collections::HashMap;"));
    assert!(result.contains("use std::io;"));
    assert!(result.contains("use std::fs;"));
}

#[test]
fn import_merge_exact_text_and_order() {
    let base = "// header\nimport a from 'a';\nimport b from 'b';\n\nconst x = 1;\n";
    let ours = "// header\nimport a from 'a';\nimport c from 'c';\n\nconst x = 1;\n";
    let theirs = "// header\nimport a from 'a';\nimport b from 'b';\nimport d from 'd';\n\nconst x = 1;\n";
    let result = merge_imports_commutatively(base, ours, theirs);
    assert_eq!(
        result,
        "// header\nimport a from 'a';\nimport c from 'c';\nimport d from 'd';\n\nconst x = 1;\n"
    );
}

#[test]
fn import_merge_without_imports_in_ours() {
    let result = merge_imports_commutatively("import a;\n", "// none\n", "import a;\nimport b;\n");
    assert_eq!(result, "import b;\n// none\n");
}

#[test]
fn import_line_edge_cases() {
    assert!(is_import_line("   \tusing System;"));
    assert!(is_import_line("package main"));
    assert!(is_import_line("require('x')"));
    assert!(!is_import_line("const x = 1;"));
    assert!(!is_import_line("imports"));
    assert!(!is_import_line(""));
}

#[test]
fn expand_separators_exact() {
    assert_eq!(expand_separators("a{b;c}"), "a\n{\nb\n;\nc\n}\n");
    assert_eq!(expand_separators("{"), "{\n");
    assert_eq!(expand_separators("x = 'a;b';"), "x = 'a;b'\n;\n");
    assert_eq!(expand_separators("\"a\\\"{\" {"), "\"a\\\"{\" \n{\n");
}

#[test]
fn collapse_separators_exact() {
    assert_eq!(collapse_separators("fn f() \n{\nx\n;\n}\n\n\n", ""), "fn f()  {\nx\n;\n}\n");
    assert_eq!(collapse_separators("{\na\n", ""), "{\na\n");
    assert_eq!(collapse_separators("a\nb", ""), "a\nb\n");
    assert_eq!(collapse_separators("", ""), "");
}
