use weave_core::conflict::ConflictKind;
use weave_core::entity_merge;

#[test]
fn scenario_different_functions_modified() {
    let base = "export function processData(x: number) {\n    return x + 1;\n}\n\nexport function validateInput(s: string) {\n    return s.length > 0;\n}\n\nexport function formatOutput(v: number) {\n    return `${v}`;\n}\n";
    let ours = "export function processData(x: number) {\n    return x * 2;\n}\n\nexport function validateInput(s: string) {\n    return s.length > 0;\n}\n\nexport function formatOutput(v: number) {\n    return `${v}`;\n}\n";
    let theirs = "export function processData(x: number) {\n    return x + 1;\n}\n\nexport function validateInput(s: string) {\n    return s.trim().length > 0;\n}\n\nexport function formatOutput(v: number) {\n    return `${v}`;\n}\n";
    let result = entity_merge(base, ours, theirs, "lib.ts");
    assert!(result.is_clean());
    assert_eq!(
        result.content,
        "export function processData(x: number) {\n    return x * 2;\n}\n\nexport function validateInput(s: string) {\n    return s.trim().length > 0;\n}\n\nexport function formatOutput(v: number) {\n    return `${v}`;\n}\n"
    );
    assert!(!result.stats.used_fallback);
    assert_eq!(result.stats.entities_ours_only, 1);
    assert_eq!(result.stats.entities_theirs_only, 1);
    assert_eq!(result.stats.entities_unchanged, 1);
}

#[test]
fn scenario_both_add_different_imports() {
    let base = "import { foo } from './foo';\nimport { bar } from './bar';\n\nexport function main() {\n    return foo() + bar();\n}\n";
    let ours = "import { foo } from './foo';\nimport { bar } from './bar';\nimport { baz } from './baz';\n\nexport function main() {\n    return foo() + bar();\n}\n";
    let theirs = "import { foo } from './foo';\nimport { bar } from './bar';\nimport { qux } from './qux';\n\nexport function main() {\n    return foo() + bar();\n}\n";
    let result = entity_merge(base, ours, theirs, "app.ts");
    assert!(result.is_clean(), "conflicts: {:?}", result.conflicts);
    let imports: Vec<&str> =
        result.content.lines().filter(|l| l.starts_with("import ")).collect();
    assert_eq!(
        imports,
        vec![
            "import { foo } from './foo';",
            "import { bar } from './bar';",
            "import { baz } from './baz';",
            "import { qux } from './qux';",
        ]
    );
}

#[test]
fn scenario_same_function_incompatibly_modified() {
    let base = "export function process(data: any) {\n    return data.toString();\n}\n\nexport function other() {\n    return 1;\n}\n";
    let ours = "export function process(data: any) {\n    return JSON.stringify(data);\n}\n\nexport function other() {\n    return 1;\n}\n";
    let theirs = "export function process(data: any) {\n    return data.toUpperCase();\n}\n\nexport function other() {\n    return 1;\n}\n";
    let result = entity_merge(base, ours, theirs, "process.ts");
    assert_eq!(result.conflicts.len(), 1);
    assert_eq!(result.conflicts[0].kind, ConflictKind::BothModified);
    assert_eq!(result.conflicts[0].entity_name, "process");
    assert!(result.content.contains("<<<<<<< ours"));
    assert!(result.content.contains("\n=======\n"));
    assert!(result.content.contains(">>>>>>> theirs"));
    assert!(result.content.ends_with("\nexport function other() {\n    return 1;\n}\n"));
    assert_eq!(result.stats.entities_conflicted, 1);
    assert_eq!(result.stats.confidence(), "conflict");
}

#[test]
fn scenario_modify_delete() {
    let base = "export function shared() {\n    return \"original\";\n}\n";
    let ours = "export function shared() {\n    return \"modified\";\n}\n";
    let theirs = "";
    let result = entity_merge(base, ours, theirs, "conflict.ts");
    assert_eq!(result.conflicts.len(), 1);
    assert_eq!(result.conflicts[0].kind, ConflictKind::ModifyDelete { modified_in_ours: true });
    assert_eq!(result.conflicts[0].entity_name, "shared");
    assert!(result.conflicts[0].theirs_content.is_none());
    assert!(result.content.contains("\n=======\n>>>>>>> theirs"));
}

#[test]
fn scenario_both_add_same_identity() {
    let base = "";
    let ours = "export function hello() {\n    return \"ours\";\n}\n";
    let theirs = "export function hello() {\n    return \"theirs\";\n}\n";
    let result = entity_merge(base, ours, theirs, "new.ts");
    assert_eq!(result.conflicts.len(), 1);
    assert_eq!(result.conflicts[0].kind, ConflictKind::BothAdded);
    assert!(result.conflicts[0].base_content.is_none());
}

#[test]
fn scenario_unknown_file_type() {
    let result = entity_merge("a\nb\nc\nd\ne\n", "A\nb\nc\nd\ne\n", "a\nb\nc\nd\nE\n", "file.xyz");
    assert!(result.is_clean());
    assert!(result.stats.used_fallback);
    assert_eq!(result.content, "A\nb\nc\nd\nE\n");
}

#[test]
fn identity_under_agreement() {
    let x = "export function f() {\n    return 1;\n}\n";
    let result = entity_merge(x, x, x, "f.ts");
    assert!(result.is_clean());
    assert_eq!(result.content, x);
    assert_eq!(result.stats.to_string(), "unchanged: 0");
    assert!(!result.stats.used_fallback);
}

#[test]
fn one_sided_change_is_taken_whole() {
    let base = "export function f() {\n    return 1;\n}\n";
    let changed = "export function f() {\n    return 2;\n}\nexport function g() {}\n";
    let r = entity_merge(base, changed, base, "f.ts");
    assert_eq!(r.content, changed);
    assert_eq!(r.stats.entities_ours_only, 1);
    let r = entity_merge(base, base, changed, "f.ts");
    assert_eq!(r.content, changed);
    assert_eq!(r.stats.entities_theirs_only, 1);
}

#[test]
fn repeated_merges_agree() {
    let base = "export function a() {\n    return 1;\n}\n";
    let ours = "export function a() {\n    return 1;\n}\n\nexport function b() {\n    return 2;\n}\n";
    let theirs = "export function a() {\n    return 3;\n}\n";
    let first = entity_merge(base, ours, theirs, "x.ts");
    let second = entity_merge(base, ours, theirs, "x.ts");
    assert_eq!(first.content, second.content);
    assert_eq!(first.conflicts.len(), second.conflicts.len());
    assert_eq!(
        first.content,
        "export function a() {\n    return 3;\n}\n\nexport function b() {\n    return 2;\n}\n"
    );
}

#[test]
fn side_disjoint_additions_commute() {
    let base = "export function existing() {\n    return 1;\n}\n";
    let with_a = "export function existing() {\n    return 1;\n}\n\nexport function agentA() {\n    return \"a\";\n}\n";
    let with_b = "export function existing() {\n    return 1;\n}\n\nexport function agentB() {\n    return \"b\";\n}\n";
    let ab = entity_merge(base, with_a, with_b, "t.ts");
    let ba = entity_merge(base, with_b, with_a, "t.ts");
    assert!(ab.is_clean() && ba.is_clean());
    for r in [&ab, &ba] {
        assert_eq!(r.stats.entities_added_ours, 1);
        assert_eq!(r.stats.entities_added_theirs, 1);
        assert_eq!(r.stats.entities_unchanged, 1);
        assert_eq!(r.stats.to_string(), "unchanged: 1, added-ours: 1, added-theirs: 1");
        assert!(!r.stats.used_fallback);
        assert!(r.content.contains("export function existing() {\n    return 1;\n}\n"));
    }
    for r in [&ab, &ba] {
        assert!(r.content.contains("export function agentA() {\n    return \"a\";\n}\n"));
        assert!(r.content.contains("export function agentB() {\n    return \"b\";\n}\n"));
    }
    assert_eq!(
        ab.content,
        "export function existing() {\n    return 1;\n}\nexport function agentB() {\n    return \"b\";\n}\n\nexport function agentA() {\n    return \"a\";\n}\n"
    );
}

#[test]
fn oversize_input_uses_the_fallback() {
    let mut base = String::from("a\n");
    while base.len() <= 1_000_000 {
        base.push_str("export const filler = 0\n");
    }
    let ours = format!("A\n{}", &base[2..]);
    let theirs = format!("{}z\n", base);
    let result = entity_merge(&base, &ours, &theirs, "big.ts");
    assert!(result.stats.used_fallback);
}

#[test]
fn markers_come_in_order() {
    let base = "export function a() {\n    return 0;\n}\n\nexport function b() {\n    return 0;\n}\n";
    let ours = "export function a() {\n    return 1;\n}\n\nexport function b() {\n    return 1;\n}\n";
    let theirs = "export function a() {\n    return 2;\n}\n\nexport function b() {\n    return 2;\n}\n";
    let result = entity_merge(base, ours, theirs, "two.ts");
    assert_eq!(result.conflicts.len(), 2);
    let text = result.content.as_str();
    let mut at = 0;
    for _ in 0..2 {
        let open = at + text[at..].find("<<<<<<< ").expect("opening marker");
        let sep = open + text[open..].find("\n=======\n").expect("separator");
        let close = sep + text[sep..].find("\n>>>>>>> ").expect("closing marker");
        assert!(!text[open + 1..close].contains("<<<<<<< "));
        at = close + 1;
    }
    assert!(!text[at..].contains("<<<<<<< "));
    for c in &result.conflicts {
        assert!(text.contains(&c.to_conflict_markers()));
    }
}

#[test]
fn our_order_decides() {
    let base = "export function a() {\n    return 1;\n}\n\nexport function b() {\n    return 2;\n}\n";
    let ours = "export function b() {\n    return 2;\n}\n\nexport function a() {\n    return 1;\n}\n";
    let theirs = "export function a() {\n    return 1;\n}\n\nexport function b() {\n    return 3;\n}\n";
    let result = entity_merge(base, ours, theirs, "order.ts");
    assert!(result.is_clean());
    let a = result.content.find("function a").expect("a");
    let b = result.content.find("function b").expect("b");
    assert!(b < a);
    assert!(result.content.contains("return 3;"));
}
