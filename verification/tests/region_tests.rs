use weave_core::parser::parse_entities;
use weave_core::region::{entities_tile, extract_regions, Entity, FileRegion};

#[test]
fn test_extract_regions_typescript() {
    let content = r#"import { foo } from 'bar';

export function hello() {
    return "hello";
}

export function world() {
    return "world";
}
"#;

    let registry = sem_core::parser::plugins::create_default_registry();
    let entities = parse_entities(&registry, content, "test.ts").unwrap();

    assert!(!entities.is_empty(), "Should extract entities from TypeScript");

    let regions = extract_regions(content, &entities);

    assert!(regions.len() >= 2, "Should have multiple regions, got {}", regions.len());

    let entity_regions: Vec<_> = regions
        .iter()
        .filter_map(|r| match r {
            FileRegion::Entity(e) => Some(e),
            _ => None,
        })
        .collect();

    let entity_names: Vec<&str> = entity_regions.iter().map(|e| e.entity_name.as_str()).collect();
    assert!(entity_names.contains(&"hello"), "Should find hello function, got {:?}", entity_names);
    assert!(entity_names.contains(&"world"), "Should find world function, got {:?}", entity_names);
}

#[test]
fn test_extract_regions_no_entities() {
    let content = "just some text\nno code here\n";
    let regions = extract_regions(content, &[]);
    assert_eq!(regions.len(), 1);
    assert!(!regions[0].is_entity());
    assert_eq!(regions[0].content(), content);
}

fn entity(id: &str, start_line: usize, end_line: usize) -> Entity {
    Entity {
        id: id.to_string(),
        name: id.to_string(),
        entity_type: "function".to_string(),
        content_hash: format!("hash-{}", id),
        start_line,
        end_line,
        content: format!("<{}>", id),
        parent_id: None,
    }
}

#[test]
fn regions_tile_the_file() {
    let content = "h1\nh2\na1\na2\nmid\nb1\nfoot\n";
    let entities = vec![entity("b", 6, 6), entity("a", 3, 4)];
    let regions = extract_regions(content, &entities);
    let keys: Vec<&str> = regions.iter().map(|r| r.key()).collect();
    assert_eq!(keys, vec!["file_header", "a", "between:a:b", "b", "file_footer"]);
    let texts: Vec<&str> = regions.iter().map(|r| r.content()).collect();
    assert_eq!(texts, vec!["h1\nh2\n", "a1\na2\n", "mid\n", "b1\n", "foot\n"]);
    let joined: String = texts.concat();
    assert_eq!(joined, content);
    assert!(regions[1].is_entity());
    assert!(!regions[0].is_entity());
}

#[test]
fn region_falls_back_to_parser_content_when_out_of_range() {
    let content = "only\n";
    let entities = vec![entity("far", 5, 9)];
    let regions = extract_regions(content, &entities);
    let keys: Vec<&str> = regions.iter().map(|r| r.key()).collect();
    assert_eq!(keys, vec!["file_header", "far"]);
    assert_eq!(regions[0].content(), "only\n");
    assert_eq!(regions[1].content(), "<far>\n");
}

#[test]
fn empty_entity_range_uses_parser_content() {
    let content = "a\n";
    let entities = vec![entity("x", 1, 0)];
    let regions = extract_regions(content, &entities);
    assert_eq!(regions.len(), 2);
    assert_eq!(regions[0].content(), "<x>");
    assert_eq!(regions[1].key(), "file_footer");
    assert_eq!(regions[1].content(), "a\n");
}

#[test]
fn tiling_is_checked() {
    let good = vec![entity("a", 1, 2), entity("b", 4, 4)];
    assert!(entities_tile(&good, 4));
    assert!(entities_tile(&good, 10));
    assert!(!entities_tile(&good, 3));
    assert!(entities_tile(&[], 0));
    assert!(!entities_tile(&[entity("z", 0, 1)], 5));
    assert!(!entities_tile(&[entity("z", 3, 2)], 5));
    assert!(!entities_tile(&[entity("a", 1, 2), entity("b", 2, 3)], 5));
    assert!(!entities_tile(&[entity("b", 3, 3), entity("a", 1, 1)], 5));
}

#[test]
fn parsing_succeeds_where_the_registry_has_a_parser() {
    let registry = sem_core::parser::plugins::create_default_registry();
    let content = "export class Box {\n    get(): number {\n        return 1;\n    }\n}\n";
    let found = parse_entities(&registry, content, "box.ts").expect("a parser for .ts");
    assert_eq!(found.len(), 1);
    assert_eq!(found[0].name, "Box");
    assert!(found.iter().all(|e| e.parent_id.is_none()));
    assert!(parse_entities(&registry, "", "empty.ts").expect("a parser for .ts").is_empty());
    assert!(parse_entities(&registry, content, "box.xyz").is_none());
    assert!(parse_entities(&registry, content, "box").is_none());
    let bare = sem_core::parser::registry::ParserRegistry::new();
    assert!(parse_entities(&bare, content, "box.ts").is_none());
}
