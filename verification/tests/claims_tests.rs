use weave_core::claims::{
    decide_claim, find_potential_conflicts, is_stale, may_release, stale_agents, touching_agents,
    AgentStatus, ClaimResult, EntityStatus,
};
use weave_core::attributes::add_merge_attributes;
use weave_core::driver::is_binary;
use weave_core::parser::{extract_entity_ids, resolve_entity_id};

fn agent(id: &str, status: &str, last_seen: u64, working_on: &[&str]) -> AgentStatus {
    AgentStatus {
        agent_id: id.to_string(),
        name: id.to_uppercase(),
        status: status.to_string(),
        branch: "main".to_string(),
        last_seen,
        working_on: working_on.iter().map(|s| s.to_string()).collect(),
    }
}

fn entity(id: &str, claimed_by: Option<&str>) -> EntityStatus {
    EntityStatus {
        entity_id: id.to_string(),
        name: format!("name-{}", id),
        entity_type: "function".to_string(),
        file_path: "src/lib.rs".to_string(),
        content_hash: "h".to_string(),
        claimed_by: claimed_by.map(|s| s.to_string()),
        claimed_at: None,
        last_modified_by: None,
        last_modified_at: None,
        version: 0,
    }
}

#[test]
fn claim_of_a_free_entity_succeeds() {
    assert_eq!(decide_claim(&None, &"agent-1".to_string()), ClaimResult::Claimed);
}

#[test]
fn claim_by_the_owner_is_recognised() {
    let owner = Some("agent-1".to_string());
    assert_eq!(decide_claim(&owner, &"agent-1".to_string()), ClaimResult::AlreadyOwnedBySelf);
}

#[test]
fn claim_against_another_owner_names_the_owner() {
    let owner = Some("agent-1".to_string());
    assert_eq!(
        decide_claim(&owner, &"agent-2".to_string()),
        ClaimResult::AlreadyClaimed { by: "agent-1".to_string() }
    );
}

#[test]
fn only_the_owner_may_release() {
    let owner = Some("agent-1".to_string());
    assert!(may_release(&owner, &"agent-1".to_string()));
    assert!(!may_release(&owner, &"agent-2".to_string()));
    assert!(!may_release(&None, &"agent-1".to_string()));
}

#[test]
fn staleness_is_strictly_beyond_the_timeout() {
    assert!(!is_stale(2000, 1000, 1000));
    assert!(is_stale(2001, 1000, 1000));
    assert!(!is_stale(5, 5, 0));
}

#[test]
fn stale_agents_are_listed_in_order() {
    let agents = vec![
        agent("a", "active", 100, &[]),
        agent("b", "active", 900, &[]),
        agent("c", "active", 0, &[]),
    ];
    assert_eq!(stale_agents(&agents, 1000, 500), vec!["a".to_string(), "c".to_string()]);
    assert!(stale_agents(&agents, 1000, 1000).is_empty());
}

#[test]
fn touching_agents_counts_workers_and_claimant() {
    let agents = vec![
        agent("a", "active", 0, &["e1", "e2"]),
        agent("b", "stale", 0, &["e1"]),
        agent("c", "active", 0, &["e1"]),
    ];
    assert_eq!(
        touching_agents(&agents, &entity("e1", Some("d"))),
        vec!["a".to_string(), "c".to_string(), "d".to_string()]
    );
    assert_eq!(touching_agents(&agents, &entity("e1", Some("a"))), vec!["a".to_string(), "c".to_string()]);
    assert_eq!(touching_agents(&agents, &entity("e2", None)), vec!["a".to_string()]);
    assert!(touching_agents(&agents, &entity("e3", None)).is_empty());
}

#[test]
fn potential_conflicts_need_two_agents() {
    let agents = vec![agent("a", "active", 0, &["e1"]), agent("b", "active", 0, &["e2"])];
    let entities = vec![entity("e1", Some("b")), entity("e2", Some("b")), entity("e3", Some("a"))];
    let found = find_potential_conflicts(&agents, &entities);
    assert_eq!(found.len(), 1);
    assert_eq!(found[0].entity_id, "e1");
    assert_eq!(found[0].entity_name, "name-e1");
    assert_eq!(found[0].file_path, "src/lib.rs");
    assert_eq!(found[0].agents, vec!["a".to_string(), "b".to_string()]);
}

#[test]
fn binary_detection_scans_the_first_bytes() {
    assert!(!is_binary("plain text"));
    assert!(!is_binary(""));
    assert!(is_binary("a\0b"));
    let mut late = "x".repeat(8192);
    late.push('\0');
    assert!(!is_binary(&late));
    let mut edge = "x".repeat(8191);
    edge.push('\0');
    assert!(is_binary(&edge));
}

#[test]
fn attribute_lines_are_added_once() {
    let patterns = vec!["*.ts".to_string(), "*.rs".to_string()];
    assert_eq!(
        add_merge_attributes("", &patterns),
        ("*.ts merge=weave\n*.rs merge=weave\n".to_string(), 2)
    );
    assert_eq!(
        add_merge_attributes("*.png binary", &patterns),
        ("*.png binary\n*.ts merge=weave\n*.rs merge=weave\n".to_string(), 2)
    );
    assert_eq!(
        add_merge_attributes("*.rs merge=weave\n", &patterns),
        ("*.rs merge=weave\n*.ts merge=weave\n".to_string(), 1)
    );
    let done = "*.ts merge=weave\n*.rs merge=weave\n";
    assert_eq!(add_merge_attributes(done, &patterns), (done.to_string(), 0));
}

#[test]
fn entities_are_found_by_name() {
    let registry = sem_core::parser::plugins::create_default_registry();
    let content = "export function hello() {\n    return 1;\n}\n\nexport function world() {\n    return 2;\n}\n";
    let triples = extract_entity_ids(content, "a.ts", &registry);
    let names: Vec<&str> = triples.iter().map(|t| t.1.as_str()).collect();
    assert_eq!(names, vec!["hello", "world"]);
    let id = resolve_entity_id(content, "a.ts", "world", &registry).expect("world");
    assert_eq!(id, triples[1].0);
    assert_eq!(triples[1].2, "function");
    assert_eq!(resolve_entity_id(content, "a.ts", "missing", &registry), None);
    assert_eq!(resolve_entity_id(content, "a.unknown", "world", &registry), None);
    assert!(extract_entity_ids(content, "a.unknown", &registry).is_empty());
}

#[test]
fn registry_without_parsers_means_fallback() {
    let registry = sem_core::parser::registry::ParserRegistry::new();
    let r = weave_core::entity_merge_with_registry(
        "a\nb\nc\n",
        "A\nb\nc\n",
        "a\nb\nC\n",
        "x.ts",
        &registry,
    );
    assert!(r.stats.used_fallback);
    assert_eq!(r.content, "A\nb\nC\n");
}
