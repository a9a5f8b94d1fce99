//! The parser adapter: entities of a file, as the parser registry finds them.
//!
//! Which files a registry has a parser for is a matter of the registry and
//! the file's name alone, and is named ([`parsed_names`]). What a parser
//! finds in a text is its own affair: the library hands the texts over,
//! keeps the entities that are not nested in others, and works on whatever
//! came back.

use vstd::prelude::*;
use sem_core::parser::registry::ParserRegistry;
use crate::conflict::opt_string_view;
use crate::region::{Entity, EntityView};
use crate::text::{lemma_view_all_push, view_all};

verus! {

/// The registry of language parsers. Its plugins are not visible here.
#[verifier::external_type_specification]
#[verifier::external_body]
pub struct ExParserRegistry(ParserRegistry);

/// What a registry holds, seen from outside: the names of the files that it
/// has a parser for. A file name is among them when one of its extensions,
/// or for a few build files the name itself, is registered with a plugin.
pub uninterp spec fn parsed_names(registry: ParserRegistry) -> Set<Seq<char>>;

/// `create_default_registry` builds the registry with the parsers that are
/// compiled in. Nothing is claimed of it.
pub assume_specification[ sem_core::parser::plugins::create_default_registry ]() -> (r:
    ParserRegistry)
;

/// The views of optional entities.
pub open spec fn opt_entities_view(o: Option<Vec<Entity>>) -> Option<Seq<EntityView>> {
    match o {
        Some(v) => Some(view_all(v@)),
        None => None,
    }
}

/// `ParserRegistry::get_explicit_plugin` selects the plugin registered for
/// an extension of `path`, by looking the extensions of the file's name up
/// among those registered; it reads nothing but the registry and the name.
/// `SemanticParserPlugin::extract_entities` returns the entities that the
/// plugin finds in `text`; each entity is handed over field by field.
///
/// Claimed: the result is `None` exactly where the registry has no plugin
/// for the file. What a plugin finds is its own affair: nothing is claimed
/// of the entities.
#[verifier::external_body]
pub(crate) fn plugin_entities(registry: &ParserRegistry, text: &str, path: &str) -> (r: Option<
    Vec<Entity>,
>)
    ensures
        r is Some <==> parsed_names(*registry).contains(path@),
{
    let plugin = registry.get_explicit_plugin(path)?;
    let found = plugin.extract_entities(text, path).into_iter();
    let own = found.map(|e| Entity {
        id: e.id,
        name: e.name,
        entity_type: e.entity_type,
        content_hash: e.content_hash,
        start_line: e.start_line,
        end_line: e.end_line,
        content: e.content,
        parent_id: e.parent_id,
    });
    Some(own.collect())
}

/// The predicate "is not nested in another entity" as a value.
pub open spec fn root_pred() -> spec_fn(EntityView) -> bool {
    |e: EntityView| e.parent_id is None
}

/// The entities that are not nested in another entity, in order.
pub open spec fn top_level(es: Seq<EntityView>) -> Seq<EntityView> {
    es.filter(root_pred())
}

/// Keeps the entities that are not nested in another entity.
pub fn keep_top_level(entities: Vec<Entity>) -> (r: Vec<Entity>)
    ensures
        view_all(r@) == top_level(view_all(entities@)),
{
    let ghost all = view_all(entities@);
    let mut out: Vec<Entity> = Vec::new();
    let mut i: usize = 0;
    proof {
        assert(all.take(0) =~= Seq::<EntityView>::empty());
        reveal(Seq::filter);
        assert(view_all(out@) =~= all.take(0).filter(root_pred()));
    }
    while i < entities.len()
        invariant
            i <= entities.len(),
            all == view_all(entities@),
            view_all(out@) == all.take(i as int).filter(root_pred()),
        decreases entities.len() - i,
    {
        proof {
            let x = all[i as int];
            assert(x == entities@[i as int]@);
            assert(all.take(i as int).push(x) =~= all.take(i + 1));
            all.take(i as int).lemma_filter_push(x, root_pred());
        }
        if entities[i].parent_id.is_none() {
            let c = entities[i].copy();
            proof {
                lemma_view_all_push(out@, c);
            }
            out.push(c);
        }
        i += 1;
    }
    assert(all.take(entities.len() as int) =~= all);
    out
}

/// The top-level entities of `text`, parsed as the file `path`.
///
/// The result is `None` exactly where the registry has no parser for such
/// a file. Else it holds what the parser found, without the entities that
/// are nested in others: whatever the parser finds, none of the entities
/// handed on is nested.
pub fn parse_entities(registry: &ParserRegistry, text: &str, path: &str) -> (r: Option<
    Vec<Entity>,
>)
    ensures
        r is Some <==> parsed_names(*registry).contains(path@),
        r matches Some(v) ==> top_level(view_all(v@)) == view_all(v@),
{
    match plugin_entities(registry, text, path) {
        Some(all) => {
            let kept = keep_top_level(all);
            proof {
                lemma_top_level_twice(view_all(all@));
            }
            Some(kept)
        },
        None => None,
    }
}

/// Entities that were filtered once pass the filter whole.
pub proof fn lemma_top_level_twice(es: Seq<EntityView>)
    ensures
        top_level(top_level(es)) == top_level(es),
    decreases es.len(),
{
    reveal(Seq::filter);
    if es.len() > 0 {
        let t = es.drop_last();
        lemma_top_level_twice(t);
        if root_pred()(es.last()) {
            top_level(t).lemma_filter_push(es.last(), root_pred());
        }
    }
}

/// The identity of the first entity with the name `name`.
pub open spec fn first_named(es: Seq<EntityView>, name: Seq<char>) -> Option<Seq<char>>
    decreases es.len(),
{
    if es.len() == 0 {
        None
    } else if es[0].name == name {
        Some(es[0].id)
    } else {
        first_named(es.skip(1), name)
    }
}

/// Identity, name and type of each entity.
pub open spec fn id_triples(es: Seq<EntityView>) -> Seq<(Seq<char>, Seq<char>, Seq<char>)> {
    Seq::new(es.len(), |i: int| (es[i].id, es[i].name, es[i].entity_type))
}

/// The views of identity triples.
pub open spec fn triples_view(v: Seq<(String, String, String)>) -> Seq<
    (Seq<char>, Seq<char>, Seq<char>),
> {
    Seq::new(v.len(), |i: int| (v[i].0@, v[i].1@, v[i].2@))
}

/// Identity, name and type of each of the entities.
pub fn entity_triples(entities: &Vec<Entity>) -> (r: Vec<(String, String, String)>)
    ensures
        triples_view(r@) == id_triples(view_all(entities@)),
{
    let ghost es = view_all(entities@);
    let mut out: Vec<(String, String, String)> = Vec::new();
    let mut i: usize = 0;
    while i < entities.len()
        invariant
            i <= entities.len(),
            es == view_all(entities@),
            out.len() == i,
            forall|k: int|
                0 <= k < i ==> ((#[trigger] out[k]).0@, out[k].1@, out[k].2@) == (
                    es[k].id,
                    es[k].name,
                    es[k].entity_type,
                ),
        decreases entities.len() - i,
    {
        let e = &entities[i];
        assert(es[i as int] == e@);
        out.push((e.id.clone(), e.name.clone(), e.entity_type.clone()));
        i += 1;
    }
    assert(triples_view(out@) =~= id_triples(es));
    out
}

/// The identity of the first of the entities that goes by the name `name`.
pub fn find_by_name(entities: &Vec<Entity>, name: &str) -> (r: Option<String>)
    ensures
        opt_string_view(r) == first_named(view_all(entities@), name@),
{
    let ghost es = view_all(entities@);
    let wanted = name.to_owned();
    let mut i: usize = 0;
    proof {
        assert(es.skip(0) =~= es);
    }
    while i < entities.len()
        invariant
            i <= entities.len(),
            es == view_all(entities@),
            wanted@ == name@,
            first_named(es, wanted@) == first_named(es.skip(i as int), wanted@),
        decreases entities.len() - i,
    {
        proof {
            assert(es.skip(i as int)[0] == entities@[i as int]@);
            assert(es.skip(i as int).skip(1) =~= es.skip(i + 1));
        }
        if entities[i].name == wanted {
            return Some(entities[i].id.clone());
        }
        i += 1;
    }
    None
}

/// Identity, name and type of every entity that the registry's parser
/// finds in a file, nested ones included; nothing where it has no parser
/// for the file.
pub fn extract_entity_ids(content: &str, file_path: &str, registry: &ParserRegistry) -> (r: Vec<
    (String, String, String),
>)
    ensures
        !parsed_names(*registry).contains(file_path@) ==> r@.len() == 0,
{
    let entities = match plugin_entities(registry, content, file_path) {
        Some(es) => es,
        None => Vec::new(),
    };
    let r = entity_triples(&entities);
    assert(triples_view(r@).len() == r@.len());
    r
}

/// The identity of the entity of a file that goes by the name
/// `entity_name`: the first such entity that the registry's parser finds;
/// none where the registry has no parser for the file.
pub fn resolve_entity_id(
    content: &str,
    file_path: &str,
    entity_name: &str,
    registry: &ParserRegistry,
) -> (r: Option<String>)
    ensures
        !parsed_names(*registry).contains(file_path@) ==> r is None,
{
    let entities = match plugin_entities(registry, content, file_path) {
        Some(es) => es,
        None => Vec::new(),
    };
    find_by_name(&entities, entity_name)
}

} // verus!
