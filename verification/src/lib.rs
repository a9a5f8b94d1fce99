//! Three-way merge of source files at the granularity of semantic entities.
//!
//! Given a base text and two texts derived from it, ours and theirs, the
//! merge pairs the functions, classes and other declarations of the three
//! by identity, resolves each pair on its own, and reassembles the file in
//! our order. Changes to different entities never collide; a collision is
//! reported for the entity it concerns, as a marker block in its place.
//!
//! # Modules
//!
//! - [`text`]: lines, trimming and joining over `Seq<char>`.
//! - [`conflict`]: kinds of conflict, their classification and rendering,
//!   and the counters of a merge.
//! - [`region`]: the partition of a file into entity regions and the
//!   interstitial regions around them.
//! - [`parser`]: the adapter to the registry of language parsers.
//! - [`linemerge`]: the line-level three-way merge underneath.
//! - [`resolve`]: the resolution of one entity.
//! - [`imports`], [`interstitial`]: the merge of the text between
//!   entities, import blocks as sets of lines.
//! - [`reconstruct`]: the reassembly of the merged file.
//! - [`separators`]: the expansion of separators for the fallback merge.
//! - [`merge`]: the driver, from [`entity_merge`] down to the fallback.
//! - [`maps`]: maps keyed by text.
//! - [`driver`], [`attributes`], [`claims`]: checks and rules for the
//!   programs around the merge.
//! - [`laws`], [`import_laws`], [`region_laws`], [`separator_laws`],
//!   [`order_laws`], [`outcome_laws`], [`count_laws`]: what holds of the
//!   merge, proved.
//!
//! # Contracts
//!
//! Every executable function states its result as a function of its
//! arguments' views. Two things come from outside: the line-level merge,
//! whose result is named rather than defined ([`linemerge::line_merge`]),
//! and the parsers. Which files a registry has a parser for is named
//! ([`parser::parsed_names`]); of what a parser finds in a text nothing is
//! assumed: the merge is stated for whatever entities came back
//! ([`merge::merge_outcome`]).

pub mod attributes;
pub mod claims;
pub mod conflict;
pub mod count_laws;
pub mod driver;
pub mod import_laws;
pub mod imports;
pub mod interstitial;
pub mod laws;
pub mod linemerge;
pub mod maps;
pub mod merge;
pub mod order_laws;
pub mod outcome_laws;
pub mod parser;
pub mod reconstruct;
pub mod region;
pub mod region_laws;
pub mod resolve;
pub mod separator_laws;
pub mod separators;
pub mod text;

pub use merge::{entity_merge, entity_merge_with_registry, MergeResult};
