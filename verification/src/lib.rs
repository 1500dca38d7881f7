//! Differences between versions of a JSON or JSON-LD document, with proofs.
//!
//! Three notions of difference are offered: a structural delta (a tree edit
//! script), an operational delta (a timestamped operation log) and a semantic
//! delta (a difference of the sets of RDF triples two documents denote).
//! Every function states its result over the mathematical model of a
//! document, [`value::Json`].

pub mod array_round_trip;
pub mod bytes;
pub mod cache;
pub mod canonical;
pub mod canonical_laws;
pub mod contexts;
pub mod delta;
pub mod delta_laws;
pub mod diff;
pub mod documents;
pub mod expand;
pub mod flags;
pub mod hash;
pub mod hash_list;
pub mod json_text;
pub mod key_set;
pub mod move_laws;
pub mod move_round_trip;
pub mod nquads;
pub mod operational;
pub mod options;
pub mod patch;
pub mod replay_laws;
pub mod reports;
pub mod round_trip;
pub mod semantic;
pub mod semantic_patch;
pub mod text;
pub mod text_round_trip;
pub mod triples;
pub mod value;
pub mod value_index;
pub mod versions;
