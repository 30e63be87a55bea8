//! Interning of values: each distinct value gets a dense, stable identifier,
//! handed out in the order values are first seen.

mod deref;
mod indexer;
mod key;
mod laws;
mod render;

pub use deref::DupIndexerRefs;
pub use indexer::{has_key, has_target, interned, key_position, keys_distinct, DupIndexer};
pub use key::{seq_same_key, PtrRead, StableDerefKey};
pub use render::{decimal, digit_char, entries_text, entry_text, map_text};
pub use laws::{
    copies, distinct_count, first_seen, id_at, intern_all, intern_from, lemma_dense_ids, lemma_idempotent,
    lemma_length, lemma_round_trip, lemma_same_id_iff_same_key,
};
