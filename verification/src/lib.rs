//! A verified directory-listing engine: it classifies a requested path,
//! resolves the children of a listed directory from their raw metadata,
//! orders them deterministically, and renders the listing as JSON.

mod explorer;
mod json;
mod order;
mod roundtrip;
mod service;
mod sort;

pub use roundtrip::lemma_json_of_injective;

pub use service::{
    dropped, first_fatal, is_fatal, kept, path_within_root, query_directory, raw_models,
    scan_entries, scan_in_range, string_views, within_root, DirLookup, LookupModel, QueryModel,
    QueryReport, QueryResult,
};

pub use json::{
    dec_rep, digit_char, esc, esc_char, hex_char, json_items, json_of, json_of_entry, quoted,
    serialize_entries,
};

pub use sort::{lemma_sorted_shape, models, sort_entries, sorted};

pub use order::{
    chars_le, entry_le, lemma_chars_le_total, lemma_chars_le_trans, lemma_entry_le_total,
    lemma_entry_le_trans, name_of, rank_of,
};

pub use explorer::{
    http_date_of, mtimes_in_range, resolve_model, result_model, EntryModel, ErrorModel,
    ExplorerEntry, ExplorerError, MetaModel, MetaOutcome, RawEntry, RawModel,
    HTTP_DATE_SECS_LIMIT,
};
