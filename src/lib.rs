//! Graded, auditable trust assessments: neutrosophic judgments with a
//! conservation invariant, three fusion operators, conformance seals that
//! tie a fused judgment to its inputs, and content-derived identities.
//!
//! Degrees are fixed-point numbers: `SCALE` stands for 1.0.

mod canonical;
mod clock;
mod conformance;
mod digest;
mod error;
mod fusion;
mod judgment;
mod judgment_id;
mod mapper;
mod text;

pub use canonical::{
    chain_text, decimal, entry_text, escape_char, escaped, is_digit, joined, joined_after,
    joined_before, judgment_text, lemma_decimal_injective, lemma_decimal_shape, lemma_joined_split,
    lemma_splice_differs, metadata_text, metadata_value_text, nibble_char, optional_text, quoted,
};
pub use conformance::{
    create_fusion_provenance_entry, generate_conformance_seal, insert_idx, insert_pos, lemma_lex_total,
    lemma_seal_message_names_operator, lemma_seal_message_tracks_degrees,
    lemma_seal_order_invariant, lemma_sort_idx_permutes, lex_lt, lists_index, pair_text, seal_items,
    seal_key, sort_keys, sort_lt, key_views, lemma_lex_irreflexive, lemma_sort_lt_total, seal_message, seal_of, sort_idx, verify_conformance_seal,
    verify_conformance_seal_with_inputs, views,
};
pub use digest::{digest_hex, hex, sha256_hex, sha256_of};
pub use error::OpenTrustError;
pub use fusion::{
    adjusted_total, adjusted_weight, all_wf, cawa_degree, cawa_description, cawa_operator,
    conflict_aware_weighted_average, conflict_aware_weighted_average_at, degree, degree_sum,
    fused_view, fusion_entry, input_error, inputs_ok, joined_chains, lemma_conflict_below_one,
    lemma_floor_sum, lemma_optimistic_bounds, lemma_pessimistic_bounds, max_degree, mean_degree,
    min_degree, optimistic_degrees, optimistic_description, optimistic_fusion, optimistic_fusion_at,
    optimistic_operator, pessimistic_degrees, pessimistic_description, pessimistic_fusion,
    pessimistic_fusion_at, pessimistic_operator, rescaled, weight_total, weighted_sum, weights_metadata,
};
pub use judgment::{
    append_chain, bare_chain, chain_eq, chain_view, copy_entry, degree_error, entry_eq,
    expected_error, metadata_view, opt_text, pairs_view, valid_chain, valid_degrees, valid_entry,
    validate, validate_degrees, within, EntryView, JudgmentView, MetadataValue, MetadataView,
    NeutrosophicJudgment, ProvenanceEntry, SCALE,
};
pub use judgment_id::{
    ensure_judgment_id, generate_judgment_id, identity_of, lemma_identity_stable, OutcomeJudgment,
    OutcomeType,
};
pub use mapper::{
    boolean_text, create_timestamp, false_word, lower_of, normalize_boolean_input,
    normalize_boolean_text, trim_end, trim_start, trimmed, true_word, BooleanInput, InputError,
    MapperError, MapperType, ValidationResult,
};
pub use text::{is_blank, is_blank_str, is_whitespace_char};
