//! A batch find-and-replace engine over a structured record store.
//!
//! A compiled pattern substitution is applied across many records grouped by
//! schema, optionally restricted to one named field, and the run reports how
//! many records actually changed — atomically, as a single all-or-nothing
//! operation.

mod engine;
mod errors;
mod grouping;
mod laws;
mod pattern;
mod store;

pub use engine::{
    all_records_present, all_schemas_present, apply_updates_spec, changed_count, collect_updates,
    lemma_apply_updates_effect, lemma_collect_updates_props, ord_view, record_changes,
    record_result, resolved_ord, subst_fields, targeted, update_ids,
};
pub use errors::FindReplaceError;
pub use laws::{
    lemma_empty_batch, lemma_field_fallback, lemma_no_change_no_writes, lemma_unchanged_fields,
};
pub use grouping::{flatten_groups, group_pairs, group_runs, keyed, lemma_group_runs_flatten};
pub use pattern::{opt_text_view, pattern_ok, replaced, FindReplaceContext};
pub use store::{field_ord_spec, lemma_field_ord_spec, Collection, Record, Schema};
