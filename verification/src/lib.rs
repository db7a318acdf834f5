//! De-identification core for trees of medical imaging records.
//!
//! The crate models one anonymization run: a shared identity map assigns a
//! stable pseudonymous code to each real patient identifier, a masker replaces
//! every date-, time- and date-time-valued field of a parsed record with fixed
//! sentinel values, a per-file pipeline routes each record towards a written,
//! quarantined or passed-through outcome, and a path registry guarantees that
//! no scheduled write silently overwrites an earlier one.

mod counters;
mod identity;
mod masker;
mod paths;
mod pipeline;
mod record;
mod run;

pub use counters::CompletionBarrier;
pub use counters::RunCounters;

pub use identity::codes_injective;
pub use identity::format_code;
pub use identity::lemma_consistency;
pub use identity::lemma_insert_preserves_injective;
pub use identity::lemma_map_of_contains;
pub use identity::lemma_map_of_get;
pub use identity::lemma_map_of_len;
pub use identity::lemma_prefixed_code_injective;
pub use identity::lemma_uniqueness;
pub use identity::map_of;
pub use identity::prefixed_code;
pub use identity::IdentityMap;

pub use masker::date_time_masked;
pub use masker::dicom_anon_date_time;
pub use masker::lemma_masking_completeness;
pub use masker::mask_all_vr;
pub use masker::masked_temporal;
pub use masker::sentinel_age;
pub use masker::sentinel_age_value;
pub use masker::sentinel_date;
pub use masker::sentinel_date_time;
pub use masker::sentinel_date_time_value;
pub use masker::sentinel_date_value;
pub use masker::sentinel_sex;
pub use masker::sentinel_sex_value;
pub use masker::sentinel_time;
pub use masker::sentinel_time_value;

pub use paths::lemma_no_silent_overwrite;
pub use paths::PathRegistry;

pub use pipeline::anon_each_dcm_file;
pub use pipeline::anonymized;
pub use pipeline::candidate_path_spec;
pub use pipeline::derive_candidate_path;
pub use pipeline::extract_patient_id;
pub use pipeline::rewrite_identifiers;
pub use pipeline::PipelineError;
pub use pipeline::WriteJob;

pub use record::lemma_rec_map_push;
pub use record::lemma_rec_map_update;
pub use record::lemma_same_tags;
pub use record::DicomField;
pub use record::DicomRecord;
pub use record::Vr;
pub use record::TAG_PATIENT_AGE;
pub use record::TAG_PATIENT_ID;
pub use record::TAG_PATIENT_NAME;
pub use record::TAG_PATIENT_SEX;

pub use run::codes_from;
pub use run::count_done;
pub use run::count_in;
pub use run::dicom_anon;
pub use run::fresh_distinct;
pub use run::input_ok;
pub use run::lemma_codes_from_widen;
pub use run::lemma_count_partition;
pub use run::lemma_count_zero;
pub use run::lemma_outcome_partition;
pub use run::routed;
pub use run::FileInput;
pub use run::FileState;
pub use run::RunState;
pub use run::ScheduledWrite;
