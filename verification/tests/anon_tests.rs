//! End-to-end and unit tests of the de-identification core.

use dcm_anon::dicom_anon;
use dcm_anon::derive_candidate_path;
use dcm_anon::dicom_anon_date_time;
use dcm_anon::extract_patient_id;
use dcm_anon::format_code;
use dcm_anon::mask_all_vr;
use dcm_anon::rewrite_identifiers;
use dcm_anon::sentinel_age_value;
use dcm_anon::sentinel_date_time_value;
use dcm_anon::sentinel_date_value;
use dcm_anon::sentinel_sex_value;
use dcm_anon::sentinel_time_value;
use dcm_anon::CompletionBarrier;
use dcm_anon::DicomField;
use dcm_anon::DicomRecord;
use dcm_anon::FileInput;
use dcm_anon::FileState;
use dcm_anon::IdentityMap;
use dcm_anon::PathRegistry;
use dcm_anon::PipelineError;
use dcm_anon::RunCounters;
use dcm_anon::Vr;
use dcm_anon::TAG_PATIENT_AGE;
use dcm_anon::TAG_PATIENT_ID;
use dcm_anon::TAG_PATIENT_NAME;
use dcm_anon::TAG_PATIENT_SEX;

fn field(tag: u32, vr: Vr, value: &str) -> DicomField {
    DicomField { tag, vr, value: value.to_string() }
}

fn value_of(rec: &DicomRecord, tag: u32) -> Option<String> {
    for f in &rec.fields {
        if f.tag == tag {
            return Some(f.value.clone());
        }
    }
    None
}

fn sample_record(patient_id: &str) -> DicomRecord {
    DicomRecord {
        fields: vec![
            field(TAG_PATIENT_ID, Vr::Other, patient_id),
            field(TAG_PATIENT_NAME, Vr::Other, "DOE^JOHN"),
            field(0x0008_0020, Vr::Date, "20200131"),
            field(0x0008_0030, Vr::Time, "142530"),
            field(0x0008_002A, Vr::DateTime, "20200131142530"),
            field(TAG_PATIENT_AGE, Vr::AgeString, "045Y"),
            field(TAG_PATIENT_SEX, Vr::CodeString, "M"),
            field(0x0008_0060, Vr::Other, "CT"),
        ],
    }
}

#[test]
fn sentinels_have_expected_values() {
    assert_eq!(sentinel_date_value(), "19000101");
    assert_eq!(sentinel_time_value(), "090000");
    assert_eq!(sentinel_date_time_value(), "19000101090000");
    assert_eq!(sentinel_age_value(), "099Y");
    assert_eq!(sentinel_sex_value(), "O");
}

#[test]
fn format_code_with_prefix() {
    let prefix = "STUDY1".to_string();
    let code = format_code(&prefix, "A1B2".to_string());
    assert_eq!(code, "STUDY1_A1B2");
}

#[test]
fn format_code_without_prefix() {
    let prefix = String::new();
    let code = format_code(&prefix, "A1B2".to_string());
    assert_eq!(code, "A1B2");
}

#[test]
fn mask_all_vr_replaces_only_matching_representation() {
    let rec = sample_record("P001");
    let date = sentinel_date_value();
    let masked = mask_all_vr(&rec, Vr::Date, &date);
    assert_eq!(value_of(&masked, 0x0008_0020).unwrap(), "19000101");
    assert_eq!(value_of(&masked, 0x0008_0030).unwrap(), "142530");
    assert_eq!(value_of(&masked, 0x0008_0060).unwrap(), "CT");
}

#[test]
fn masking_overwrites_all_temporal_and_demographic_fields() {
    let rec = sample_record("P001");
    let masked = dicom_anon_date_time(&rec);
    assert_eq!(value_of(&masked, 0x0008_0020).unwrap(), "19000101");
    assert_eq!(value_of(&masked, 0x0008_0030).unwrap(), "090000");
    assert_eq!(value_of(&masked, 0x0008_002A).unwrap(), "19000101090000");
    assert_eq!(value_of(&masked, TAG_PATIENT_AGE).unwrap(), "099Y");
    assert_eq!(value_of(&masked, TAG_PATIENT_SEX).unwrap(), "O");
    assert_eq!(value_of(&masked, 0x0008_0060).unwrap(), "CT");
    assert_eq!(value_of(&masked, TAG_PATIENT_ID).unwrap(), "P001");
}

#[test]
fn masking_creates_absent_age_and_sex() {
    let rec = DicomRecord {
        fields: vec![
            field(TAG_PATIENT_ID, Vr::Other, "P001"),
            field(0x0008_0020, Vr::Date, "19991231"),
        ],
    };
    let masked = dicom_anon_date_time(&rec);
    assert_eq!(value_of(&masked, TAG_PATIENT_AGE).unwrap(), "099Y");
    assert_eq!(value_of(&masked, TAG_PATIENT_SEX).unwrap(), "O");
}

#[test]
fn extract_patient_id_present() {
    let rec = sample_record("P007");
    assert_eq!(extract_patient_id(&rec).unwrap(), "P007");
}

#[test]
fn extract_patient_id_absent_is_missing_identifier() {
    let rec = DicomRecord { fields: vec![field(0x0008_0060, Vr::Other, "CT")] };
    assert_eq!(extract_patient_id(&rec).unwrap_err(), PipelineError::MissingIdentifier);
}

#[test]
fn extract_patient_id_empty_is_missing_identifier() {
    let rec = DicomRecord { fields: vec![field(TAG_PATIENT_ID, Vr::Other, "")] };
    assert_eq!(extract_patient_id(&rec).unwrap_err(), PipelineError::MissingIdentifier);
}

#[test]
fn rewrite_identifiers_sets_id_and_name() {
    let rec = sample_record("P001");
    let code = "STUDY1_X9".to_string();
    let out = rewrite_identifiers(&rec, &code);
    assert_eq!(value_of(&out, TAG_PATIENT_ID).unwrap(), "STUDY1_X9");
    assert_eq!(value_of(&out, TAG_PATIENT_NAME).unwrap(), "STUDY1_X9");
    assert_eq!(value_of(&out, 0x0008_0060).unwrap(), "CT");
}

#[test]
fn identity_map_is_consistent_across_resolves() {
    let mut map = IdentityMap::new();
    let id = "P001".to_string();
    let prefix = String::new();
    let c1 = map.resolve(&id, &prefix, "F1".to_string());
    let c2 = map.resolve(&id, &prefix, "F2".to_string());
    assert_eq!(c1, c2);
    assert_eq!(map.len(), 1);
    assert_eq!(map.get(&id).unwrap(), c1);
}

#[test]
fn identity_map_distinct_ids_get_distinct_codes() {
    let mut map = IdentityMap::new();
    let prefix = "S".to_string();
    let c1 = map.resolve(&"P001".to_string(), &prefix, "F1".to_string());
    let c2 = map.resolve(&"P002".to_string(), &prefix, "F2".to_string());
    assert_ne!(c1, c2);
    assert_eq!(map.len(), 2);
}

#[test]
fn path_registry_never_hands_out_a_path_twice() {
    let mut reg = PathRegistry::new();
    let p1 = reg.claim("out/a".to_string());
    assert_eq!(p1, "out/a");
    let p2 = reg.claim("out/a".to_string());
    assert_ne!(p1, p2);
    assert!(reg.is_claimed(&p1));
    assert!(reg.is_claimed(&p2));
    let p3 = reg.claim("out/a".to_string());
    assert_ne!(p3, p1);
    assert_ne!(p3, p2);
}

#[test]
fn derive_candidate_path_is_deterministic() {
    let dest = "/dest".to_string();
    let code = "STUDY1_X9".to_string();
    let p = derive_candidate_path(&dest, &code);
    assert_eq!(p, "/dest/STUDY1_X9/STUDY1_X9_ANON");
}

#[test]
fn counters_partition_holds() {
    let mut c = RunCounters::new(3);
    c.record_passthrough();
    c.record_quarantine();
    c.record_scheduled();
    assert_eq!(c.total, 3);
    assert_eq!(c.dispatched, 3);
    assert_eq!(c.failed, 1);
    assert_eq!(c.passthrough, 1);
    assert!(c.failed + c.passthrough <= c.total);
}

#[test]
fn barrier_blocks_until_every_write_finished() {
    let mut b = CompletionBarrier::new();
    assert!(b.all_finished());
    b.register();
    b.register();
    assert!(!b.all_finished());
    b.finish_one();
    assert!(!b.all_finished());
    b.finish_one();
    assert!(b.all_finished());
}

#[test]
fn same_patient_dispatched_twice_gets_one_code() {
    let files = vec![
        FileInput::Dicom(sample_record("P001")),
        FileInput::Dicom(sample_record("P001")),
    ];
    let dest = "/dest".to_string();
    let prefix = String::new();
    let fresh = vec!["F1".to_string(), "F2".to_string()];
    let mut run = dicom_anon(&files, &dest, &prefix, &fresh);
    assert_eq!(run.states, vec![FileState::WriteScheduled, FileState::WriteScheduled]);
    assert_eq!(run.writes_len(), 2);
    let code0 = value_of(&run.write_at(0).record, TAG_PATIENT_ID).unwrap();
    let code1 = value_of(&run.write_at(1).record, TAG_PATIENT_ID).unwrap();
    assert_eq!(code0, code1);
    assert_eq!(run.map.len(), 1);
    assert_eq!(run.map.get(&"P001".to_string()).unwrap(), code0);
    let path0 = run.write_at(0).path.clone();
    let path1 = run.write_at(1).path.clone();
    assert_ne!(path0, path1);
    run.complete_write(0);
    run.complete_write(1);
    assert!(run.all_writes_finished());
    assert_eq!(run.states, vec![FileState::Written, FileState::Written]);
}

#[test]
fn non_parseable_file_is_passed_through() {
    let files = vec![FileInput::NotDicom];
    let dest = "/dest".to_string();
    let prefix = String::new();
    let fresh = vec!["F1".to_string()];
    let run = dicom_anon(&files, &dest, &prefix, &fresh);
    assert_eq!(run.states, vec![FileState::Copied]);
    let (total, failed, passthrough) = run.report();
    assert_eq!(total, 1);
    assert_eq!(failed, 0);
    assert_eq!(passthrough, 1);
    assert!(run.all_writes_finished());
}

#[test]
fn record_without_identifier_is_quarantined() {
    let rec = DicomRecord { fields: vec![field(0x0008_0020, Vr::Date, "20200101")] };
    let files = vec![FileInput::Dicom(rec)];
    let dest = "/dest".to_string();
    let prefix = String::new();
    let fresh = vec!["F1".to_string()];
    let run = dicom_anon(&files, &dest, &prefix, &fresh);
    assert_eq!(run.states, vec![FileState::Quarantined]);
    let (total, failed, passthrough) = run.report();
    assert_eq!(total, 1);
    assert_eq!(failed, 1);
    assert_eq!(passthrough, 0);
}

#[test]
fn prefixed_run_masks_and_names_one_record() {
    let files = vec![FileInput::Dicom(sample_record("P002"))];
    let dest = "/dest".to_string();
    let prefix = "STUDY1".to_string();
    let fresh = vec!["T0K3N".to_string()];
    let run = dicom_anon(&files, &dest, &prefix, &fresh);
    assert_eq!(run.states, vec![FileState::WriteScheduled]);
    let job = run.write_at(0);
    let code = value_of(&job.record, TAG_PATIENT_ID).unwrap();
    assert_eq!(code, "STUDY1_T0K3N");
    assert!(code.starts_with("STUDY1_"));
    assert_eq!(value_of(&job.record, 0x0008_0020).unwrap(), "19000101");
    assert_eq!(value_of(&job.record, 0x0008_0030).unwrap(), "090000");
    assert_eq!(value_of(&job.record, 0x0008_002A).unwrap(), "19000101090000");
    assert_eq!(value_of(&job.record, TAG_PATIENT_AGE).unwrap(), "099Y");
    assert_eq!(value_of(&job.record, TAG_PATIENT_SEX).unwrap(), "O");
    assert_eq!(job.path, "/dest/STUDY1_T0K3N/STUDY1_T0K3N_ANON");
}

#[test]
fn masking_is_representation_driven() {
    // A birth date is masked because its representation is date-only, not
    // because of which attribute it encodes.
    let rec = DicomRecord {
        fields: vec![
            field(TAG_PATIENT_ID, Vr::Other, "P001"),
            field(0x0010_0030, Vr::Date, "19840422"),
        ],
    };
    let masked = dicom_anon_date_time(&rec);
    assert_eq!(value_of(&masked, 0x0010_0030).unwrap(), "19000101");
}

#[test]
fn distinct_patients_in_one_run_get_distinct_codes() {
    let files = vec![
        FileInput::Dicom(sample_record("P001")),
        FileInput::Dicom(sample_record("P002")),
    ];
    let dest = "/dest".to_string();
    let prefix = "STUDY1".to_string();
    let fresh = vec!["F1".to_string(), "F2".to_string()];
    let run = dicom_anon(&files, &dest, &prefix, &fresh);
    let code0 = value_of(&run.write_at(0).record, TAG_PATIENT_ID).unwrap();
    let code1 = value_of(&run.write_at(1).record, TAG_PATIENT_ID).unwrap();
    assert_ne!(code0, code1);
    assert_eq!(code0, "STUDY1_F1");
    assert_eq!(code1, "STUDY1_F2");
    assert_eq!(run.map.len(), 2);
}

#[test]
fn mixed_run_partitions_outcomes() {
    let files = vec![
        FileInput::NotDicom,
        FileInput::Dicom(DicomRecord { fields: vec![field(TAG_PATIENT_ID, Vr::Other, "")] }),
        FileInput::Dicom(sample_record("P003")),
    ];
    let dest = "/dest".to_string();
    let prefix = String::new();
    let fresh = vec!["F1".to_string(), "F2".to_string(), "F3".to_string()];
    let mut run = dicom_anon(&files, &dest, &prefix, &fresh);
    assert_eq!(
        run.states,
        vec![FileState::Copied, FileState::Quarantined, FileState::WriteScheduled]
    );
    let (total, failed, passthrough) = run.report();
    assert_eq!((total, failed, passthrough), (3, 1, 1));
    assert!(failed + passthrough <= total);
    assert!(!run.all_writes_finished());
    run.complete_write(0);
    assert!(run.all_writes_finished());
    assert_eq!(
        run.states,
        vec![FileState::Copied, FileState::Quarantined, FileState::Written]
    );
}
