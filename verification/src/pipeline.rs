//! The per-file pipeline: from one parsed record to one scheduled write.
//!
//! For one parseable record the pipeline extracts the real patient
//! identifier, resolves its pseudonymous code through the identity map,
//! rewrites the direct-identifier elements to that code, masks every
//! temporal and demographic element, derives the output path and claims a
//! collision-free final path. Any failure leaves the identity map and the
//! path registry exactly as they were, so the dispatcher can quarantine the
//! original file untouched.

use vstd::prelude::*;

use crate::identity::prefixed_code;
use crate::identity::IdentityMap;
use crate::masker::date_time_masked;
use crate::masker::dicom_anon_date_time;
use crate::masker::masked_temporal;
use crate::masker::sentinel_age;
use crate::masker::sentinel_sex;
use crate::paths::PathRegistry;
use crate::record::DicomField;
use crate::record::DicomRecord;
use crate::record::Vr;
use crate::record::TAG_PATIENT_AGE;
use crate::record::TAG_PATIENT_ID;
use crate::record::TAG_PATIENT_NAME;
use crate::record::TAG_PATIENT_SEX;

verus! {

/// Why the pipeline rejected one record. Every rejection routes the
/// original file to quarantine.
#[derive(Clone, Copy, PartialEq, Eq, Structural, Debug)]
pub enum PipelineError {
    /// The record lacks the patient identifier element, or it is empty.
    MissingIdentifier,
}

/// One deferred write: the fully anonymized record and the collision-free
/// path it must be written to.
pub struct WriteJob {
    /// The record to write.
    pub record: DicomRecord,
    /// The claimed output path.
    pub path: String,
}

/// Extracts the real patient identifier from the record's well-known
/// identifier element. Fails exactly when the element is absent or empty.
pub fn extract_patient_id(rec: &DicomRecord) -> (r: Result<String, PipelineError>)
    requires
        rec.wf(),
    ensures
        match r {
            Ok(id) => rec.has_tag(TAG_PATIENT_ID) && id@ == rec.spec_field(TAG_PATIENT_ID).value@
                && id@.len() > 0,
            Err(e) => e == PipelineError::MissingIdentifier && (!rec.has_tag(TAG_PATIENT_ID)
                || rec.spec_field(TAG_PATIENT_ID).value@.len() == 0),
        },
{
    match rec.get_value(TAG_PATIENT_ID) {
        Some(id) => {
            if id.as_str().is_empty() {
                Err(PipelineError::MissingIdentifier)
            } else {
                Ok(id)
            }
        },
        None => Err(PipelineError::MissingIdentifier),
    }
}

/// A deep copy of a record, element by element.
fn clone_record(rec: &DicomRecord) -> (r: DicomRecord)
    ensures
        r.fields@ == rec.fields@,
{
    let n = rec.fields.len();
    let mut out: Vec<DicomField> = Vec::new();
    let mut i: usize = 0;
    while i < n
        invariant
            0 <= i <= n,
            n == rec.fields@.len(),
            out@.len() == i,
            forall|k: int| 0 <= k < i ==> #[trigger] out@[k] == rec.fields@[k],
        decreases n - i,
    {
        let f = &rec.fields[i];
        out.push(DicomField { tag: f.tag, vr: f.vr, value: f.value.clone() });
        i += 1;
    }
    proof {
        assert(out@ =~= rec.fields@);
    }
    DicomRecord { fields: out }
}

/// Rewrites the direct-identifier elements — patient identifier and patient
/// name — to the pseudonymous code, inserting them if absent.
pub fn rewrite_identifiers(rec: &DicomRecord, code: &String) -> (r: DicomRecord)
    requires
        rec.wf(),
    ensures
        r.wf(),
        r.rec_map() == rec.rec_map().insert(
            TAG_PATIENT_ID,
            (DicomField { tag: TAG_PATIENT_ID, vr: Vr::Other, value: *code }),
        ).insert(
            TAG_PATIENT_NAME,
            (DicomField { tag: TAG_PATIENT_NAME, vr: Vr::Other, value: *code }),
        ),
{
    let mut r = clone_record(rec);
    proof {
        assert(r.rec_map() =~= rec.rec_map());
    }
    r.put(TAG_PATIENT_ID, Vr::Other, code.clone());
    r.put(TAG_PATIENT_NAME, Vr::Other, code.clone());
    r
}

/// The candidate output path derived from the destination root and the
/// pseudonymous code: a directory per patient code, a file name from the
/// code and the fixed purpose tag.
pub open spec fn candidate_path_spec(dest: Seq<char>, code: Seq<char>) -> Seq<char> {
    dest + "/"@ + code + "/"@ + code + "_ANON"@
}

/// Derives the candidate output path for a record anonymized under `code`.
pub fn derive_candidate_path(dest: &String, code: &String) -> (r: String)
    ensures
        r@ == candidate_path_spec(dest@, code@),
{
    let mut r = dest.clone();
    r.append("/");
    r.append(code.as_str());
    r.append("/");
    r.append(code.as_str());
    r.append("_ANON");
    r
}

/// How a fully anonymized output record relates to the original: the
/// direct-identifier elements hold the pseudonymous code, the age and sex
/// elements hold their sentinels, every temporal element holds its
/// sentinel, and every other element is untouched.
pub open spec fn anonymized(orig: DicomRecord, code: Seq<char>, out: DicomRecord) -> bool {
    &&& out.rec_map().dom() == orig.rec_map().dom().insert(TAG_PATIENT_ID).insert(
        TAG_PATIENT_NAME,
    ).insert(TAG_PATIENT_AGE).insert(TAG_PATIENT_SEX)
    &&& out.spec_field(TAG_PATIENT_ID).value@ == code
    &&& out.spec_field(TAG_PATIENT_NAME).value@ == code
    &&& out.spec_field(TAG_PATIENT_AGE).value@ == sentinel_age()
    &&& out.spec_field(TAG_PATIENT_SEX).value@ == sentinel_sex()
    &&& forall|t: u32|
        #[trigger] orig.has_tag(t) && t != TAG_PATIENT_ID && t != TAG_PATIENT_NAME && t
            != TAG_PATIENT_AGE && t != TAG_PATIENT_SEX ==> out.spec_field(t).vr == orig.spec_field(
            t,
        ).vr && out.spec_field(t).value@ == masked_temporal(
            orig.spec_field(t).vr,
            orig.spec_field(t).value@,
        )
}

/// Processes one parsed record: resolves the pseudonymous code, rewrites
/// the identifiers, masks the record, and claims a collision-free output
/// path for the deferred write. On failure the identity map and the path
/// registry are left untouched.
pub fn anon_each_dcm_file(
    rec: &DicomRecord,
    dest: &String,
    map: &mut IdentityMap,
    prefix: &String,
    fresh: String,
    registry: &mut PathRegistry,
) -> (r: Result<WriteJob, PipelineError>)
    requires
        rec.wf(),
        old(map).wf(),
    ensures
        final(map).wf(),
        old(map)@.submap_of(final(map)@),
        match r {
            Ok(job) => {
                &&& rec.has_tag(TAG_PATIENT_ID)
                &&& rec.spec_field(TAG_PATIENT_ID).value@.len() > 0
                &&& final(map)@.contains_key(rec.spec_field(TAG_PATIENT_ID).value@)
                &&& job.record.wf()
                &&& anonymized(
                    *rec,
                    final(map)@[rec.spec_field(TAG_PATIENT_ID).value@],
                    job.record,
                )
                &&& (old(map)@.contains_key(rec.spec_field(TAG_PATIENT_ID).value@)
                    ==> final(map)@ == old(map)@)
                &&& (!old(map)@.contains_key(rec.spec_field(TAG_PATIENT_ID).value@)
                    ==> final(map)@ == old(map)@.insert(
                        rec.spec_field(TAG_PATIENT_ID).value@,
                        prefixed_code(prefix@, fresh@),
                    ))
                &&& !old(registry).paths().contains(job.path@)
                &&& final(registry).paths() == old(registry).paths().insert(job.path@)
                &&& (!old(registry).paths().contains(
                    candidate_path_spec(
                        dest@,
                        final(map)@[rec.spec_field(TAG_PATIENT_ID).value@],
                    ),
                ) ==> job.path@ == candidate_path_spec(
                    dest@,
                    final(map)@[rec.spec_field(TAG_PATIENT_ID).value@],
                ))
            },
            Err(e) => {
                &&& e == PipelineError::MissingIdentifier
                &&& (!rec.has_tag(TAG_PATIENT_ID) || rec.spec_field(
                    TAG_PATIENT_ID,
                ).value@.len() == 0)
                &&& final(map)@ == old(map)@
                &&& *final(registry) == *old(registry)
            },
        },
{
    let id = match extract_patient_id(rec) {
        Ok(id) => id,
        Err(e) => {
            return Err(e);
        },
    };
    let code = map.resolve(&id, prefix, fresh);
    let rewritten = rewrite_identifiers(rec, &code);
    let masked = dicom_anon_date_time(&rewritten);
    proof {
        lemma_anonymized(*rec, rewritten, masked, code);
    }
    let candidate = derive_candidate_path(dest, &code);
    let path = registry.claim(candidate);
    Ok(WriteJob { record: masked, path })
}

/// Rewriting the identifiers to the code and then masking yields an
/// anonymized record.
proof fn lemma_anonymized(orig: DicomRecord, mid: DicomRecord, out: DicomRecord, codev: String)
    requires
        orig.wf(),
        mid.wf(),
        out.wf(),
        mid.rec_map() == orig.rec_map().insert(
            TAG_PATIENT_ID,
            (DicomField { tag: TAG_PATIENT_ID, vr: Vr::Other, value: codev }),
        ).insert(
            TAG_PATIENT_NAME,
            (DicomField { tag: TAG_PATIENT_NAME, vr: Vr::Other, value: codev }),
        ),
        date_time_masked(mid, out),
    ensures
        anonymized(orig, codev@, out),
{
    assert(mid.rec_map().dom() =~= orig.rec_map().dom().insert(TAG_PATIENT_ID).insert(
        TAG_PATIENT_NAME,
    ));
    assert(out.rec_map().dom() =~= orig.rec_map().dom().insert(TAG_PATIENT_ID).insert(
        TAG_PATIENT_NAME,
    ).insert(TAG_PATIENT_AGE).insert(TAG_PATIENT_SEX));
    assert(mid.rec_map().dom().contains(TAG_PATIENT_ID));
    assert(mid.has_tag(TAG_PATIENT_ID));
    assert(mid.spec_field(TAG_PATIENT_ID) == mid.rec_map()[TAG_PATIENT_ID]);
    assert(mid.spec_field(TAG_PATIENT_ID).vr == Vr::Other);
    assert(mid.spec_field(TAG_PATIENT_ID).value@ == codev@);
    assert(out.spec_field(TAG_PATIENT_ID).value@ == codev@);
    assert(mid.rec_map().dom().contains(TAG_PATIENT_NAME));
    assert(mid.has_tag(TAG_PATIENT_NAME));
    assert(mid.spec_field(TAG_PATIENT_NAME) == mid.rec_map()[TAG_PATIENT_NAME]);
    assert(mid.spec_field(TAG_PATIENT_NAME).vr == Vr::Other);
    assert(out.spec_field(TAG_PATIENT_NAME).value@ == codev@);
    assert forall|t: u32|
        #[trigger] orig.has_tag(t) && t != TAG_PATIENT_ID && t != TAG_PATIENT_NAME && t
            != TAG_PATIENT_AGE && t != TAG_PATIENT_SEX implies out.spec_field(t).vr
        == orig.spec_field(t).vr && out.spec_field(t).value@ == masked_temporal(
        orig.spec_field(t).vr,
        orig.spec_field(t).value@,
    ) by {
        assert(orig.rec_map().dom().contains(t));
        assert(mid.rec_map().dom().contains(t));
        assert(mid.has_tag(t));
        assert(mid.rec_map()[t] == orig.rec_map()[t]);
        assert(mid.spec_field(t) == mid.rec_map()[t]);
        assert(orig.spec_field(t) == orig.rec_map()[t]);
    }
}

} // verus!
