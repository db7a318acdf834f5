//! Temporal and demographic masking of one parsed record.
//!
//! Masking is representation-driven: every element whose declared value
//! representation is date-only, time-only or date-and-time is replaced by the
//! matching fixed sentinel, whatever attribute it encodes. The age and sex
//! elements are then forced to their sentinels, created if absent.

use vstd::prelude::*;

use crate::record::lemma_rec_map_update;
use crate::record::lemma_same_tags;
use crate::record::DicomField;
use crate::record::DicomRecord;
use crate::record::Vr;
use crate::record::TAG_PATIENT_AGE;
use crate::record::TAG_PATIENT_SEX;

verus! {

/// The sentinel calendar date: a clearly non-real date.
pub open spec fn sentinel_date() -> Seq<char> {
    "19000101"@
}

/// The sentinel time of day.
pub open spec fn sentinel_time() -> Seq<char> {
    "090000"@
}

/// The sentinel combined date-and-time value.
pub open spec fn sentinel_date_time() -> Seq<char> {
    "19000101090000"@
}

/// The sentinel age.
pub open spec fn sentinel_age() -> Seq<char> {
    "099Y"@
}

/// The sentinel sex.
pub open spec fn sentinel_sex() -> Seq<char> {
    "O"@
}

/// Builds the sentinel date as an owned string.
pub fn sentinel_date_value() -> (r: String)
    ensures
        r@ == sentinel_date(),
{
    String::from_str("19000101")
}

/// Builds the sentinel time as an owned string.
pub fn sentinel_time_value() -> (r: String)
    ensures
        r@ == sentinel_time(),
{
    String::from_str("090000")
}

/// Builds the sentinel combined date-and-time as an owned string.
pub fn sentinel_date_time_value() -> (r: String)
    ensures
        r@ == sentinel_date_time(),
{
    String::from_str("19000101090000")
}

/// Builds the sentinel age as an owned string.
pub fn sentinel_age_value() -> (r: String)
    ensures
        r@ == sentinel_age(),
{
    String::from_str("099Y")
}

/// Builds the sentinel sex as an owned string.
pub fn sentinel_sex_value() -> (r: String)
    ensures
        r@ == sentinel_sex(),
{
    String::from_str("O")
}

/// The value a temporal element takes after masking: the sentinel matching
/// its representation, or its original value for any other representation.
pub open spec fn masked_temporal(vr: Vr, orig: Seq<char>) -> Seq<char> {
    match vr {
        Vr::Date => sentinel_date(),
        Vr::Time => sentinel_time(),
        Vr::DateTime => sentinel_date_time(),
        _ => orig,
    }
}

/// How a fully masked record `b` relates to the record `a` it was built
/// from: every temporal element is replaced by its sentinel, the age and sex
/// elements hold their sentinels, and every other element is unchanged.
pub open spec fn date_time_masked(a: DicomRecord, b: DicomRecord) -> bool {
    &&& b.rec_map().dom() == a.rec_map().dom().insert(TAG_PATIENT_AGE).insert(TAG_PATIENT_SEX)
    &&& b.spec_field(TAG_PATIENT_AGE) == (DicomField {
        tag: TAG_PATIENT_AGE,
        vr: Vr::AgeString,
        value: b.spec_field(TAG_PATIENT_AGE).value,
    })
    &&& b.spec_field(TAG_PATIENT_AGE).value@ == sentinel_age()
    &&& b.spec_field(TAG_PATIENT_SEX) == (DicomField {
        tag: TAG_PATIENT_SEX,
        vr: Vr::CodeString,
        value: b.spec_field(TAG_PATIENT_SEX).value,
    })
    &&& b.spec_field(TAG_PATIENT_SEX).value@ == sentinel_sex()
    &&& forall|t: u32|
        #[trigger] a.has_tag(t) && t != TAG_PATIENT_AGE && t != TAG_PATIENT_SEX
            ==> b.spec_field(t).tag == t && b.spec_field(t).vr == a.spec_field(t).vr
            && b.spec_field(t).value@ == masked_temporal(
            a.spec_field(t).vr,
            a.spec_field(t).value@,
        )
}

/// Replaces the value of every element whose representation equals `vr` with
/// `value`, leaving every other element untouched.
pub fn mask_all_vr(rec: &DicomRecord, vr: Vr, value: &String) -> (r: DicomRecord)
    requires
        rec.wf(),
    ensures
        r.wf(),
        r.fields@.len() == rec.fields@.len(),
        forall|k: int|
            0 <= k < rec.fields@.len() ==> (#[trigger] r.fields@[k]).tag == rec.fields@[k].tag
                && r.fields@[k].vr == rec.fields@[k].vr && r.fields@[k].value@ == (
            if rec.fields@[k].vr == vr {
                value@
            } else {
                rec.fields@[k].value@
            }),
{
    let n = rec.fields.len();
    let mut out: Vec<DicomField> = Vec::new();
    let mut i: usize = 0;
    while i < n
        invariant
            0 <= i <= n,
            n == rec.fields@.len(),
            rec.wf(),
            out@.len() == i,
            forall|k: int|
                0 <= k < i ==> (#[trigger] out@[k]).tag == rec.fields@[k].tag && out@[k].vr
                    == rec.fields@[k].vr && out@[k].value@ == (
                if rec.fields@[k].vr == vr {
                    value@
                } else {
                    rec.fields@[k].value@
                }),
        decreases n - i,
    {
        let f = &rec.fields[i];
        if f.vr == vr {
            out.push(DicomField { tag: f.tag, vr: f.vr, value: value.clone() });
        } else {
            out.push(DicomField { tag: f.tag, vr: f.vr, value: f.value.clone() });
        }
        i += 1;
    }
    let r = DicomRecord { fields: out };
    proof {
        lemma_same_tags(*rec, r);
    }
    r
}

/// Masks every date-, time- and date-and-time-valued element of the record
/// with the fixed sentinels, then forces the age and sex elements to their
/// sentinel values, inserting them if absent and overwriting them if present.
pub fn dicom_anon_date_time(rec: &DicomRecord) -> (r: DicomRecord)
    requires
        rec.wf(),
    ensures
        r.wf(),
        date_time_masked(*rec, r),
{
    let date_v = sentinel_date_value();
    let time_v = sentinel_time_value();
    let dt_v = sentinel_date_time_value();
    let r1 = mask_all_vr(rec, Vr::Date, &date_v);
    let r2 = mask_all_vr(&r1, Vr::Time, &time_v);
    let mut r3 = mask_all_vr(&r2, Vr::DateTime, &dt_v);
    proof {
        lemma_same_tags(*rec, r1);
        lemma_same_tags(r1, r2);
        lemma_same_tags(r2, r3);
        assert forall|t: u32|
            #[trigger] rec.has_tag(t) implies r3.spec_field(t).tag == t && r3.spec_field(t).vr
            == rec.spec_field(t).vr && r3.spec_field(t).value@ == masked_temporal(
            rec.spec_field(t).vr,
            rec.spec_field(t).value@,
        ) by {
            rec.lemma_spec_field(t);
            let k = rec.tag_index(t);
            assert(r1.tag_index(t) == k && r2.tag_index(t) == k && r3.tag_index(t) == k);
            assert(r1.fields@[k].vr == rec.fields@[k].vr);
            assert(r2.fields@[k].vr == rec.fields@[k].vr);
        }
        assert(r3.rec_map().dom() =~= rec.rec_map().dom());
    }
    let ghost m3 = r3;
    let age_v = sentinel_age_value();
    r3.put(TAG_PATIENT_AGE, Vr::AgeString, age_v);
    let ghost m4 = r3;
    let sex_v = sentinel_sex_value();
    r3.put(TAG_PATIENT_SEX, Vr::CodeString, sex_v);
    proof {
        assert(r3.rec_map().dom() =~= rec.rec_map().dom().insert(TAG_PATIENT_AGE).insert(
            TAG_PATIENT_SEX,
        ));
        assert(r3.rec_map().dom().contains(TAG_PATIENT_AGE));
        assert(r3.spec_field(TAG_PATIENT_AGE) == r3.rec_map()[TAG_PATIENT_AGE]);
        assert(r3.spec_field(TAG_PATIENT_SEX) == r3.rec_map()[TAG_PATIENT_SEX]);
        assert(r3.spec_field(TAG_PATIENT_SEX).vr == Vr::CodeString);
        assert(r3.spec_field(TAG_PATIENT_SEX).value@ == sentinel_sex());
        assert(r3.rec_map()[TAG_PATIENT_AGE] == m4.rec_map()[TAG_PATIENT_AGE]);
        assert(m4.spec_field(TAG_PATIENT_AGE) == m4.rec_map()[TAG_PATIENT_AGE]);
        assert(r3.spec_field(TAG_PATIENT_AGE).vr == Vr::AgeString);
        assert(r3.spec_field(TAG_PATIENT_AGE).value@ == sentinel_age());
        assert(r3.spec_field(TAG_PATIENT_AGE).tag == TAG_PATIENT_AGE);
        assert forall|t: u32|
            #[trigger] rec.has_tag(t) && t != TAG_PATIENT_AGE && t != TAG_PATIENT_SEX implies
            r3.spec_field(t).tag == t && r3.spec_field(t).vr == rec.spec_field(t).vr
            && r3.spec_field(t).value@ == masked_temporal(
            rec.spec_field(t).vr,
            rec.spec_field(t).value@,
        ) by {
            assert(rec.rec_map().dom().contains(t));
            assert(r3.rec_map().dom().contains(t));
            assert(r3.rec_map()[t] == m3.rec_map()[t]);
            assert(r3.spec_field(t) == m3.spec_field(t));
        }
    }
    r3
}

/// Masking completeness: in a fully masked record, every element whose
/// representation is date-only holds the sentinel date, every time-only
/// element holds the sentinel time, every date-and-time element holds the
/// sentinel composed value, and the age and sex elements hold their
/// sentinels — whatever the record held before.
pub proof fn lemma_masking_completeness(a: DicomRecord, b: DicomRecord)
    requires
        a.wf(),
        b.wf(),
        date_time_masked(a, b),
    ensures
        forall|t: u32|
            #[trigger] b.has_tag(t) ==> (b.spec_field(t).vr == Vr::Date ==> b.spec_field(t).value@
                == sentinel_date()) && (b.spec_field(t).vr == Vr::Time ==> b.spec_field(t).value@
                == sentinel_time()) && (b.spec_field(t).vr == Vr::DateTime ==> b.spec_field(
                t,
            ).value@ == sentinel_date_time()),
        b.has_tag(TAG_PATIENT_AGE),
        b.spec_field(TAG_PATIENT_AGE).value@ == sentinel_age(),
        b.has_tag(TAG_PATIENT_SEX),
        b.spec_field(TAG_PATIENT_SEX).value@ == sentinel_sex(),
{
    assert(b.rec_map().dom().contains(TAG_PATIENT_AGE));
    assert(b.rec_map().dom().contains(TAG_PATIENT_SEX));
    assert forall|t: u32|
        #[trigger] b.has_tag(t) implies (b.spec_field(t).vr == Vr::Date ==> b.spec_field(t).value@
        == sentinel_date()) && (b.spec_field(t).vr == Vr::Time ==> b.spec_field(t).value@
        == sentinel_time()) && (b.spec_field(t).vr == Vr::DateTime ==> b.spec_field(t).value@
        == sentinel_date_time()) by {
        assert(b.rec_map().dom().contains(t));
        if t == TAG_PATIENT_AGE || t == TAG_PATIENT_SEX {
        } else {
            assert(a.rec_map().dom().contains(t));
            assert(a.has_tag(t));
        }
    }
}

} // verus!
