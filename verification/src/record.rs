//! In-memory model of one parsed imaging record.
//!
//! A record is a sequence of data elements, each carrying a numeric tag, a
//! declared value representation and a string value. Tags are unique within a
//! well-formed record, so the record is also viewed as a map from tag to
//! element; all higher-level contracts speak over that map.

use vstd::prelude::*;

verus! {

/// Tag of the element holding the patient's name.
pub const TAG_PATIENT_NAME: u32 = 0x0010_0010;

/// Tag of the element holding the real patient identifier.
pub const TAG_PATIENT_ID: u32 = 0x0010_0020;

/// Tag of the element holding the patient's sex.
pub const TAG_PATIENT_SEX: u32 = 0x0010_0040;

/// Tag of the element holding the patient's age.
pub const TAG_PATIENT_AGE: u32 = 0x0010_1010;

/// Declared value representation of a data element. Masking is driven by the
/// representation, never by the tag.
#[derive(Clone, Copy, PartialEq, Eq, Structural, Debug)]
pub enum Vr {
    /// A date-only value.
    Date,
    /// A time-of-day value.
    Time,
    /// A combined date-and-time value.
    DateTime,
    /// An age string.
    AgeString,
    /// A code string.
    CodeString,
    /// Any other representation; untouched by temporal masking.
    Other,
}

/// One data element of a record.
#[derive(Clone)]
pub struct DicomField {
    /// The element's numeric tag.
    pub tag: u32,
    /// The element's declared value representation.
    pub vr: Vr,
    /// The element's value.
    pub value: String,
}

/// One parsed imaging record: a sequence of data elements with unique tags.
#[derive(Clone)]
pub struct DicomRecord {
    /// The elements, in file order.
    pub fields: Vec<DicomField>,
}

impl DicomRecord {
    /// Well-formed: no two elements carry the same tag.
    pub open spec fn wf(self) -> bool {
        forall|i: int, j: int|
            #![trigger self.fields@[i].tag, self.fields@[j].tag]
            0 <= i < j < self.fields@.len() ==> self.fields@[i].tag != self.fields@[j].tag
    }

    /// Whether some element carries the given tag.
    pub open spec fn has_tag(self, tag: u32) -> bool {
        exists|i: int| 0 <= i < self.fields@.len() && (#[trigger] self.fields@[i]).tag == tag
    }

    /// The index of the element carrying the given tag.
    pub open spec fn tag_index(self, tag: u32) -> int {
        choose|i: int| 0 <= i < self.fields@.len() && (#[trigger] self.fields@[i]).tag == tag
    }

    /// The element carrying the given tag.
    pub open spec fn spec_field(self, tag: u32) -> DicomField
        recommends
            self.has_tag(tag),
    {
        self.fields@[self.tag_index(tag)]
    }

    /// The record viewed as a map from tag to the element carrying it.
    pub open spec fn rec_map(self) -> Map<u32, DicomField> {
        Map::new(|t: u32| self.has_tag(t), |t: u32| self.spec_field(t))
    }

    /// In a well-formed record, the element at index `i` is the one that
    /// `tag_index` finds for its tag.
    pub proof fn lemma_tag_index(self, i: int)
        requires
            self.wf(),
            0 <= i < self.fields@.len(),
        ensures
            self.has_tag(self.fields@[i].tag),
            self.tag_index(self.fields@[i].tag) == i,
            self.spec_field(self.fields@[i].tag) == self.fields@[i],
    {
        let t = self.fields@[i].tag;
        assert(self.has_tag(t));
        let j = self.tag_index(t);
        assert(0 <= j < self.fields@.len() && self.fields@[j].tag == t);
    }

    /// In a well-formed record, the element found for a present tag carries
    /// that tag.
    pub proof fn lemma_spec_field(self, t: u32)
        requires
            self.wf(),
            self.has_tag(t),
        ensures
            0 <= self.tag_index(t) < self.fields@.len(),
            self.spec_field(t).tag == t,
    {
    }

    /// Looks up the value of the element with the given tag.
    pub fn get_value(&self, tag: u32) -> (r: Option<String>)
        requires
            self.wf(),
        ensures
            match r {
                Some(v) => self.has_tag(tag) && v@ == self.spec_field(tag).value@,
                None => !self.has_tag(tag),
            },
    {
        let n = self.fields.len();
        let mut i: usize = 0;
        while i < n
            invariant
                0 <= i <= n,
                n == self.fields@.len(),
                self.wf(),
                forall|k: int| 0 <= k < i ==> (#[trigger] self.fields@[k]).tag != tag,
            decreases n - i,
        {
            if self.fields[i].tag == tag {
                proof {
                    self.lemma_tag_index(i as int);
                }
                return Some(self.fields[i].value.clone());
            }
            i += 1;
        }
        None
    }

    /// Inserts an element, overwriting the element already carrying the tag
    /// if one is present.
    pub fn put(&mut self, tag: u32, vr: Vr, value: String)
        requires
            old(self).wf(),
        ensures
            final(self).wf(),
            final(self).rec_map() == old(self).rec_map().insert(
                tag,
                (DicomField { tag, vr, value }),
            ),
    {
        let ghost nf = DicomField { tag, vr, value };
        let n = self.fields.len();
        let mut i: usize = 0;
        while i < n
            invariant
                0 <= i <= n,
                n == self.fields@.len(),
                self.wf(),
                *self == *old(self),
                nf == (DicomField { tag, vr, value }),
                forall|k: int| 0 <= k < i ==> (#[trigger] self.fields@[k]).tag != tag,
            decreases n - i,
        {
            if self.fields[i].tag == tag {
                proof {
                    assert(old(self).fields@[i as int].tag == tag);
                }
                let f = DicomField { tag, vr, value };
                proof {
                    assert(f == nf);
                }
                self.set_field(i, f);
                proof {
                    lemma_rec_map_update(*old(self), *self, i as int, nf);
                }
                return ;
            }
            i += 1;
        }
        let f = DicomField { tag, vr, value };
        proof {
            assert(!self.has_tag(tag));
        }
        self.fields.push(f);
        proof {
            lemma_rec_map_push(*old(self), *self, nf);
        }
    }

    /// Replaces the element at index `i`.
    fn set_field(&mut self, i: usize, f: DicomField)
        requires
            i < old(self).fields@.len(),
        ensures
            final(self).fields@ == old(self).fields@.update(i as int, f),
    {
        self.fields.remove(i);
        self.fields.insert(i, f);
        proof {
            assert(self.fields@ =~= old(self).fields@.update(i as int, f));
        }
    }
}

/// Two records whose elements carry pointwise equal tags have the same tags
/// at the same indices, so lookups agree.
pub proof fn lemma_same_tags(a: DicomRecord, b: DicomRecord)
    requires
        a.wf(),
        b.fields@.len() == a.fields@.len(),
        forall|k: int|
            0 <= k < a.fields@.len() ==> (#[trigger] b.fields@[k]).tag == a.fields@[k].tag,
    ensures
        b.wf(),
        forall|t: u32| #[trigger] b.has_tag(t) <==> a.has_tag(t),
        forall|t: u32| a.has_tag(t) ==> #[trigger] b.tag_index(t) == a.tag_index(t),
{
    assert forall|t: u32| #[trigger] b.has_tag(t) <==> a.has_tag(t) by {
        if b.has_tag(t) {
            let i = choose|i: int|
                0 <= i < b.fields@.len() && (#[trigger] b.fields@[i]).tag == t;
            assert(a.fields@[i].tag == t);
            assert(a.has_tag(t));
        }
        if a.has_tag(t) {
            let i = choose|i: int|
                0 <= i < a.fields@.len() && (#[trigger] a.fields@[i]).tag == t;
            assert(b.fields@[i].tag == t);
            assert(b.has_tag(t));
        }
    }
    assert forall|t: u32| a.has_tag(t) implies #[trigger] b.tag_index(t) == a.tag_index(t) by {
        let i = a.tag_index(t);
        assert(0 <= i < a.fields@.len() && a.fields@[i].tag == t);
        assert(b.fields@[i].tag == t);
        b.lemma_tag_index(i);
        a.lemma_tag_index(i);
    }
}

/// Updating the element at index `i` with one carrying the same tag inserts
/// it into the record's map view.
pub proof fn lemma_rec_map_update(a: DicomRecord, b: DicomRecord, i: int, f: DicomField)
    requires
        a.wf(),
        0 <= i < a.fields@.len(),
        a.fields@[i].tag == f.tag,
        b.fields@ == a.fields@.update(i, f),
    ensures
        b.wf(),
        b.rec_map() == a.rec_map().insert(f.tag, f),
{
    lemma_same_tags(a, b);
    assert forall|t: u32|
        a.rec_map().insert(f.tag, f).dom().contains(t) implies #[trigger] b.rec_map().dom().contains(
        t,
    ) by {
        if t == f.tag {
            assert(b.fields@[i].tag == t);
            assert(b.has_tag(t));
        }
    }
    assert forall|t: u32| #[trigger] b.rec_map().dom().contains(t) implies
        a.rec_map().insert(f.tag, f).dom().contains(t)
        && b.rec_map()[t] == a.rec_map().insert(f.tag, f)[t] by {
        let j = b.tag_index(t);
        b.lemma_spec_field(t);
        assert(a.tag_index(t) == j);
        if t == f.tag {
            a.lemma_tag_index(i);
            assert(j == i);
            assert(b.spec_field(t) == f);
        } else {
            assert(j != i);
            assert(b.fields@[j] == a.fields@[j]);
        }
    }
    assert(b.rec_map() =~= a.rec_map().insert(f.tag, f));
}

/// Appending an element with a fresh tag inserts it into the record's map
/// view.
pub proof fn lemma_rec_map_push(a: DicomRecord, b: DicomRecord, f: DicomField)
    requires
        a.wf(),
        !a.has_tag(f.tag),
        b.fields@ == a.fields@.push(f),
    ensures
        b.wf(),
        b.rec_map() == a.rec_map().insert(f.tag, f),
{
    let n = a.fields@.len() as int;
    assert forall|i: int, j: int|
        0 <= i < j < b.fields@.len() implies (#[trigger] b.fields@[i].tag) != (
    #[trigger] b.fields@[j].tag) by {
        if j < n {
            assert(b.fields@[i] == a.fields@[i]);
            assert(b.fields@[j] == a.fields@[j]);
        } else {
            assert(b.fields@[j] == f);
            assert(b.fields@[i] == a.fields@[i]);
            if a.fields@[i].tag == f.tag {
                assert(a.has_tag(f.tag));
            }
        }
    }
    assert forall|t: u32| #[trigger] b.has_tag(t) implies t == f.tag || a.has_tag(t) by {
        let i = choose|i: int| 0 <= i < b.fields@.len() && (#[trigger] b.fields@[i]).tag == t;
        if i < n {
            assert(a.fields@[i].tag == t);
        }
    }
    assert forall|t: u32| #[trigger] b.rec_map().dom().contains(t) implies
        a.rec_map().insert(f.tag, f).dom().contains(t)
        && b.rec_map()[t] == a.rec_map().insert(f.tag, f)[t] by {
        let j = b.tag_index(t);
        b.lemma_spec_field(t);
        if t == f.tag {
            if j < n {
                assert(a.fields@[j].tag == t);
                assert(a.has_tag(t));
            }
            assert(b.spec_field(t) == f);
        } else {
            assert(j < n) by {
                if j == n {
                    assert(b.fields@[j] == f);
                }
            }
            assert(a.fields@[j].tag == t);
            a.lemma_tag_index(j);
            assert(b.spec_field(t) == a.spec_field(t));
        }
    }
    assert forall|t: u32|
        a.rec_map().insert(f.tag, f).dom().contains(t) implies #[trigger] b.rec_map().dom().contains(
        t,
    ) by {
        if t == f.tag {
            assert(b.fields@[n] == f);
            assert(b.has_tag(t));
        } else {
            let i = choose|i: int| 0 <= i < a.fields@.len() && (#[trigger] a.fields@[i]).tag == t;
            assert(b.fields@[i].tag == t);
            assert(b.has_tag(t));
        }
    }
    assert(b.rec_map() =~= a.rec_map().insert(f.tag, f));
}

} // verus!
