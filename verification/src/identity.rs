//! The identity map: one pseudonymous code per real patient identifier.
//!
//! The table is populated monotonically: an identifier receives its code on
//! first encounter and keeps it for the lifetime of the run. The lookup and
//! the insert-on-miss form a single operation, so no two resolutions of the
//! same new identifier can mint different codes.

use vstd::prelude::*;

verus! {

/// The map described by a sequence of entries, later entries taking
/// precedence.
pub open spec fn map_of(s: Seq<(String, String)>) -> Map<Seq<char>, Seq<char>>
    decreases s.len(),
{
    if s.len() == 0 {
        Map::empty()
    } else {
        map_of(s.drop_last()).insert(s.last().0@, s.last().1@)
    }
}

/// A key is in the map of a sequence of entries exactly when some entry
/// carries it.
pub proof fn lemma_map_of_contains(s: Seq<(String, String)>, k: Seq<char>)
    ensures
        map_of(s).contains_key(k) <==> (exists|i: int|
            0 <= i < s.len() && (#[trigger] s[i]).0@ == k),
    decreases s.len(),
{
    if s.len() > 0 {
        lemma_map_of_contains(s.drop_last(), k);
        let n = s.len() as int;
        if s.last().0@ == k {
            assert(s[n - 1].0@ == k);
        } else {
            if map_of(s).contains_key(k) {
                let i = choose|i: int| 0 <= i < s.drop_last().len() && (#[trigger] s.drop_last()[i]).0@ == k;
                assert(s[i].0@ == k);
            }
            if exists|i: int| 0 <= i < s.len() && (#[trigger] s[i]).0@ == k {
                let i = choose|i: int| 0 <= i < s.len() && (#[trigger] s[i]).0@ == k;
                assert(i < n - 1);
                assert(s.drop_last()[i].0@ == k);
            }
        }
    }
}

/// Under unique keys, the map of a sequence of entries sends each entry's
/// key to that entry's code.
pub proof fn lemma_map_of_get(s: Seq<(String, String)>, i: int)
    requires
        forall|p: int, q: int|
            #![trigger s[p].0, s[q].0]
            0 <= p < q < s.len() ==> s[p].0@ != s[q].0@,
        0 <= i < s.len(),
    ensures
        map_of(s).contains_key(s[i].0@),
        map_of(s)[s[i].0@] == s[i].1@,
    decreases s.len(),
{
    lemma_map_of_contains(s, s[i].0@);
    let n = s.len() as int;
    if i == n - 1 {
    } else {
        assert(s[i].0@ != s[n - 1].0@);
        assert(s.drop_last()[i] == s[i]);
        lemma_map_of_get(s.drop_last(), i);
    }
}

/// Under unique keys, the map of a sequence of entries has one key per
/// entry.
pub proof fn lemma_map_of_len(s: Seq<(String, String)>)
    requires
        forall|p: int, q: int|
            #![trigger s[p].0, s[q].0]
            0 <= p < q < s.len() ==> s[p].0@ != s[q].0@,
    ensures
        map_of(s).dom().finite(),
        map_of(s).dom().len() == s.len(),
    decreases s.len(),
{
    if s.len() > 0 {
        lemma_map_of_len(s.drop_last());
        lemma_map_of_contains(s.drop_last(), s.last().0@);
        assert(!map_of(s.drop_last()).contains_key(s.last().0@)) by {
            if exists|i: int| 0 <= i < s.drop_last().len() && (#[trigger] s.drop_last()[i]).0@
                == s.last().0@ {
                let i = choose|i: int|
                    0 <= i < s.drop_last().len() && (#[trigger] s.drop_last()[i]).0@
                        == s.last().0@;
                assert(s[i].0@ == s[s.len() - 1].0@);
            }
        }
    }
}

/// The code assigned to a newly encountered identifier: the bare generator
/// output, or the prefix, one underscore and the generator output when a
/// non-empty prefix is configured.
pub open spec fn prefixed_code(prefix: Seq<char>, fresh: Seq<char>) -> Seq<char> {
    if prefix.len() == 0 {
        fresh
    } else {
        prefix + "_"@ + fresh
    }
}

/// Formats the code for a newly encountered identifier from the configured
/// prefix and the generator's output.
pub fn format_code(prefix: &String, fresh: String) -> (r: String)
    ensures
        r@ == prefixed_code(prefix@, fresh@),
{
    if prefix.as_str().is_empty() {
        fresh
    } else {
        let mut r = prefix.clone();
        r.append("_");
        r.append(fresh.as_str());
        r
    }
}

/// The run-wide table from real patient identifier to pseudonymous code.
pub struct IdentityMap {
    entries: Vec<(String, String)>,
}

impl View for IdentityMap {
    type V = Map<Seq<char>, Seq<char>>;

    closed spec fn view(&self) -> Map<Seq<char>, Seq<char>> {
        map_of(self.entries@)
    }
}

impl IdentityMap {
    /// Well-formed: no identifier appears twice.
    pub closed spec fn wf(self) -> bool {
        forall|p: int, q: int|
            #![trigger self.entries@[p].0, self.entries@[q].0]
            0 <= p < q < self.entries@.len() ==> self.entries@[p].0@ != self.entries@[q].0@
    }

    /// Creates the empty table of a fresh run.
    pub fn new() -> (r: IdentityMap)
        ensures
            r.wf(),
            r@ == Map::<Seq<char>, Seq<char>>::empty(),
    {
        IdentityMap { entries: Vec::new() }
    }

    /// Looks up the code already assigned to an identifier, without
    /// assigning one.
    pub fn get(&self, real_id: &String) -> (r: Option<String>)
        requires
            self.wf(),
        ensures
            match r {
                Some(code) => self@.contains_key(real_id@) && code@ == self@[real_id@],
                None => !self@.contains_key(real_id@),
            },
    {
        let n = self.entries.len();
        let mut i: usize = 0;
        while i < n
            invariant
                0 <= i <= n,
                n == self.entries@.len(),
                self.wf(),
                forall|k: int| 0 <= k < i ==> (#[trigger] self.entries@[k]).0@ != real_id@,
            decreases n - i,
        {
            if self.entries[i].0 == *real_id {
                proof {
                    lemma_map_of_get(self.entries@, i as int);
                }
                return Some(self.entries[i].1.clone());
            }
            i += 1;
        }
        proof {
            lemma_map_of_contains(self.entries@, real_id@);
        }
        None
    }

    /// The number of identifiers assigned a code so far.
    pub fn len(&self) -> (n: usize)
        requires
            self.wf(),
        ensures
            n == self@.dom().len(),
    {
        proof {
            lemma_map_of_len(self.entries@);
        }
        self.entries.len()
    }

    /// Resolves the pseudonymous code for a real identifier: returns the
    /// code already assigned, or assigns the one formatted from the prefix
    /// and the generator output `fresh` on first encounter. The lookup and
    /// the insert-on-miss are one operation; the table never shrinks and
    /// never overwrites an assignment.
    pub fn resolve(&mut self, real_id: &String, prefix: &String, fresh: String) -> (code: String)
        requires
            old(self).wf(),
        ensures
            final(self).wf(),
            final(self)@.contains_key(real_id@),
            code@ == final(self)@[real_id@],
            old(self)@.contains_key(real_id@) ==> code@ == old(self)@[real_id@] && final(self)@
                == old(self)@,
            !old(self)@.contains_key(real_id@) ==> code@ == prefixed_code(prefix@, fresh@)
                && final(self)@ == old(self)@.insert(real_id@, code@),
            old(self)@.submap_of(final(self)@),
    {
        let n = self.entries.len();
        let mut i: usize = 0;
        while i < n
            invariant
                0 <= i <= n,
                n == self.entries@.len(),
                self.wf(),
                *self == *old(self),
                forall|k: int| 0 <= k < i ==> (#[trigger] self.entries@[k]).0@ != real_id@,
            decreases n - i,
        {
            if self.entries[i].0 == *real_id {
                proof {
                    lemma_map_of_get(self.entries@, i as int);
                    lemma_submap_refl(self@);
                }
                return self.entries[i].1.clone();
            }
            i += 1;
        }
        proof {
            lemma_map_of_contains(self.entries@, real_id@);
        }
        let code = format_code(prefix, fresh);
        let entry = (real_id.clone(), code.clone());
        self.entries.push(entry);
        proof {
            assert(self.entries@.drop_last() =~= old(self).entries@);
            assert(self@ == old(self)@.insert(real_id@, code@));
            lemma_map_of_get(self.entries@, n as int);
            assert(old(self)@.submap_of(self@)) by {
                assert forall|k: Seq<char>| #[trigger] old(self)@.contains_key(k) implies self@.contains_key(
                    k,
                ) && self@[k] == old(self)@[k] by {
                    assert(k != real_id@);
                }
            }
        }
        code
    }
}

/// A map is a submap of itself.
pub proof fn lemma_submap_refl(m: Map<Seq<char>, Seq<char>>)
    ensures
        m.submap_of(m),
{
}

/// Consistency: the table only grows, so once an identifier has a code, any
/// later state of the same run's table assigns it that same code.
pub proof fn lemma_consistency(
    m0: Map<Seq<char>, Seq<char>>,
    m1: Map<Seq<char>, Seq<char>>,
    id: Seq<char>,
)
    requires
        m0.submap_of(m1),
        m0.contains_key(id),
    ensures
        m1.contains_key(id),
        m1[id] == m0[id],
{
    assert(m0.dom().contains(id) ==> m1.dom().contains(id) && m0[id] == m1[id]);
}

/// Whether no two identifiers share a code.
pub open spec fn codes_injective(m: Map<Seq<char>, Seq<char>>) -> bool {
    forall|a: Seq<char>, b: Seq<char>|
        #![trigger m[a], m[b]]
        m.contains_key(a) && m.contains_key(b) && a != b ==> m[a] != m[b]
}

/// Uniqueness: in a table whose codes are injective, two distinct
/// identifiers carry different codes.
pub proof fn lemma_uniqueness(m: Map<Seq<char>, Seq<char>>, id1: Seq<char>, id2: Seq<char>)
    requires
        codes_injective(m),
        m.contains_key(id1),
        m.contains_key(id2),
        id1 != id2,
    ensures
        m[id1] != m[id2],
{
}

/// Assigning a code that differs from every code already assigned keeps the
/// table's codes injective.
pub proof fn lemma_insert_preserves_injective(
    m: Map<Seq<char>, Seq<char>>,
    id: Seq<char>,
    c: Seq<char>,
)
    requires
        codes_injective(m),
        forall|k: Seq<char>| #[trigger] m.contains_key(k) ==> m[k] != c,
    ensures
        codes_injective(m.insert(id, c)),
{
}

/// Under one fixed prefix, distinct generator outputs format to distinct
/// codes.
pub proof fn lemma_prefixed_code_injective(prefix: Seq<char>, f1: Seq<char>, f2: Seq<char>)
    requires
        f1 != f2,
    ensures
        prefixed_code(prefix, f1) != prefixed_code(prefix, f2),
{
    if prefix.len() > 0 {
        let h = prefix + "_"@;
        let s1 = prefixed_code(prefix, f1);
        let s2 = prefixed_code(prefix, f2);
        assert(s1 == h + f1);
        assert(s2 == h + f2);
        if s1 == s2 {
            assert(f1.len() == f2.len());
            assert forall|i: int| 0 <= i < f1.len() implies f1[i] == f2[i] by {
                assert(f1[i] == s1[h.len() + i]);
                assert(f2[i] == s2[h.len() + i]);
            }
            assert(f1 =~= f2);
        }
    }
}

} // verus!
