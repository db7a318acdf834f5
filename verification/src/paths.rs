//! The output-path registry: the run's single owner of claimed write paths.
//!
//! Collision-prone path resolution is funnelled through this one registry, so
//! a claimed path is never handed out twice: a candidate that is already
//! taken is extended until it is fresh, and the path returned is recorded
//! before any write may use it.

use vstd::prelude::*;

verus! {

/// The registry of every output path claimed so far in one run.
pub struct PathRegistry {
    used: Vec<String>,
}

impl PathRegistry {
    /// The set of claimed paths.
    pub closed spec fn paths(self) -> Set<Seq<char>> {
        Set::new(
            |p: Seq<char>|
                exists|i: int| 0 <= i < self.used@.len() && (#[trigger] self.used@[i])@ == p,
        )
    }

    /// Creates the empty registry of a fresh run.
    pub fn new() -> (r: PathRegistry)
        ensures
            r.paths() == Set::<Seq<char>>::empty(),
    {
        let r = PathRegistry { used: Vec::new() };
        proof {
            assert(r.paths() =~= Set::<Seq<char>>::empty());
        }
        r
    }

    /// Whether a path has already been claimed.
    pub fn is_claimed(&self, p: &String) -> (r: bool)
        ensures
            r == self.paths().contains(p@),
    {
        let n = self.used.len();
        let mut i: usize = 0;
        while i < n
            invariant
                0 <= i <= n,
                n == self.used@.len(),
                forall|k: int| 0 <= k < i ==> (#[trigger] self.used@[k])@ != p@,
            decreases n - i,
        {
            if self.used[i] == *p {
                return true;
            }
            i += 1;
        }
        false
    }

    /// Claims a collision-free final path for a candidate: the candidate
    /// itself when it is still free, and otherwise the candidate extended
    /// until it is longer than every claimed path. The returned path was
    /// never claimed before — no earlier claim is silently overwritten —
    /// and is recorded as claimed.
    pub fn claim(&mut self, candidate: String) -> (r: String)
        ensures
            !old(self).paths().contains(r@),
            final(self).paths() == old(self).paths().insert(r@),
            !old(self).paths().contains(candidate@) ==> r@ == candidate@,
    {
        if !self.is_claimed(&candidate) {
            let ghost before = *self;
            self.used.push(candidate.clone());
            proof {
                self.lemma_push_adds(before, candidate);
            }
            return candidate;
        }
        let n = self.used.len();
        let mut m: usize = 0;
        let mut i: usize = 0;
        while i < n
            invariant
                0 <= i <= n,
                n == self.used@.len(),
                *self == *old(self),
                forall|k: int| 0 <= k < i ==> (#[trigger] self.used@[k])@.len() <= m,
            decreases n - i,
        {
            let l = self.used[i].as_str().unicode_len();
            if l > m {
                m = l;
            }
            i += 1;
        }
        let mut cand = candidate;
        proof {
            reveal_strlit("_");
        }
        while cand.as_str().unicode_len() <= m
            invariant
                *self == *old(self),
                forall|k: int|
                    0 <= k < self.used@.len() ==> (#[trigger] self.used@[k])@.len() <= m,
            decreases m + 1 - cand@.len(),
        {
            proof {
                reveal_strlit("_");
            }
            cand.append("_");
        }
        proof {
            assert(!self.paths().contains(cand@)) by {
                if exists|i: int| 0 <= i < self.used@.len() && (#[trigger] self.used@[i])@
                    == cand@ {
                    let i = choose|i: int|
                        0 <= i < self.used@.len() && (#[trigger] self.used@[i])@ == cand@;
                    assert(self.used@[i]@.len() <= m);
                }
            }
        }
        let ghost before = *self;
        self.used.push(cand.clone());
        proof {
            self.lemma_push_adds(before, cand);
        }
        cand
    }

    /// Pushing one path onto the registry adds exactly it to the claimed
    /// set.
    proof fn lemma_push_adds(self, before: PathRegistry, s: String)
        requires
            self.used@ == before.used@.push(s),
        ensures
            self.paths() == before.paths().insert(s@),
    {
        let nb = before.used@.len() as int;
        assert forall|p: Seq<char>| #[trigger] self.paths().contains(p) implies before.paths().insert(
            s@,
        ).contains(p) by {
            let i = choose|i: int| 0 <= i < self.used@.len() && (#[trigger] self.used@[i])@ == p;
            if i < nb {
                assert(before.used@[i]@ == p);
            } else {
                assert(self.used@[i] == s);
            }
        }
        assert forall|p: Seq<char>|
            before.paths().insert(s@).contains(p) implies #[trigger] self.paths().contains(p) by {
            if p == s@ {
                assert(self.used@[nb]@ == p);
            } else {
                let i = choose|i: int|
                    0 <= i < before.used@.len() && (#[trigger] before.used@[i])@ == p;
                assert(self.used@[i]@ == p);
            }
        }
        assert(self.paths() =~= before.paths().insert(s@));
    }
}

/// No silent overwrite: whatever candidates two successive claims were
/// given, the path the second claim returns differs from the one the first
/// returned, because the first is recorded before the second resolves.
pub proof fn lemma_no_silent_overwrite(
    s0: Set<Seq<char>>,
    s1: Set<Seq<char>>,
    p1: Seq<char>,
    p2: Seq<char>,
)
    requires
        !s0.contains(p1),
        s1 == s0.insert(p1),
        !s1.contains(p2),
    ensures
        p1 != p2,
{
}

} // verus!
