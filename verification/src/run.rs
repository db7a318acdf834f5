//! The dispatcher: routes every discovered file to its terminal state.
//!
//! Each file's parse outcome is handed in by the caller; the dispatcher
//! routes non-parseable files to passthrough copy, pipeline failures to
//! quarantine copy, and fully anonymized records to scheduled writes. The
//! run is complete only when every scheduled write has been performed and
//! acknowledged through the completion barrier.

use vstd::prelude::*;

use crate::counters::CompletionBarrier;
use crate::counters::RunCounters;
use crate::identity::codes_injective;
use crate::identity::lemma_insert_preserves_injective;
use crate::identity::lemma_prefixed_code_injective;
use crate::identity::prefixed_code;
use crate::identity::IdentityMap;
use crate::paths::PathRegistry;
use crate::pipeline::anon_each_dcm_file;
use crate::pipeline::WriteJob;
use crate::record::DicomRecord;
use crate::record::TAG_PATIENT_ID;

verus! {

/// The parse outcome of one discovered file, as handed to the dispatcher.
pub enum FileInput {
    /// The file is not a parseable imaging record.
    NotDicom,
    /// The file parsed into a record.
    Dicom(DicomRecord),
}

/// The state one discovered file rests in. `Copied`, `Quarantined` and
/// `Written` are terminal.
#[derive(Clone, Copy, PartialEq, Eq, Structural, Debug)]
pub enum FileState {
    /// Not parseable: passed through verbatim to the mirrored destination.
    Copied,
    /// Parseable but not anonymizable: original copied to quarantine.
    Quarantined,
    /// Anonymized, deferred write scheduled but not yet performed.
    WriteScheduled,
    /// Anonymized and durably written.
    Written,
}

/// One scheduled deferred write and whether it has been performed.
pub struct ScheduledWrite {
    /// The index of the file this write belongs to.
    pub index: usize,
    /// The anonymized record and its claimed output path.
    pub job: WriteJob,
    /// Whether the write has finished.
    pub done: bool,
}

/// A parse outcome is usable when its record, if any, is well-formed.
pub open spec fn input_ok(f: FileInput) -> bool {
    match f {
        FileInput::NotDicom => true,
        FileInput::Dicom(rec) => rec.wf(),
    }
}

/// The state a file must be routed to, given its parse outcome: passthrough
/// for non-parseable files, quarantine for records without a usable patient
/// identifier, a scheduled write otherwise.
pub open spec fn routed(f: FileInput, s: FileState) -> bool {
    match f {
        FileInput::NotDicom => s == FileState::Copied,
        FileInput::Dicom(rec) => if !rec.has_tag(TAG_PATIENT_ID) || rec.spec_field(
            TAG_PATIENT_ID,
        ).value@.len() == 0 {
            s == FileState::Quarantined
        } else {
            s == FileState::WriteScheduled || s == FileState::Written
        },
    }
}

/// How many entries of a state sequence equal `st`.
pub open spec fn count_in(s: Seq<FileState>, st: FileState) -> nat
    decreases s.len(),
{
    if s.len() == 0 {
        0
    } else {
        count_in(s.drop_last(), st) + (if s.last() == st {
            1nat
        } else {
            0nat
        })
    }
}

/// How many scheduled writes are done.
pub open spec fn count_done(w: Seq<ScheduledWrite>) -> nat
    decreases w.len(),
{
    if w.len() == 0 {
        0
    } else {
        count_done(w.drop_last()) + (if w.last().done {
            1nat
        } else {
            0nat
        })
    }
}

/// Appending one state adds one to its count and nothing to the others.
pub proof fn lemma_count_push(s: Seq<FileState>, x: FileState, st: FileState)
    ensures
        count_in(s.push(x), st) == count_in(s, st) + (if x == st {
            1int
        } else {
            0int
        }),
{
    assert(s.push(x).drop_last() =~= s);
    assert(s.push(x).last() == x);
}

/// Replacing one state moves one count to the other.
pub proof fn lemma_count_update(s: Seq<FileState>, i: int, x: FileState, st: FileState)
    requires
        0 <= i < s.len(),
    ensures
        count_in(s.update(i, x), st) == count_in(s, st) - (if s[i] == st {
            1int
        } else {
            0int
        }) + (if x == st {
            1int
        } else {
            0int
        }),
    decreases s.len(),
{
    let n = s.len() as int;
    if i == n - 1 {
        assert(s.update(i, x).drop_last() =~= s.drop_last());
        assert(s.update(i, x).last() == x);
    } else {
        assert(s.update(i, x).drop_last() =~= s.drop_last().update(i, x));
        assert(s.update(i, x).last() == s.last());
        assert(s.drop_last()[i] == s[i]);
        lemma_count_update(s.drop_last(), i, x, st);
    }
}

/// Appending one scheduled write adds its doneness to the count.
pub proof fn lemma_count_done_push(w: Seq<ScheduledWrite>, x: ScheduledWrite)
    ensures
        count_done(w.push(x)) == count_done(w) + (if x.done {
            1int
        } else {
            0int
        }),
{
    assert(w.push(x).drop_last() =~= w);
    assert(w.push(x).last() == x);
}

/// Replacing one scheduled write adjusts the count by its doneness.
pub proof fn lemma_count_done_update(w: Seq<ScheduledWrite>, k: int, x: ScheduledWrite)
    requires
        0 <= k < w.len(),
    ensures
        count_done(w.update(k, x)) == count_done(w) - (if w[k].done {
            1int
        } else {
            0int
        }) + (if x.done {
            1int
        } else {
            0int
        }),
    decreases w.len(),
{
    let n = w.len() as int;
    if k == n - 1 {
        assert(w.update(k, x).drop_last() =~= w.drop_last());
        assert(w.update(k, x).last() == x);
    } else {
        assert(w.update(k, x).drop_last() =~= w.drop_last().update(k, x));
        assert(w.update(k, x).last() == w.last());
        assert(w.drop_last()[k] == w[k]);
        lemma_count_done_update(w.drop_last(), k, x);
    }
}

/// No more writes are done than exist.
pub proof fn lemma_count_done_le(w: Seq<ScheduledWrite>)
    ensures
        count_done(w) <= w.len(),
    decreases w.len(),
{
    if w.len() > 0 {
        lemma_count_done_le(w.drop_last());
    }
}

/// While some write is not done, the done count is strictly below the
/// number of writes.
pub proof fn lemma_count_done_partial(w: Seq<ScheduledWrite>, k: int)
    requires
        0 <= k < w.len(),
        !w[k].done,
    ensures
        count_done(w) < w.len(),
    decreases w.len(),
{
    let n = w.len() as int;
    if k == n - 1 {
        lemma_count_done_le(w.drop_last());
    } else {
        assert(w.drop_last()[k] == w[k]);
        lemma_count_done_partial(w.drop_last(), k);
    }
}

/// When every write counts as done, every write is done.
pub proof fn lemma_count_done_full(w: Seq<ScheduledWrite>)
    requires
        count_done(w) == w.len(),
    ensures
        forall|k: int| 0 <= k < w.len() ==> (#[trigger] w[k]).done,
    decreases w.len(),
{
    if w.len() > 0 {
        lemma_count_done_le(w.drop_last());
        assert(w.last().done);
        lemma_count_done_full(w.drop_last());
        assert forall|k: int| 0 <= k < w.len() implies (#[trigger] w[k]).done by {
            if k < w.len() - 1 {
                assert(w.drop_last()[k] == w[k]);
            }
        }
    }
}

/// Every state is one of the four, so the four counts partition the run.
pub proof fn lemma_count_partition(s: Seq<FileState>)
    ensures
        count_in(s, FileState::Copied) + count_in(s, FileState::Quarantined) + count_in(
            s,
            FileState::WriteScheduled,
        ) + count_in(s, FileState::Written) == s.len(),
    decreases s.len(),
{
    if s.len() > 0 {
        lemma_count_partition(s.drop_last());
    }
}

/// A state no entry holds has count zero.
pub proof fn lemma_count_zero(s: Seq<FileState>, st: FileState)
    requires
        forall|i: int| 0 <= i < s.len() ==> (#[trigger] s[i]) != st,
    ensures
        count_in(s, st) == 0,
    decreases s.len(),
{
    if s.len() > 0 {
        assert forall|i: int| 0 <= i < s.drop_last().len() implies (#[trigger] s.drop_last()[i])
            != st by {
            assert(s.drop_last()[i] == s[i]);
        }
        lemma_count_zero(s.drop_last(), st);
        assert(s.last() != st);
    }
}

/// The whole state of one run.
pub struct RunState {
    /// The run counters.
    pub counters: RunCounters,
    /// Per dispatched file, the state it rests in.
    pub states: Vec<FileState>,
    /// Every scheduled deferred write.
    pub writes: Vec<ScheduledWrite>,
    /// The completion barrier over the scheduled writes.
    pub barrier: CompletionBarrier,
    /// The identity map built up during the run.
    pub map: IdentityMap,
    /// The registry of claimed output paths.
    pub registry: PathRegistry,
}

impl RunState {
    /// The run invariant, tying counters, states, writes, barrier, map and
    /// registry together.
    pub open spec fn wf(self) -> bool {
        &&& self.counters.wf()
        &&& self.states@.len() == self.counters.dispatched
        &&& self.counters.failed == count_in(self.states@, FileState::Quarantined)
        &&& self.counters.passthrough == count_in(self.states@, FileState::Copied)
        &&& self.barrier.wf()
        &&& self.barrier.spec_registered() == self.writes@.len()
        &&& self.barrier.spec_finished() == count_done(self.writes@)
        &&& forall|k: int|
            0 <= k < self.writes@.len() ==> (#[trigger] self.writes@[k]).index
                < self.states@.len()
        &&& forall|k1: int, k2: int|
            #![trigger self.writes@[k1].index, self.writes@[k2].index]
            0 <= k1 < k2 < self.writes@.len() ==> self.writes@[k1].index
                != self.writes@[k2].index
        &&& forall|k: int|
            0 <= k < self.writes@.len() ==> self.states@[(#[trigger] self.writes@[k]).index as int]
                == (if self.writes@[k].done {
                FileState::Written
            } else {
                FileState::WriteScheduled
            })
        &&& forall|i: int|
            0 <= i < self.states@.len() && ((#[trigger] self.states@[i])
                == FileState::WriteScheduled || self.states@[i] == FileState::Written)
                ==> exists|k: int|
                0 <= k < self.writes@.len() && (#[trigger] self.writes@[k]).index == i
        &&& forall|k: int|
            0 <= k < self.writes@.len() ==> self.registry.paths().contains(
                (#[trigger] self.writes@[k]).job.path@,
            )
        &&& forall|k1: int, k2: int|
            #![trigger self.writes@[k1].job.path, self.writes@[k2].job.path]
            0 <= k1 < k2 < self.writes@.len() ==> self.writes@[k1].job.path@
                != self.writes@[k2].job.path@
        &&& self.map.wf()
    }

    /// The scheduled write at position `k`, for the caller to perform.
    pub fn write_at(&self, k: usize) -> (r: &WriteJob)
        requires
            k < self.writes@.len(),
        ensures
            *r == self.writes@[k as int].job,
    {
        &self.writes[k].job
    }

    /// How many writes were scheduled.
    pub fn writes_len(&self) -> (n: usize)
        ensures
            n == self.writes@.len(),
    {
        self.writes.len()
    }

    /// Acknowledges that the scheduled write at position `k` has been
    /// performed: its file moves to the terminal `Written` state and the
    /// barrier records one more finished write.
    pub fn complete_write(&mut self, k: usize)
        requires
            old(self).wf(),
            k < old(self).writes@.len(),
            !old(self).writes@[k as int].done,
        ensures
            final(self).wf(),
            final(self).counters == old(self).counters,
            final(self).map == old(self).map,
            final(self).registry == old(self).registry,
            final(self).states@ == old(self).states@.update(
                old(self).writes@[k as int].index as int,
                FileState::Written,
            ),
            final(self).writes@ == old(self).writes@.update(
                k as int,
                (ScheduledWrite {
                    index: old(self).writes@[k as int].index,
                    job: old(self).writes@[k as int].job,
                    done: true,
                }),
            ),
            final(self).barrier.spec_registered() == old(self).barrier.spec_registered(),
            final(self).barrier.spec_finished() == old(self).barrier.spec_finished() + 1,
    {
        let idx: usize;
        {
            let w = self.writes.remove(k);
            idx = w.index;
            let w2 = ScheduledWrite { index: w.index, job: w.job, done: true };
            self.writes.insert(k, w2);
        }
        proof {
            assert(self.writes@ =~= old(self).writes@.update(
                k as int,
                (ScheduledWrite {
                    index: old(self).writes@[k as int].index,
                    job: old(self).writes@[k as int].job,
                    done: true,
                }),
            ));
            lemma_count_done_update(
                old(self).writes@,
                k as int,
                self.writes@[k as int],
            );
            lemma_count_done_partial(old(self).writes@, k as int);
        }
        let st = FileState::Written;
        self.set_state(idx, st);
        self.barrier.finish_one();
        proof {
            lemma_count_update(
                old(self).states@,
                idx as int,
                FileState::Written,
                FileState::Quarantined,
            );
            lemma_count_update(
                old(self).states@,
                idx as int,
                FileState::Written,
                FileState::Copied,
            );
            let newse = self.states@;
            let oldse = old(self).states@;
            assert forall|k2: int|
                0 <= k2 < self.writes@.len() implies newse[(#[trigger] self.writes@[k2]).index as int]
                == (if self.writes@[k2].done {
                FileState::Written
            } else {
                FileState::WriteScheduled
            }) by {
                if k2 == k as int {
                } else {
                    assert(self.writes@[k2] == old(self).writes@[k2]);
                    assert(old(self).writes@[k2].index != old(self).writes@[k as int].index);
                }
            }
            assert forall|i: int|
                0 <= i < newse.len() && ((#[trigger] newse[i]) == FileState::WriteScheduled
                    || newse[i] == FileState::Written) implies exists|k2: int|
                0 <= k2 < self.writes@.len() && (#[trigger] self.writes@[k2]).index == i by {
                if i == idx as int {
                    assert(self.writes@[k as int].index == i);
                } else {
                    assert(oldse[i] == newse[i]);
                    let k2 = choose|k2: int|
                        0 <= k2 < old(self).writes@.len() && (#[trigger] old(
                            self,
                        ).writes@[k2]).index == i;
                    assert(self.writes@[k2].index == i);
                }
            }
        }
    }

    /// Replaces the state of one file.
    fn set_state(&mut self, i: usize, st: FileState)
        requires
            i < old(self).states@.len(),
        ensures
            final(self).states@ == old(self).states@.update(i as int, st),
            final(self).counters == old(self).counters,
            final(self).writes == old(self).writes,
            final(self).barrier == old(self).barrier,
            final(self).map == old(self).map,
            final(self).registry == old(self).registry,
    {
        self.states.remove(i);
        self.states.insert(i, st);
        proof {
            assert(self.states@ =~= old(self).states@.update(i as int, st));
        }
    }

    /// Whether every scheduled write has finished: only then may the run
    /// report completion.
    pub fn all_writes_finished(&self) -> (r: bool)
        ensures
            r == (self.barrier.spec_finished() == self.barrier.spec_registered()),
    {
        self.barrier.all_finished()
    }

    /// The final report: total files seen, failed count, passthrough count.
    pub fn report(&self) -> (r: (u64, u64, u64))
        ensures
            r.0 == self.counters.total,
            r.1 == self.counters.failed,
            r.2 == self.counters.passthrough,
    {
        (self.counters.total, self.counters.failed, self.counters.passthrough)
    }
}

/// Whether the generator outputs handed to a run are pairwise distinct —
/// what a collision-free generator provides.
pub open spec fn fresh_distinct(fresh_codes: Seq<String>) -> bool {
    forall|j1: int, j2: int|
        #![trigger fresh_codes[j1], fresh_codes[j2]]
        0 <= j1 < j2 < fresh_codes.len() ==> fresh_codes[j1]@ != fresh_codes[j2]@
}

/// Whether every code in the table was formatted from one of the first `n`
/// generator outputs under the run's prefix.
pub open spec fn codes_from(
    m: Map<Seq<char>, Seq<char>>,
    prefix: Seq<char>,
    fresh_codes: Seq<String>,
    n: int,
) -> bool {
    forall|k: Seq<char>| #[trigger]
        m.contains_key(k) ==> exists|j: int|
            0 <= j < n && m[k] == prefixed_code(prefix, (#[trigger] fresh_codes[j])@)
}

/// Codes formatted from the first `n1` outputs are also formatted from the
/// first `n2`, for any larger `n2`.
pub proof fn lemma_codes_from_widen(
    m: Map<Seq<char>, Seq<char>>,
    prefix: Seq<char>,
    fresh_codes: Seq<String>,
    n1: int,
    n2: int,
)
    requires
        codes_from(m, prefix, fresh_codes, n1),
        n1 <= n2,
    ensures
        codes_from(m, prefix, fresh_codes, n2),
{
    assert forall|k: Seq<char>| #[trigger] m.contains_key(k) implies exists|j: int|
        0 <= j < n2 && m[k] == prefixed_code(prefix, (#[trigger] fresh_codes[j])@) by {
        let j = choose|j: int|
            0 <= j < n1 && m[k] == prefixed_code(prefix, (#[trigger] fresh_codes[j])@);
        assert(0 <= j < n2 && m[k] == prefixed_code(prefix, fresh_codes[j]@));
    }
}

/// Dispatches every discovered file's parse outcome: non-parseable files
/// are routed to passthrough copy, records the pipeline rejects to
/// quarantine copy, and every fully anonymized record to a scheduled
/// deferred write. `fresh_codes` holds, per file, the generator output the
/// identity map may consume when that file's patient is new.
pub fn dicom_anon(
    files: &Vec<FileInput>,
    dest: &String,
    prefix: &String,
    fresh_codes: &Vec<String>,
) -> (run: RunState)
    requires
        files@.len() == fresh_codes@.len(),
        files@.len() <= u64::MAX,
        forall|i: int| 0 <= i < files@.len() ==> input_ok(#[trigger] files@[i]),
    ensures
        run.wf(),
        run.counters.total == files@.len(),
        run.counters.dispatched == run.counters.total,
        run.states@.len() == files@.len(),
        run.barrier.spec_finished() == 0,
        forall|i: int| 0 <= i < files@.len() ==> routed(files@[i], #[trigger] run.states@[i]),
        fresh_distinct(fresh_codes@) ==> codes_injective(run.map@),
{
    let total = files.len();
    let mut counters = RunCounters::new(total as u64);
    let mut states: Vec<FileState> = Vec::new();
    let mut writes: Vec<ScheduledWrite> = Vec::new();
    let mut barrier = CompletionBarrier::new();
    let mut map = IdentityMap::new();
    let mut registry = PathRegistry::new();
    let mut i: usize = 0;
    while i < total
        invariant
            0 <= i <= total,
            total == files@.len(),
            files@.len() == fresh_codes@.len(),
            files@.len() <= u64::MAX,
            forall|j: int| 0 <= j < files@.len() ==> input_ok(#[trigger] files@[j]),
            counters.wf(),
            counters.total == total,
            counters.dispatched == i,
            states@.len() == i,
            counters.failed == count_in(states@, FileState::Quarantined),
            counters.passthrough == count_in(states@, FileState::Copied),
            barrier.wf(),
            barrier.spec_registered() == writes@.len(),
            barrier.spec_finished() == 0,
            count_done(writes@) == 0,
            writes@.len() <= i,
            forall|k: int|
                0 <= k < writes@.len() ==> (#[trigger] writes@[k]).index < i
                    && !writes@[k].done,
            forall|k1: int, k2: int|
                #![trigger writes@[k1].index, writes@[k2].index]
                0 <= k1 < k2 < writes@.len() ==> writes@[k1].index != writes@[k2].index,
            forall|k: int|
                0 <= k < writes@.len() ==> states@[(#[trigger] writes@[k]).index as int]
                    == FileState::WriteScheduled,
            forall|j: int|
                0 <= j < i && ((#[trigger] states@[j]) == FileState::WriteScheduled || states@[j]
                    == FileState::Written) ==> exists|k: int|
                    0 <= k < writes@.len() && (#[trigger] writes@[k]).index == j,
            forall|k: int|
                0 <= k < writes@.len() ==> registry.paths().contains(
                    (#[trigger] writes@[k]).job.path@,
                ),
            forall|k1: int, k2: int|
                #![trigger writes@[k1].job.path, writes@[k2].job.path]
                0 <= k1 < k2 < writes@.len() ==> writes@[k1].job.path@ != writes@[k2].job.path@,
            map.wf(),
            forall|j: int| 0 <= j < i ==> routed(files@[j], #[trigger] states@[j]),
            fresh_distinct(fresh_codes@) ==> codes_injective(map@) && codes_from(
                map@,
                prefix@,
                fresh_codes@,
                i as int,
            ),
        decreases total - i,
    {
        let ghost pre_states = states@;
        let ghost pre_writes = writes@;
        let ghost pre_map = map@;
        match &files[i] {
            FileInput::NotDicom => {
                counters.record_passthrough();
                states.push(FileState::Copied);
                proof {
                    lemma_count_push(pre_states, FileState::Copied, FileState::Quarantined);
                    lemma_count_push(pre_states, FileState::Copied, FileState::Copied);
                    if fresh_distinct(fresh_codes@) {
                        lemma_codes_from_widen(map@, prefix@, fresh_codes@, i as int, i + 1);
                    }
                }
            },
            FileInput::Dicom(rec) => {
                let fresh = fresh_codes[i].clone();
                let ghost fv = fresh@;
                let ghost pre_reg = registry;
                match anon_each_dcm_file(rec, dest, &mut map, prefix, fresh, &mut registry) {
                    Ok(job) => {
                        counters.record_scheduled();
                        barrier.register();
                        let ghost new_path = job.path@;
                        writes.push(ScheduledWrite { index: i, job, done: false });
                        states.push(FileState::WriteScheduled);
                        proof {
                            lemma_count_push(
                                pre_states,
                                FileState::WriteScheduled,
                                FileState::Quarantined,
                            );
                            lemma_count_push(
                                pre_states,
                                FileState::WriteScheduled,
                                FileState::Copied,
                            );
                            lemma_count_done_push(pre_writes, writes@.last());
                            assert(!pre_reg.paths().contains(new_path));
                            assert(registry.paths() == pre_reg.paths().insert(new_path));
                            assert forall|k: int|
                                0 <= k < writes@.len() implies registry.paths().contains(
                                (#[trigger] writes@[k]).job.path@,
                            ) by {
                                if k < pre_writes.len() {
                                    assert(writes@[k] == pre_writes[k]);
                                    assert(pre_reg.paths().contains(writes@[k].job.path@));
                                }
                            }
                            assert forall|k1: int, k2: int|
                                #![trigger writes@[k1].job.path, writes@[k2].job.path]
                                0 <= k1 < k2 < writes@.len() implies writes@[k1].job.path@
                                != writes@[k2].job.path@ by {
                                if k2 == writes@.len() - 1 {
                                    assert(pre_reg.paths().contains(writes@[k1].job.path@));
                                }
                            }
                            assert forall|j: int|
                                0 <= j < i + 1 && ((#[trigger] states@[j])
                                    == FileState::WriteScheduled || states@[j]
                                    == FileState::Written) implies exists|k: int|
                                0 <= k < writes@.len() && (#[trigger] writes@[k]).index == j by {
                                if j == i as int {
                                    assert(writes@[writes@.len() - 1].index == i);
                                } else {
                                    assert(states@[j] == pre_states[j]);
                                    let k = choose|k: int|
                                        0 <= k < pre_writes.len() && (#[trigger] pre_writes[k]).index
                                            == j;
                                    assert(writes@[k] == pre_writes[k]);
                                    assert(writes@[k].index == j);
                                }
                            }
                            if fresh_distinct(fresh_codes@) {
                                let idv = rec.spec_field(TAG_PATIENT_ID).value@;
                                if pre_map.contains_key(idv) {
                                    assert(map@ == pre_map);
                                    lemma_codes_from_widen(
                                        map@,
                                        prefix@,
                                        fresh_codes@,
                                        i as int,
                                        i + 1,
                                    );
                                } else {
                                    let cnew = prefixed_code(prefix@, fv);
                                    assert(map@ == pre_map.insert(idv, cnew));
                                    assert(fv == fresh_codes@[i as int]@);
                                    assert forall|k: Seq<char>| #[trigger] pre_map.contains_key(
                                        k,
                                    ) implies pre_map[k] != cnew by {
                                        let j = choose|j: int|
                                            0 <= j < i && pre_map[k] == prefixed_code(
                                                prefix@,
                                                (#[trigger] fresh_codes@[j])@,
                                            );
                                        assert(fresh_codes@[j]@ != fresh_codes@[i as int]@);
                                        lemma_prefixed_code_injective(
                                            prefix@,
                                            fresh_codes@[j]@,
                                            fresh_codes@[i as int]@,
                                        );
                                    }
                                    lemma_insert_preserves_injective(pre_map, idv, cnew);
                                    assert forall|k: Seq<char>| #[trigger] map@.contains_key(
                                        k,
                                    ) implies exists|j: int|
                                        0 <= j < i + 1 && map@[k] == prefixed_code(
                                            prefix@,
                                            (#[trigger] fresh_codes@[j])@,
                                        ) by {
                                        if k == idv {
                                            assert(map@[k] == prefixed_code(
                                                prefix@,
                                                fresh_codes@[i as int]@,
                                            ));
                                        } else {
                                            assert(pre_map.contains_key(k));
                                            let j = choose|j: int|
                                                0 <= j < i && pre_map[k] == prefixed_code(
                                                    prefix@,
                                                    (#[trigger] fresh_codes@[j])@,
                                                );
                                            assert(map@[k] == pre_map[k]);
                                            assert(0 <= j < i + 1 && map@[k] == prefixed_code(
                                                prefix@,
                                                fresh_codes@[j]@,
                                            ));
                                        }
                                    }
                                }
                            }
                        }
                    },
                    Err(_) => {
                        counters.record_quarantine();
                        states.push(FileState::Quarantined);
                        proof {
                            lemma_count_push(
                                pre_states,
                                FileState::Quarantined,
                                FileState::Quarantined,
                            );
                            lemma_count_push(
                                pre_states,
                                FileState::Quarantined,
                                FileState::Copied,
                            );
                            if fresh_distinct(fresh_codes@) {
                                assert(map@ == pre_map);
                                lemma_codes_from_widen(map@, prefix@, fresh_codes@, i as int, i + 1);
                            }
                        }
                    },
                }
            },
        }
        i += 1;
    }
    RunState { counters, states, writes, barrier, map, registry }
}

/// Outcome partition: in a run whose deferred writes have all finished,
/// failures and passthroughs together never exceed the total, every
/// dispatched file rests in exactly one of the three terminal states, and
/// the written files make up exactly what neither failed nor passed
/// through.
pub proof fn lemma_outcome_partition(run: RunState)
    requires
        run.wf(),
        run.barrier.spec_finished() == run.barrier.spec_registered(),
    ensures
        run.counters.failed + run.counters.passthrough <= run.counters.total,
        forall|i: int|
            0 <= i < run.states@.len() ==> (#[trigger] run.states@[i]) == FileState::Copied
                || run.states@[i] == FileState::Quarantined || run.states@[i]
                == FileState::Written,
        run.counters.failed + run.counters.passthrough + count_in(
            run.states@,
            FileState::Written,
        ) == run.counters.dispatched,
{
    lemma_count_done_full(run.writes@);
    assert forall|i: int|
        0 <= i < run.states@.len() implies (#[trigger] run.states@[i]) == FileState::Copied
        || run.states@[i] == FileState::Quarantined || run.states@[i] == FileState::Written by {
        if run.states@[i] == FileState::WriteScheduled {
            let k = choose|k: int|
                0 <= k < run.writes@.len() && (#[trigger] run.writes@[k]).index == i;
            assert(run.writes@[k].done);
        }
    }
    lemma_count_partition(run.states@);
    lemma_count_zero(run.states@, FileState::WriteScheduled);
}

} // verus!
