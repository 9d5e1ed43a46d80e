//! The chunked processor: it divides a generation's state into ordered
//! chunks, rewrites each chunk independently into its own result slot, and
//! reassembles the slots in chunk-index order, so the outcome is identical
//! to the simple processor's whatever the configuration.

use vstd::prelude::*;
use std::sync::Arc;

use crate::errors::{ConfigError, RewriteError};
use crate::process::{
    lemma_rewrite_concat, rewrite_seq, slice_rewrite_ok, SimpleProcessor,
};
use crate::state::{LSystem, RulesValue};

verus! {

/// The contiguous, order-preserving chunks of `s`: each of length `k`
/// except possibly a shorter final one.
pub open spec fn chunks_of(s: Seq<u32>, k: nat) -> Seq<Seq<u32>>
    decreases s.len(),
    when k >= 1
{
    if s.len() == 0 {
        Seq::empty()
    } else if s.len() <= k {
        seq![s]
    } else {
        seq![s.take(k as int)] + chunks_of(s.skip(k as int), k)
    }
}

/// The rewrites of a sequence of chunks, concatenated in chunk order.
pub open spec fn rewrite_chunks(prods: Map<u32, Seq<u32>>, cs: Seq<Seq<u32>>) -> Seq<u32>
    decreases cs.len(),
{
    if cs.len() == 0 {
        Seq::empty()
    } else {
        rewrite_seq(prods, cs[0]) + rewrite_chunks(prods, cs.skip(1))
    }
}

/// The symbol sequences held by a vector of chunk buffers.
pub open spec fn views_of(cs: Seq<Vec<u32>>) -> Seq<Seq<u32>> {
    cs.map_values(|v: Vec<u32>| v@)
}

/// How many chunks of `cs` have an allocation estimate that does not fit
/// in `usize`.
pub open spec fn unfit_count(be: nat, cs: Seq<Seq<u32>>) -> nat
    decreases cs.len(),
{
    if cs.len() == 0 {
        0
    } else {
        unfit_count(be, cs.drop_last()) + (if cs.last().len() * be > usize::MAX as nat {
            1nat
        } else {
            0nat
        })
    }
}

/// Every chunk's allocation estimate fits in `usize`.
pub open spec fn all_chunks_fit(be: nat, s: Seq<u32>, k: nat) -> bool {
    forall|i: int|
        0 <= i < chunks_of(s, k).len() ==> #[trigger] chunks_of(s, k)[i].len() * be
            <= usize::MAX as nat
}

/// Appending one chunk appends its rewrite.
pub proof fn lemma_rewrite_chunks_push(prods: Map<u32, Seq<u32>>, cs: Seq<Seq<u32>>, c: Seq<u32>)
    ensures
        rewrite_chunks(prods, cs.push(c)) == rewrite_chunks(prods, cs) + rewrite_seq(prods, c),
    decreases cs.len(),
{
    if cs.len() == 0 {
        assert(cs.push(c)[0] == c);
        assert(cs.push(c).skip(1) =~= Seq::<Seq<u32>>::empty());
        assert(rewrite_chunks(prods, cs.push(c)) == rewrite_seq(prods, c) + rewrite_chunks(
            prods,
            Seq::<Seq<u32>>::empty(),
        ));
        assert(rewrite_seq(prods, c) + Seq::<u32>::empty() =~= rewrite_seq(prods, c));
        assert(rewrite_chunks(prods, cs) + rewrite_seq(prods, c) =~= rewrite_seq(prods, c));
    } else {
        assert(cs.push(c).skip(1) =~= cs.skip(1).push(c));
        lemma_rewrite_chunks_push(prods, cs.skip(1), c);
        assert(cs.push(c)[0] == cs[0]);
        assert(rewrite_chunks(prods, cs.push(c)) =~= rewrite_chunks(prods, cs) + rewrite_seq(
            prods,
            c,
        )) by {
            assert(rewrite_chunks(prods, cs.push(c)) == rewrite_seq(prods, cs[0]) + (rewrite_chunks(
                prods,
                cs.skip(1),
            ) + rewrite_seq(prods, c)));
        }
    }
}

/// Chunk rewriting distributes over concatenation of chunk lists.
pub proof fn lemma_rewrite_chunks_concat(
    prods: Map<u32, Seq<u32>>,
    a: Seq<Seq<u32>>,
    b: Seq<Seq<u32>>,
)
    ensures
        rewrite_chunks(prods, a + b) == rewrite_chunks(prods, a) + rewrite_chunks(prods, b),
    decreases a.len(),
{
    if a.len() == 0 {
        assert(a + b =~= b);
        assert(rewrite_chunks(prods, a) + rewrite_chunks(prods, b) =~= rewrite_chunks(prods, b));
    } else {
        assert((a + b).skip(1) =~= a.skip(1) + b);
        lemma_rewrite_chunks_concat(prods, a.skip(1), b);
        assert((a + b)[0] == a[0]);
        assert(rewrite_chunks(prods, a + b) =~= rewrite_chunks(prods, a) + rewrite_chunks(
            prods,
            b,
        )) by {
            assert(rewrite_chunks(prods, a + b) == rewrite_seq(prods, a[0]) + (rewrite_chunks(
                prods,
                a.skip(1),
            ) + rewrite_chunks(prods, b)));
        }
    }
}

/// No chunk is longer than the chunk size.
pub proof fn lemma_chunk_len_le(s: Seq<u32>, k: nat)
    requires
        k >= 1,
    ensures
        forall|i: int| 0 <= i < chunks_of(s, k).len() ==> #[trigger] chunks_of(s, k)[i].len() <= k,
    decreases s.len(),
{
    if s.len() == 0 {
    } else if s.len() <= k {
        assert(chunks_of(s, k) == seq![s]);
        assert(chunks_of(s, k)[0] == s);
    } else {
        lemma_chunk_len_le(s.skip(k as int), k);
        let cs = chunks_of(s, k);
        assert(cs == seq![s.take(k as int)] + chunks_of(s.skip(k as int), k));
        assert forall|i: int| 0 <= i < cs.len() implies #[trigger] cs[i].len() <= k by {
            if i == 0 {
                assert(cs[0] == s.take(k as int));
            } else {
                assert(cs[i] == chunks_of(s.skip(k as int), k)[i - 1]);
            }
        }
    }
}

/// Equivalence and order preservation: rewriting a state chunk by chunk and
/// concatenating the results in chunk-index order yields exactly the
/// sequential rewrite of the whole state, for every chunk size.
pub proof fn lemma_chunked_equals_sequential(prods: Map<u32, Seq<u32>>, s: Seq<u32>, k: nat)
    requires
        k >= 1,
    ensures
        rewrite_chunks(prods, chunks_of(s, k)) == rewrite_seq(prods, s),
    decreases s.len(),
{
    if s.len() == 0 {
    } else if s.len() <= k {
        assert(chunks_of(s, k) == seq![s]);
        assert(seq![s][0] == s);
        assert(seq![s].skip(1) =~= Seq::<Seq<u32>>::empty());
        assert(rewrite_chunks(prods, seq![s]) == rewrite_seq(prods, s) + rewrite_chunks(
            prods,
            Seq::<Seq<u32>>::empty(),
        ));
        assert(rewrite_seq(prods, s) + Seq::<u32>::empty() =~= rewrite_seq(prods, s));
    } else {
        let head = seq![s.take(k as int)];
        let tail = chunks_of(s.skip(k as int), k);
        lemma_chunked_equals_sequential(prods, s.skip(k as int), k);
        lemma_rewrite_chunks_concat(prods, head, tail);
        assert(head.skip(1) =~= Seq::<Seq<u32>>::empty());
        assert(head[0] == s.take(k as int));
        assert(rewrite_chunks(prods, head) == rewrite_seq(prods, s.take(k as int))
            + rewrite_chunks(prods, Seq::<Seq<u32>>::empty()));
        assert(rewrite_seq(prods, s.take(k as int)) + Seq::<u32>::empty() =~= rewrite_seq(
            prods,
            s.take(k as int),
        ));
        lemma_rewrite_concat(prods, s.take(k as int), s.skip(k as int));
        assert(s.take(k as int) + s.skip(k as int) =~= s);
    }
}

/// The state after `n` chunked rewrite steps from `s`, each step rewriting
/// chunk by chunk and reassembling in chunk-index order.
pub open spec fn chunked_rewrite_n(prods: Map<u32, Seq<u32>>, s: Seq<u32>, k: nat, n: nat) -> Seq<
    u32,
>
    decreases n,
{
    if n == 0 {
        s
    } else {
        rewrite_chunks(prods, chunks_of(chunked_rewrite_n(prods, s, k, (n - 1) as nat), k))
    }
}

/// Equivalence over any number of steps: for any rules, any seed, any
/// valid chunk size and any iteration count, the chunked rewriter and the
/// sequential rewriter produce identical states.
pub proof fn lemma_chunked_n_equals_sequential_n(
    prods: Map<u32, Seq<u32>>,
    s: Seq<u32>,
    k: nat,
    n: nat,
)
    requires
        k >= 1,
    ensures
        chunked_rewrite_n(prods, s, k, n) == crate::process::rewrite_n(prods, s, n),
    decreases n,
{
    if n > 0 {
        lemma_chunked_n_equals_sequential_n(prods, s, k, (n - 1) as nat);
        lemma_chunked_equals_sequential(prods, crate::process::rewrite_n(prods, s, (n - 1) as nat), k);
    }
}

/// Copy the contiguous, order-preserving chunks of a state into separate
/// buffers, one per chunk index.
pub fn split_chunks(state: &Vec<u32>, k: usize) -> (cs: Vec<Vec<u32>>)
    requires
        k >= 1,
    ensures
        views_of(cs@) == chunks_of(state@, k as nat),
{
    let n: usize = state.len();
    let mut cs: Vec<Vec<u32>> = Vec::new();
    let mut i: usize = 0;
    proof {
        assert(views_of(cs@) =~= Seq::<Seq<u32>>::empty());
        assert(state@.skip(0) =~= state@);
        assert(Seq::<Seq<u32>>::empty() + chunks_of(state@, k as nat) =~= chunks_of(
            state@,
            k as nat,
        ));
    }
    while i < n
        invariant
            i <= n,
            n == state@.len(),
            k >= 1,
            chunks_of(state@, k as nat) == views_of(cs@) + chunks_of(
                state@.skip(i as int),
                k as nat,
            ),
        decreases n - i,
    {
        let end: usize = if n - i <= k {
            n
        } else {
            i + k
        };
        let mut chunk: Vec<u32> = Vec::new();
        let mut j: usize = i;
        while j < end
            invariant
                i <= j <= end,
                end <= n,
                n == state@.len(),
                chunk@ == state@.subrange(i as int, j as int),
            decreases end - j,
        {
            chunk.push(state[j]);
            proof {
                assert(state@.subrange(i as int, j + 1 as int) =~= state@.subrange(
                    i as int,
                    j as int,
                ).push(state@[j as int]));
            }
            j = j + 1;
        }
        proof {
            let ghost s_i = state@.skip(i as int);
            assert(s_i.len() == n - i);
            if n - i <= k {
                assert(chunk@ =~= s_i);
                assert(chunks_of(s_i, k as nat) == seq![s_i]);
                assert(state@.skip(n as int).len() == 0);
                assert(chunks_of(state@.skip(end as int), k as nat) =~= Seq::<Seq<u32>>::empty());
                assert(seq![s_i] =~= seq![chunk@] + chunks_of(state@.skip(end as int), k as nat));
            } else {
                assert(chunk@ =~= s_i.take(k as int));
                assert(s_i.skip(k as int) =~= state@.skip(end as int));
                assert(chunks_of(s_i, k as nat) == seq![chunk@] + chunks_of(
                    state@.skip(end as int),
                    k as nat,
                ));
            }
            assert(views_of(cs@.push(chunk)) =~= views_of(cs@).push(chunk@));
            assert(views_of(cs@).push(chunk@) + chunks_of(state@.skip(end as int), k as nat)
                =~= views_of(cs@) + (seq![chunk@] + chunks_of(state@.skip(end as int), k as nat)));
        }
        cs.push(chunk);
        i = end;
    }
    proof {
        assert(state@.skip(i as int).len() == 0);
        assert(chunks_of(state@.skip(i as int), k as nat) =~= Seq::<Seq<u32>>::empty());
        assert(views_of(cs@) + Seq::<Seq<u32>>::empty() =~= views_of(cs@));
    }
    cs
}

/// Parallel-style processor dividing a state into chunks that are rewritten
/// independently, each into its own result slot.
pub struct ChunksProcessor {
    /// The number of symbols per full chunk.
    chunk_size: usize,
    /// The bound on simultaneous chunk tasks.
    max_tasks: usize,
}

impl ChunksProcessor {
    /// The configured chunk size.
    pub closed spec fn chunk_size_spec(&self) -> usize {
        self.chunk_size
    }

    /// The configured task bound.
    pub closed spec fn max_tasks_spec(&self) -> usize {
        self.max_tasks
    }

    /// A processor is well formed when both parameters are nonzero.
    pub open spec fn wf(&self) -> bool {
        self.chunk_size_spec() >= 1 && self.max_tasks_spec() >= 1
    }

    /// When a chunked rewrite step on `l` is owed success: the state is
    /// nonempty, every chunk's allocation estimate fits in `usize`, and so
    /// does the total rewritten length.
    pub open spec fn iterate_succeeds(&self, l: LSystem) -> bool {
        &&& l.state_spec().len() > 0
        &&& all_chunks_fit(
            l.rules_spec().be() as nat,
            l.state_spec(),
            self.chunk_size_spec() as nat,
        )
        &&& rewrite_seq(l.rules_spec().prods(), l.state_spec()).len() <= usize::MAX as nat
    }

    /// Try to create a new `ChunksProcessor` with the given parameters.
    /// Construction fails exactly when either parameter is zero.
    pub fn new(max_tasks: usize, chunks_size: usize) -> (r: Result<ChunksProcessor, ConfigError>)
        ensures
            match r {
                Ok(c) => {
                    &&& max_tasks >= 1
                    &&& chunks_size >= 1
                    &&& c.chunk_size_spec() == chunks_size
                    &&& c.max_tasks_spec() == max_tasks
                    &&& c.wf()
                },
                Err(e) => match e {
                    ConfigError::ZeroMaxTasks => max_tasks == 0,
                    ConfigError::ZeroChunkSize => max_tasks >= 1 && chunks_size == 0,
                },
            },
    {
        if max_tasks == 0 {
            Err(ConfigError::ZeroMaxTasks)
        } else if chunks_size == 0 {
            Err(ConfigError::ZeroChunkSize)
        } else {
            Ok(ChunksProcessor { chunk_size: chunks_size, max_tasks })
        }
    }

    /// Try to rewrite the given L-system into its next generation, chunk by
    /// chunk. An empty state is rejected; a failing chunk task makes the
    /// whole step fail with the failing chunk indices aggregated; the
    /// reassembled state is exactly the sequential rewrite of the input.
    pub fn iterate(&mut self, lsystem: &LSystem) -> (r: Result<LSystem, RewriteError>)
        requires
            old(self).wf(),
            lsystem.wf(),
            old(self).iterate_succeeds(*lsystem) ==> lsystem.iter_spec() < u64::MAX,
        ensures
            *final(self) == *old(self),
            ({
                let s = lsystem.state_spec();
                let prods = lsystem.rules_spec().prods();
                let be = lsystem.rules_spec().be() as nat;
                let k = old(self).chunk_size_spec() as nat;
                match r {
                    Ok(l2) => {
                        &&& s.len() > 0
                        &&& all_chunks_fit(be, s, k)
                        &&& rewrite_seq(prods, s).len() <= usize::MAX as nat
                        &&& l2.state_spec() == rewrite_seq(prods, s)
                        &&& l2.iter_spec() == lsystem.iter_spec() + 1
                        &&& l2.rules_spec() == lsystem.rules_spec()
                        &&& l2.wf()
                    },
                    Err(e) => match e {
                        RewriteError::EmptyState => s.len() == 0,
                        RewriteError::AggregatedChunks(idxs) => {
                            &&& s.len() > 0
                            &&& idxs@.len() > 0
                            &&& idxs@.len() == unfit_count(be, chunks_of(s, k))
                            &&& forall|j: int, j2: int|
                                0 <= j < j2 < idxs@.len() ==> idxs@[j] < idxs@[j2]
                            &&& forall|j: int|
                                0 <= j < idxs@.len() ==> (idxs@[j] as int) < chunks_of(s, k).len()
                                    && chunks_of(s, k)[#[trigger] idxs@[j] as int].len() * be
                                    > usize::MAX as nat
                            &&& forall|c: int|
                                0 <= c < chunks_of(s, k).len() && #[trigger] chunks_of(s, k)[c].len()
                                    * be > usize::MAX as nat ==> idxs@.contains(c as usize)
                        },
                        RewriteError::Overflow => {
                            &&& s.len() > 0
                            &&& all_chunks_fit(be, s, k)
                            &&& rewrite_seq(prods, s).len() > usize::MAX as nat
                        },
                    },
                }
            }),
    {
        let state = lsystem.state();
        let state_len: usize = state.len();
        if state_len == 0 {
            return Err(RewriteError::EmptyState);
        }
        let rules: RulesValue = Arc::clone(lsystem.rules());
        let k: usize = self.chunk_size;

        // Fan-out set-up: one exclusively-owned result slot per chunk index.
        let chunks = split_chunks(state, k);
        let nchunks: usize = chunks.len();
        let mut results: Vec<Result<Vec<u32>, RewriteError>> = Vec::with_capacity(nchunks);
        let mut i: usize = 0;
        while i < nchunks
            invariant
                i <= nchunks,
                nchunks == chunks@.len(),
                (*rules).wf(),
                results@.len() == i,
                forall|j: int|
                    0 <= j < i ==> slice_rewrite_ok(
                        (*rules).prods(),
                        (*rules).be() as nat,
                        chunks@[j]@,
                        #[trigger] results@[j],
                    ),
            decreases nchunks - i,
        {
            let r = SimpleProcessor::iterate_slice(&chunks[i], &rules);
            results.push(r);
            i = i + 1;
        }

        // Error handling: aggregate the indices of all failed chunk tasks.
        let mut failures: Vec<usize> = Vec::new();
        proof {
            assert(views_of(chunks@).take(0) =~= Seq::<Seq<u32>>::empty());
            assert(unfit_count((*rules).be() as nat, Seq::<Seq<u32>>::empty()) == 0);
        }
        let mut i: usize = 0;
        while i < nchunks
            invariant
                i <= nchunks,
                nchunks == chunks@.len(),
                results@.len() == nchunks,
                (*rules).wf(),
                forall|j: int|
                    0 <= j < nchunks ==> slice_rewrite_ok(
                        (*rules).prods(),
                        (*rules).be() as nat,
                        chunks@[j]@,
                        #[trigger] results@[j],
                    ),
                failures@.len() == unfit_count((*rules).be() as nat, views_of(chunks@).take(i as int)),
                forall|j: int, j2: int|
                    0 <= j < j2 < failures@.len() ==> failures@[j] < failures@[j2],
                forall|j: int|
                    0 <= j < failures@.len() ==> (#[trigger] failures@[j] as int) < i
                        && results@[failures@[j] as int] is Err,
                forall|t: int|
                    0 <= t < i && #[trigger] results@[t] is Err ==> failures@.contains(t as usize),
            decreases nchunks - i,
        {
            let failed = match &results[i] {
                Ok(_) => false,
                Err(_) => true,
            };
            proof {
                let cs = views_of(chunks@);
                assert(cs.take(i + 1 as int).drop_last() =~= cs.take(i as int));
                assert(cs.take(i + 1 as int).last() == chunks@[i as int]@);
                assert(slice_rewrite_ok(
                    (*rules).prods(),
                    (*rules).be() as nat,
                    chunks@[i as int]@,
                    results@[i as int],
                ));
            }
            if failed {
                let ghost old_f = failures@;
                failures.push(i);
                proof {
                    assert forall|t: int|
                        0 <= t < i + 1 && #[trigger] results@[t] is Err implies failures@.contains(
                        t as usize,
                    ) by {
                        if t == i {
                            assert(failures@[old_f.len() as int] == i as usize);
                        } else {
                            assert(old_f.contains(t as usize));
                            let j = choose|j: int| 0 <= j < old_f.len() && old_f[j] == t as usize;
                            assert(failures@[j] == t as usize);
                        }
                    }
                }
            } else {
                proof {
                    assert(!(results@[i as int] is Err));
                    assert forall|t: int|
                        0 <= t < i + 1 && #[trigger] results@[t] is Err implies failures@.contains(
                        t as usize,
                    ) by {
                        assert(t < i);
                    }
                }
            }
            i = i + 1;
        }
        proof {
            let s = lsystem.state_spec();
            let be = (*rules).be() as nat;
            let kk = k as nat;
            assert(chunks_of(s, kk).len() == nchunks);
            assert forall|j: int| 0 <= j < failures@.len() implies (#[trigger] failures@[j] as int)
                < chunks_of(s, kk).len() && chunks_of(s, kk)[failures@[j] as int].len() * be
                > usize::MAX as nat by {
                let t = failures@[j] as int;
                assert(results@[t] is Err);
                assert(slice_rewrite_ok((*rules).prods(), be, chunks@[t]@, results@[t]));
                assert(views_of(chunks@)[t] == chunks@[t]@);
            }
            assert forall|c: int|
                0 <= c < chunks_of(s, kk).len() && #[trigger] chunks_of(s, kk)[c].len() * be
                    > usize::MAX as nat implies failures@.contains(c as usize) by {
                assert(views_of(chunks@)[c] == chunks@[c]@);
                assert(slice_rewrite_ok((*rules).prods(), be, chunks@[c]@, results@[c]));
                assert(results@[c] is Err);
            }
            assert(views_of(chunks@).take(nchunks as int) =~= views_of(chunks@));
            assert(failures@.len() == unfit_count(be, chunks_of(s, kk)));
        }
        if failures.len() > 0 {
            return Err(RewriteError::AggregatedChunks(failures));
        }
        proof {
            let s = lsystem.state_spec();
            let be = (*rules).be() as nat;
            let kk = k as nat;
            assert forall|c: int| 0 <= c < chunks_of(s, kk).len() implies #[trigger] chunks_of(
                s,
                kk,
            )[c].len() * be <= usize::MAX as nat by {
                assert(views_of(chunks@)[c] == chunks@[c]@);
                assert(slice_rewrite_ok((*rules).prods(), be, chunks@[c]@, results@[c]));
                if results@[c] is Err {
                    assert(failures@.contains(c as usize));
                    assert(false);
                }
            }
            assert(all_chunks_fit(be, s, kk));
            assert forall|t: int| 0 <= t < nchunks implies !(#[trigger] results@[t] is Err) by {
                if results@[t] is Err {
                    assert(failures@.contains(t as usize));
                }
            }
        }

        // Final assembling, in chunk-index order, with overflow detection on
        // the accumulated length.
        let ghost prods = (*rules).prods();
        let mut new_state: Vec<u32> = Vec::new();
        let mut new_state_size: usize = 0;
        let mut i: usize = 0;
        while i < nchunks
            invariant
                i <= nchunks,
                nchunks == chunks@.len(),
                results@.len() == nchunks,
                prods == (*rules).prods(),
                (*rules).wf(),
                *rules == lsystem.rules_spec(),
                lsystem.wf(),
                views_of(chunks@) == chunks_of(lsystem.state_spec(), k as nat),
                k >= 1,
                k == old(self).chunk_size_spec(),
                lsystem.state_spec().len() > 0,
                all_chunks_fit((*rules).be() as nat, lsystem.state_spec(), k as nat),
                forall|j: int|
                    0 <= j < nchunks ==> slice_rewrite_ok(
                        (*rules).prods(),
                        (*rules).be() as nat,
                        chunks@[j]@,
                        #[trigger] results@[j],
                    ),
                forall|t: int| 0 <= t < nchunks ==> !(#[trigger] results@[t] is Err),
                new_state@ == rewrite_chunks(prods, views_of(chunks@).take(i as int)),
                new_state_size == new_state@.len(),
            decreases nchunks - i,
        {
            let ghost prev = new_state@;
            match &results[i] {
                Ok(v) => {
                    new_state_size = match new_state_size.checked_add(v.len()) {
                        Some(x) => x,
                        None => {
                            proof {
                                assert(views_of(chunks@)[i as int] == chunks@[i as int]@);
                                assert(slice_rewrite_ok(
                                    (*rules).prods(),
                                    (*rules).be() as nat,
                                    chunks@[i as int]@,
                                    results@[i as int],
                                ));
                                assert(v@ == rewrite_seq(prods, views_of(chunks@)[i as int]));
                                lemma_overflow_means_total_overflow(
                                    prods,
                                    views_of(chunks@),
                                    i as int,
                                    lsystem.state_spec(),
                                    k as nat,
                                );
                            }
                            return Err(RewriteError::Overflow);
                        },
                    };
                    new_state.extend_from_slice(v.as_slice());
                    proof {
                        assert(new_state@ =~= prev + v@);
                    }
                },
                Err(_) => {
                    proof {
                        assert(results@[i as int] is Err);
                        assert(false);
                    }
                },
            }
            proof {
                assert(views_of(chunks@).take(i + 1 as int) =~= views_of(chunks@).take(
                    i as int,
                ).push(chunks@[i as int]@));
                lemma_rewrite_chunks_push(prods, views_of(chunks@).take(i as int), chunks@[i as int]@);
            }
            i = i + 1;
        }
        proof {
            assert(views_of(chunks@).take(nchunks as int) =~= views_of(chunks@));
            lemma_chunked_equals_sequential(prods, lsystem.state_spec(), k as nat);
        }
        Ok(LSystem::new(new_state, rules, Some(lsystem.iteration() + 1)))
    }
}

/// If the accumulated length overflows while appending chunk `i`'s rewrite,
/// the full rewrite is longer than `usize::MAX`.
proof fn lemma_overflow_means_total_overflow(
    prods: Map<u32, Seq<u32>>,
    cs: Seq<Seq<u32>>,
    i: int,
    s: Seq<u32>,
    k: nat,
)
    requires
        k >= 1,
        0 <= i < cs.len(),
        cs == chunks_of(s, k),
        rewrite_chunks(prods, cs.take(i)).len() + rewrite_seq(prods, cs[i]).len() > usize::MAX
            as nat,
    ensures
        rewrite_seq(prods, s).len() > usize::MAX as nat,
{
    assert(cs.take(i + 1) =~= cs.take(i).push(cs[i]));
    lemma_rewrite_chunks_push(prods, cs.take(i), cs[i]);
    assert(cs =~= cs.take(i + 1) + cs.skip(i + 1));
    lemma_rewrite_chunks_concat(prods, cs.take(i + 1), cs.skip(i + 1));
    lemma_chunked_equals_sequential(prods, s, k);
}

} // verus!
