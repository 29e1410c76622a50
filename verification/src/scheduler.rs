//! The two-pass warming scheduler.
//!
//! A run first sizes the whole candidate list in one stats-only engine
//! invocation (so the progress surface knows the total up front), then
//! warms the list chunk by chunk, strictly sequentially, constructing a
//! fresh engine instance for every chunk so that no chunk observes engine
//! state — in particular accumulated memory — from a prior chunk.
//!
//! The scheduler is a state machine from plain values to plain values: each
//! call of `next_request` decides the next engine invocation (which engine
//! instance to construct, with what concurrency and mode, over which
//! targets) and the program's edge carries it out, feeding the byte counts
//! it produces to the progress totals. Byte counts never influence the
//! schedule.

use vstd::prelude::*;
use crate::chunking::chunk_count;
use crate::chunking::chunk_end;
use crate::chunking::chunk_of;
use crate::chunking::covered_len;
use crate::chunking::lemma_chunk_bounds;
use crate::chunking::lemma_chunk_count_bounds;
use crate::chunking::lemma_chunk_count_unique;

verus! {

/// The immutable configuration of a run: the concurrency limit and chunk
/// size for the engine (both positive) and the retention threshold in
/// seconds (files modified more recently are left alone).
pub struct WarmingConfig {
    pub threads: usize,
    pub chunk_size: usize,
    pub threshold_secs: u64,
}

impl WarmingConfig {
    /// A configuration is well formed when both bounds are positive.
    pub open spec fn wf(self) -> bool {
        &&& self.threads >= 1
        &&& self.chunk_size >= 1
    }

    /// Builds a configuration, refusing a zero concurrency limit or a zero
    /// chunk size.
    pub fn new(threads: usize, chunk_size: usize, threshold_secs: u64) -> (r: Option<
        WarmingConfig,
    >)
        ensures
            threads >= 1 && chunk_size >= 1 ==> r == Some(
                (WarmingConfig { threads, chunk_size, threshold_secs }),
            ),
            threads == 0 || chunk_size == 0 ==> r is None,
    {
        if threads >= 1 && chunk_size >= 1 {
            Some(WarmingConfig { threads, chunk_size, threshold_secs })
        } else {
            None
        }
    }
}

/// One engine invocation, decided by the scheduler and carried out at the
/// program's edge: construct engine instance number `engine_id` with
/// `threads` workers and the given mode, register `targets`, and drain its
/// event sequence. Every request names a new instance — an engine is
/// single-use and never carries state from one invocation to the next.
pub struct EngineRequest {
    pub engine_id: usize,
    pub threads: usize,
    pub stats_only: bool,
    pub targets: Vec<String>,
}

/// The engine instance number of the estimation pass.
pub open spec fn estimation_engine_id() -> int {
    0
}

/// The engine instance number that warms chunk `i`.
pub open spec fn chunk_engine_id(i: int) -> int {
    i + 1
}

/// Fresh engine per chunk: distinct chunks are warmed by distinct engine
/// instances, and never by the instance that ran the estimation pass, so
/// no chunk's warming invocation observes state from a prior invocation.
pub proof fn lemma_fresh_engine_per_chunk(i: int, j: int)
    requires
        0 <= i,
        0 <= j,
        i != j,
    ensures
        chunk_engine_id(i) != chunk_engine_id(j),
        chunk_engine_id(i) != estimation_engine_id(),
{
}

/// Where a run stands: about to size the list, warming it chunk by chunk,
/// or finished.
pub enum Phase {
    Estimating,
    Warming,
    Done,
}

/// Drives the two passes over one candidate list: first the one-shot
/// stats-only estimation over the whole list, then one content-read
/// invocation per chunk, strictly in order.
pub struct WarmingScheduler {
    pub candidates: Vec<String>,
    pub config: WarmingConfig,
    pub phase: Phase,
    pub chunks_issued: usize,
    pub next_start: usize,
}

impl WarmingScheduler {
    /// How many chunks the warming pass has in total.
    pub open spec fn num_chunks(self) -> int {
        chunk_count(self.candidates@.len() as int, self.config.chunk_size as int)
    }

    /// The scheduler's invariant: the configuration is well formed,
    /// `next_start` is exactly the part of the list the issued chunks
    /// cover, the last issued chunk started inside the list, nothing is
    /// issued before the estimation pass, and a finished run has issued
    /// every chunk.
    pub open spec fn wf(self) -> bool {
        &&& self.config.wf()
        &&& self.next_start == covered_len(
            self.candidates@.len() as int,
            self.config.chunk_size as int,
            self.chunks_issued as int,
        )
        &&& self.chunks_issued == 0 || (self.chunks_issued - 1) * self.config.chunk_size
            < self.candidates@.len()
        &&& (self.phase is Estimating ==> self.chunks_issued == 0)
        &&& (self.phase is Done ==> self.chunks_issued == self.num_chunks())
    }

    /// Starts a run over the given candidate list.
    pub fn new(candidates: Vec<String>, config: WarmingConfig) -> (s: WarmingScheduler)
        requires
            config.wf(),
        ensures
            s.wf(),
            s.candidates@ == candidates@,
            s.config == config,
            s.phase is Estimating,
            s.chunks_issued == 0,
    {
        let s = WarmingScheduler {
            candidates,
            config,
            phase: Phase::Estimating,
            chunks_issued: 0,
            next_start: 0,
        };
        proof {
            assert(covered_len(s.candidates@.len() as int, s.config.chunk_size as int, 0) == 0)
                by (nonlinear_arith)
                requires
                    s.candidates@.len() >= 0,
            ;
        }
        s
    }

    /// Decides the next engine invocation, or `None` when the run is over.
    ///
    /// The first call returns the estimation request: engine instance 0 in
    /// stats-only mode over the whole candidate list. Each further call
    /// returns the next warming request: a fresh engine instance (number
    /// `i + 1` for chunk `i`, never reused) in content-read mode over
    /// exactly chunk `i` of the list, in the original order. Once every
    /// chunk is issued the run is done and every later call returns
    /// `None`. An empty candidate list has no chunks: its estimation
    /// request carries no targets and the first warming call already ends
    /// the run.
    pub fn next_request(&mut self) -> (r: Option<EngineRequest>)
        requires
            old(self).wf(),
        ensures
            final (self).wf(),
            final (self).candidates@ == old(self).candidates@,
            final (self).config == old(self).config,
            old(self).phase is Estimating ==> {
                &&& r matches Some(req)
                &&& req.engine_id == estimation_engine_id()
                &&& req.threads == old(self).config.threads
                &&& req.stats_only
                &&& req.targets@ == old(self).candidates@
                &&& final (self).phase is Warming
                &&& final (self).chunks_issued == 0
            },
            old(self).phase is Warming && old(self).chunks_issued < old(self).num_chunks() ==> {
                &&& r matches Some(req)
                &&& req.engine_id == chunk_engine_id(old(self).chunks_issued as int)
                &&& req.threads == old(self).config.threads
                &&& !req.stats_only
                &&& req.targets@ == chunk_of(
                    old(self).candidates@,
                    old(self).config.chunk_size as int,
                    old(self).chunks_issued as int,
                )
                &&& final (self).phase is Warming
                &&& final (self).chunks_issued == old(self).chunks_issued + 1
            },
            old(self).phase is Warming && old(self).chunks_issued == old(self).num_chunks() ==> {
                &&& r is None
                &&& final (self).phase is Done
                &&& final (self).chunks_issued == old(self).chunks_issued
            },
            old(self).phase is Done ==> r is None && *final (self) == *old(self),
    {
        let len: usize = self.candidates.len();
        let c: usize = self.config.chunk_size;
        match self.phase {
            Phase::Estimating => {
                let mut targets: Vec<String> = Vec::new();
                let mut j: usize = 0;
                while j < len
                    invariant
                        j <= len,
                        len == self.candidates@.len(),
                        targets@ == self.candidates@.take(j as int),
                    decreases len - j,
                {
                    targets.push(self.candidates[j].clone());
                    proof {
                        assert(self.candidates@.take(j + 1) =~= self.candidates@.take(
                            j as int,
                        ).push(self.candidates@[j as int]));
                    }
                    j = j + 1;
                }
                proof {
                    assert(self.candidates@.take(len as int) =~= self.candidates@);
                }
                self.phase = Phase::Warming;
                Some(
                    EngineRequest {
                        engine_id: 0,
                        threads: self.config.threads,
                        stats_only: true,
                        targets,
                    },
                )
            },
            Phase::Warming => {
                if self.next_start < len {
                    let ghost i = self.chunks_issued as int;
                    proof {
                        assert(i * c < len) by (nonlinear_arith)
                            requires
                                covered_len(len as int, c as int, i) < len as int,
                                len >= 0,
                                i >= 0,
                                c >= 1,
                        ;
                        lemma_chunk_count_unique_side(len as int, c as int, i);
                        lemma_chunk_count_bounds(len as int, c as int);
                        lemma_chunk_bounds(len as int, c as int, i);
                    }
                    let start: usize = self.next_start;
                    let remaining: usize = len - start;
                    let this_len: usize = if remaining < c {
                        remaining
                    } else {
                        c
                    };
                    let end: usize = start + this_len;
                    let mut targets: Vec<String> = Vec::new();
                    let mut j: usize = start;
                    while j < end
                        invariant
                            start <= j <= end,
                            end <= len,
                            len == self.candidates@.len(),
                            targets@ == self.candidates@.subrange(start as int, j as int),
                        decreases end - j,
                    {
                        targets.push(self.candidates[j].clone());
                        proof {
                            assert(self.candidates@.subrange(start as int, j + 1)
                                =~= self.candidates@.subrange(start as int, j as int).push(
                                self.candidates@[j as int],
                            ));
                        }
                        j = j + 1;
                    }
                    proof {
                        assert((i + 1) * c == i * c + c) by (nonlinear_arith);
                        assert(end as int == chunk_end(len as int, c as int, i));
                        assert(targets@ =~= chunk_of(self.candidates@, c as int, i));
                        assert(end as int == covered_len(len as int, c as int, i + 1));
                    }
                    let id: usize = self.chunks_issued + 1;
                    self.chunks_issued = id;
                    self.next_start = end;
                    Some(
                        EngineRequest {
                            engine_id: id,
                            threads: self.config.threads,
                            stats_only: false,
                            targets,
                        },
                    )
                } else {
                    proof {
                        let n = self.chunks_issued as int;
                        assert(n * c >= len) by (nonlinear_arith)
                            requires
                                covered_len(len as int, c as int, n) == len as int,
                                len >= 0,
                                c >= 1,
                        ;
                        lemma_chunk_count_unique(len as int, c as int, n);
                    }
                    self.phase = Phase::Done;
                    None
                }
            },
            Phase::Done => None,
        }
    }
}

/// Helper: a chunk that starts strictly inside the list is not yet the
/// last one issued past the end, so its index is below the chunk count.
proof fn lemma_chunk_count_unique_side(len: int, c: int, i: int)
    requires
        len >= 0,
        c >= 1,
        i >= 0,
        i * c < len,
    ensures
        i < chunk_count(len, c),
{
    lemma_chunk_count_bounds(len, c);
    let n = chunk_count(len, c);
    assert(i < n) by (nonlinear_arith)
        requires
            i * c < len,
            n * c >= len,
            c >= 1,
            i >= 0,
            n >= 0,
    ;
}

} // verus!
