//! Byte-progress accounting: the running totals behind the progress surface.
//!
//! The pipeline reports two kinds of events: "N additional bytes expected"
//! during the estimation pass and "N additional bytes completed" during the
//! warming pass. The totals are observational only — they never influence
//! scheduling — and adding to them can never fail: a total that would pass
//! the 64-bit range saturates instead.

use vstd::prelude::*;
use crate::chunking::lemma_seq_sum_nonneg;
use crate::chunking::seq_sum;

verus! {

/// `a + b` clamped to the 64-bit range.
pub open spec fn saturated_add(a: u64, b: u64) -> u64 {
    if a + b > u64::MAX {
        u64::MAX
    } else {
        (a + b) as u64
    }
}

/// Running byte totals for one run: bytes expected (from the estimation
/// pass) and bytes completed (from the warming pass).
pub struct ProgressTotals {
    pub expected_bytes: u64,
    pub completed_bytes: u64,
}

impl ProgressTotals {
    /// Fresh totals: nothing expected, nothing completed.
    pub fn new() -> (r: ProgressTotals)
        ensures
            r.expected_bytes == 0,
            r.completed_bytes == 0,
    {
        ProgressTotals { expected_bytes: 0, completed_bytes: 0 }
    }

    /// Records `n` additional bytes expected.
    pub fn add_expected(&mut self, n: u64)
        ensures
            final(self).expected_bytes == saturated_add(old(self).expected_bytes, n),
            final(self).completed_bytes == old(self).completed_bytes,
    {
        self.expected_bytes = self.expected_bytes.saturating_add(n);
    }

    /// Records `n` additional bytes completed.
    pub fn add_completed(&mut self, n: u64)
        ensures
            final(self).completed_bytes == saturated_add(old(self).completed_bytes, n),
            final(self).expected_bytes == old(self).expected_bytes,
    {
        self.completed_bytes = self.completed_bytes.saturating_add(n);
    }
}

/// A total after feeding a list of byte counts, in order, one saturating
/// add each: what `expected_bytes` (or `completed_bytes`) holds after one
/// `add_expected` (or `add_completed`) per count, starting from zero.
pub open spec fn accumulated(s: Seq<u64>) -> u64
    decreases s.len(),
{
    if s.len() == 0 {
        0u64
    } else {
        saturated_add(accumulated(s.drop_last()), s.last())
    }
}

/// Saturating accumulation computes the mathematical total, clamped to the
/// 64-bit range: progress only misstates a total that no 64-bit counter
/// could hold, and then pins it at the maximum.
pub proof fn lemma_accumulated_is_clamped_sum(s: Seq<u64>)
    ensures
        seq_sum(s) <= u64::MAX ==> accumulated(s) == seq_sum(s),
        seq_sum(s) > u64::MAX ==> accumulated(s) == u64::MAX,
    decreases s.len(),
{
    if s.len() > 0 {
        lemma_accumulated_is_clamped_sum(s.drop_last());
        lemma_seq_sum_nonneg(s.drop_last());
    }
}

/// Estimation/warming consistency at the progress surface: two event
/// streams that total the same byte count — as the estimation pass and the
/// chunked warming pass do when the filesystem does not change between
/// them — leave equal totals behind, saturation included.
pub proof fn lemma_totals_agree(a: Seq<u64>, b: Seq<u64>)
    requires
        seq_sum(a) == seq_sum(b),
    ensures
        accumulated(a) == accumulated(b),
{
    lemma_accumulated_is_clamped_sum(a);
    lemma_accumulated_is_clamped_sum(b);
}

} // verus!
