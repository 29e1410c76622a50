//! Chunking of the candidate list.
//!
//! The warming engine accumulates resident memory in proportion to the
//! number of files one instance processes, so the warming pass splits the
//! candidate list into contiguous chunks of a configured maximum size and
//! gives each chunk its own engine instance. The chunks partition the list
//! exhaustively and without overlap: their concatenation, in order, is
//! exactly the original list.

use vstd::prelude::*;
use vstd::arithmetic::div_mod::lemma_fundamental_div_mod;
use vstd::arithmetic::div_mod::lemma_fundamental_div_mod_converse;

verus! {

/// How many chunks a list of length `len` splits into with chunk size `c`:
/// the ceiling of `len / c`.
pub open spec fn chunk_count(len: int, c: int) -> int
    recommends
        len >= 0,
        c >= 1,
{
    (len + c - 1) / c
}

/// One past the last index of chunk `i`: `(i + 1) * c`, clamped to `len`
/// for the final, possibly shorter, chunk.
pub open spec fn chunk_end(len: int, c: int, i: int) -> int {
    if i * c + c <= len {
        i * c + c
    } else {
        len
    }
}

/// Chunk `i` of `s`: the contiguous slice from `i * c` up to `chunk_end`.
pub open spec fn chunk_of<A>(s: Seq<A>, c: int, i: int) -> Seq<A> {
    s.subrange(i * c, chunk_end(s.len() as int, c, i))
}

/// How much of the list the first `n` chunks cover: `n * c`, clamped to
/// `len` once the chunks have reached the end.
pub open spec fn covered_len(len: int, c: int, n: int) -> int {
    if n * c <= len {
        n * c
    } else {
        len
    }
}

/// The concatenation of the first `n` chunks of `s`, in order.
pub open spec fn concat_chunks<A>(s: Seq<A>, c: int, n: int) -> Seq<A>
    decreases n,
{
    if n <= 0 {
        Seq::empty()
    } else {
        concat_chunks(s, c, n - 1) + chunk_of(s, c, n - 1)
    }
}

/// The concatenation of a list of chunks, in order.
pub open spec fn concat_all<A>(chunks: Seq<Seq<A>>) -> Seq<A>
    decreases chunks.len(),
{
    if chunks.len() == 0 {
        Seq::empty()
    } else {
        concat_all(chunks.drop_last()) + chunks.last()
    }
}

/// Basic bounds on the chunk count: the chunks reach the end of the list,
/// a non-empty list needs at least one chunk and its last chunk starts
/// before the end, and there are never more chunks than elements.
pub proof fn lemma_chunk_count_bounds(len: int, c: int)
    requires
        len >= 0,
        c >= 1,
    ensures
        chunk_count(len, c) >= 0,
        chunk_count(len, c) * c >= len,
        len == 0 ==> chunk_count(len, c) == 0,
        len >= 1 ==> chunk_count(len, c) >= 1 && (chunk_count(len, c) - 1) * c < len,
        chunk_count(len, c) <= len,
{
    let n = chunk_count(len, c);
    if len == 0 {
        lemma_fundamental_div_mod_converse(c - 1, c, 0, c - 1);
        assert(n == 0);
        assert(n * c >= len) by (nonlinear_arith)
            requires
                n == 0,
                len == 0,
        ;
    } else {
        lemma_fundamental_div_mod(len + c - 1, c);
        let r = (len + c - 1) % c;
        assert(len + c - 1 == n * c + r);
        assert(0 <= r < c);
        assert(n * c == len + c - 1 - r);
        assert(n * c >= len);
        assert((n - 1) * c == n * c - c) by (nonlinear_arith);
        assert((n - 1) * c < len);
        assert(n >= 1) by (nonlinear_arith)
            requires
                n * c >= len,
                len >= 1,
                c >= 1,
        ;
        assert(n - 1 <= (n - 1) * c) by (nonlinear_arith)
            requires
                n >= 1,
                c >= 1,
        ;
        assert(n <= len);
    }
}

/// If `n` chunks of size `c` reach the end of a list of length `len` and
/// chunk `n - 1` starts before the end, then `n` is the chunk count.
pub proof fn lemma_chunk_count_unique(len: int, c: int, n: int)
    requires
        len >= 0,
        c >= 1,
        n >= 0,
        n * c >= len,
        n == 0 || (n - 1) * c < len,
    ensures
        n == chunk_count(len, c),
{
    if n == 0 {
        assert(len == 0) by (nonlinear_arith)
            requires
                n == 0,
                n * c >= len,
                len >= 0,
        ;
        lemma_chunk_count_bounds(len, c);
    } else {
        let r = len + c - 1 - n * c;
        assert((n - 1) * c == n * c - c) by (nonlinear_arith);
        assert(0 <= r < c);
        lemma_fundamental_div_mod_converse(len + c - 1, c, n, r);
    }
}

/// Every chunk index below the count names a well-formed, non-empty slice:
/// it starts inside the list, ends no later than the list does, holds at
/// most `c` elements, and holds exactly `c` unless it is the last chunk.
pub proof fn lemma_chunk_bounds(len: int, c: int, i: int)
    requires
        len >= 0,
        c >= 1,
        0 <= i < chunk_count(len, c),
    ensures
        0 <= i * c < len,
        i * c < chunk_end(len, c, i) <= len,
        chunk_end(len, c, i) - i * c <= c,
        i < chunk_count(len, c) - 1 ==> chunk_end(len, c, i) == i * c + c,
{
    let n = chunk_count(len, c);
    lemma_chunk_count_bounds(len, c);
    assert(i * c >= 0) by (nonlinear_arith)
        requires
            i >= 0,
            c >= 1,
    ;
    assert(i * c <= (n - 1) * c) by (nonlinear_arith)
        requires
            i <= n - 1,
            c >= 1,
    ;
    assert(i * c < len);
    if i < n - 1 {
        assert(i * c + c <= (n - 1) * c) by (nonlinear_arith)
            requires
                i + 1 <= n - 1,
                c >= 1,
        ;
    }
}

/// The first `n` chunks concatenate to the prefix of `s` that they cover.
pub proof fn lemma_concat_chunks_prefix<A>(s: Seq<A>, c: int, n: int)
    requires
        c >= 1,
        0 <= n <= chunk_count(s.len() as int, c),
    ensures
        concat_chunks(s, c, n) == s.take(covered_len(s.len() as int, c, n)),
    decreases n,
{
    let len = s.len() as int;
    if n == 0 {
        assert(covered_len(len, c, 0) == 0) by (nonlinear_arith)
            requires
                len >= 0,
        ;
        assert(concat_chunks(s, c, 0) =~= s.take(0));
    } else {
        lemma_concat_chunks_prefix(s, c, n - 1);
        lemma_chunk_bounds(len, c, n - 1);
        assert((n - 1) * c + c == n * c) by (nonlinear_arith);
        assert(covered_len(len, c, n - 1) == (n - 1) * c);
        assert(chunk_end(len, c, n - 1) == covered_len(len, c, n));
        assert(s.take(covered_len(len, c, n - 1)) + chunk_of(s, c, n - 1) =~= s.take(
            covered_len(len, c, n),
        ));
    }
}

/// Exhaustive, non-overlapping chunking, at the level of the chunk
/// decomposition: concatenating all `chunk_count` chunks of a list, in
/// order, reproduces the list exactly — nothing dropped, nothing repeated.
pub proof fn lemma_chunks_partition<A>(s: Seq<A>, c: int)
    requires
        c >= 1,
    ensures
        concat_chunks(s, c, chunk_count(s.len() as int, c)) == s,
{
    let len = s.len() as int;
    let n = chunk_count(len, c);
    lemma_chunk_count_bounds(len, c);
    lemma_concat_chunks_prefix(s, c, n);
    assert(covered_len(len, c, n) == len);
    assert(s.take(len) =~= s);
}

/// Helper: a chunk list whose entries are the chunks of `s` concatenates
/// to the same sequence as the chunk decomposition itself.
proof fn lemma_concat_all_eq<A>(chunks: Seq<Seq<A>>, s: Seq<A>, c: int)
    requires
        c >= 1,
        forall|i: int| 0 <= i < chunks.len() ==> #[trigger] chunks[i] == chunk_of(s, c, i),
    ensures
        concat_all(chunks) == concat_chunks(s, c, chunks.len() as int),
    decreases chunks.len(),
{
    if chunks.len() > 0 {
        lemma_concat_all_eq(chunks.drop_last(), s, c);
    }
}

/// Exhaustive, non-overlapping chunking of a list `s` with chunk size `c`:
/// a chunk list of ceiling(len / c) entries whose entry `i` is chunk `i`
/// of `s` concatenates back, in order, to exactly `s`; every chunk holds
/// at most `c` elements, and every chunk but the last holds exactly `c`.
pub proof fn lemma_chunks_exhaustive<A>(chunks: Seq<Seq<A>>, s: Seq<A>, c: int)
    requires
        c >= 1,
        chunks.len() == chunk_count(s.len() as int, c),
        forall|i: int| 0 <= i < chunks.len() ==> #[trigger] chunks[i] == chunk_of(s, c, i),
    ensures
        concat_all(chunks) == s,
        forall|i: int| 0 <= i < chunks.len() ==> #[trigger] chunks[i].len() <= c,
        forall|i: int| 0 <= i < chunks.len() - 1 ==> #[trigger] chunks[i].len() == c,
{
    let len = s.len() as int;
    lemma_concat_all_eq(chunks, s, c);
    lemma_chunks_partition(s, c);
    assert forall|i: int| 0 <= i < chunks.len() implies #[trigger] chunks[i].len() <= c by {
        lemma_chunk_bounds(len, c, i);
    }
    assert forall|i: int| 0 <= i < chunks.len() - 1 implies #[trigger] chunks[i].len() == c by {
        lemma_chunk_bounds(len, c, i);
    }
}

/// Splits the candidate paths into chunks of at most `chunk_size` paths:
/// ceiling(len / chunk_size) chunks, chunk `i` being the contiguous slice
/// of the list from `i * chunk_size`, so that the chunks partition the
/// list exhaustively, without overlap and in the original order.
pub fn make_chunks(paths: &Vec<String>, chunk_size: usize) -> (r: Vec<Vec<String>>)
    requires
        chunk_size >= 1,
    ensures
        r@.len() == chunk_count(paths@.len() as int, chunk_size as int),
        forall|i: int|
            0 <= i < r@.len() ==> #[trigger] r@[i]@ == chunk_of(
                paths@,
                chunk_size as int,
                i,
            ),
{
    let len: usize = paths.len();
    let c: usize = chunk_size;
    let mut r: Vec<Vec<String>> = Vec::new();
    let mut start: usize = 0;
    while start < len
        invariant
            len == paths@.len(),
            c == chunk_size,
            c >= 1,
            start <= len,
            start == covered_len(len as int, c as int, r@.len() as int),
            r@.len() == 0 || (r@.len() - 1) * c < len,
            forall|i: int|
                0 <= i < r@.len() ==> #[trigger] r@[i]@ == chunk_of(paths@, c as int, i),
        decreases len - start,
    {
        let ghost n = r@.len() as int;
        proof {
            assert(n * c < len);
            assert((n + 1) * c == n * c + c) by (nonlinear_arith);
        }
        let remaining: usize = len - start;
        let this_len: usize = if remaining < c {
            remaining
        } else {
            c
        };
        let end: usize = start + this_len;
        let mut chunk: Vec<String> = Vec::new();
        let mut j: usize = start;
        while j < end
            invariant
                start <= j <= end,
                end <= len,
                len == paths@.len(),
                chunk@ == paths@.subrange(start as int, j as int),
            decreases end - j,
        {
            chunk.push(paths[j].clone());
            proof {
                assert(paths@.subrange(start as int, j + 1) =~= paths@.subrange(
                    start as int,
                    j as int,
                ).push(paths@[j as int]));
            }
            j = j + 1;
        }
        proof {
            assert(end as int == chunk_end(len as int, c as int, n));
            assert(chunk@ =~= chunk_of(paths@, c as int, n));
            assert(end as int == covered_len(len as int, c as int, n + 1));
        }
        r.push(chunk);
        start = end;
    }
    proof {
        let n = r@.len() as int;
        assert(n * c >= len) by (nonlinear_arith)
            requires
                covered_len(len as int, c as int, n) == len as int,
                len >= 0,
                c >= 1,
        ;
        lemma_chunk_count_unique(len as int, c as int, n);
    }
    r
}

/// The total of a list of byte counts, summed from the front.
pub open spec fn seq_sum(s: Seq<u64>) -> int
    decreases s.len(),
{
    if s.len() == 0 {
        0
    } else {
        seq_sum(s.drop_last()) + s.last()
    }
}

/// A total of byte counts is never negative.
pub proof fn lemma_seq_sum_nonneg(s: Seq<u64>)
    ensures
        seq_sum(s) >= 0,
    decreases s.len(),
{
    if s.len() > 0 {
        lemma_seq_sum_nonneg(s.drop_last());
    }
}

/// Summing distributes over concatenation.
pub proof fn lemma_seq_sum_concat(a: Seq<u64>, b: Seq<u64>)
    ensures
        seq_sum(a + b) == seq_sum(a) + seq_sum(b),
    decreases b.len(),
{
    if b.len() == 0 {
        assert(a + b =~= a);
    } else {
        assert((a + b).drop_last() =~= a + b.drop_last());
        assert((a + b).last() == b.last());
        lemma_seq_sum_concat(a, b.drop_last());
    }
}

/// The sum of the per-chunk totals of the first `n` chunks.
pub open spec fn chunked_sum(sizes: Seq<u64>, c: int, n: int) -> int
    decreases n,
{
    if n <= 0 {
        0
    } else {
        chunked_sum(sizes, c, n - 1) + seq_sum(chunk_of(sizes, c, n - 1))
    }
}

/// Helper: the sum over the first `n` chunks is the sum of their
/// concatenation.
proof fn lemma_chunked_sum_is_prefix_sum(sizes: Seq<u64>, c: int, n: int)
    requires
        c >= 1,
        0 <= n <= chunk_count(sizes.len() as int, c),
    ensures
        chunked_sum(sizes, c, n) == seq_sum(concat_chunks(sizes, c, n)),
    decreases n,
{
    if n > 0 {
        lemma_chunked_sum_is_prefix_sum(sizes, c, n - 1);
        lemma_seq_sum_concat(concat_chunks(sizes, c, n - 1), chunk_of(sizes, c, n - 1));
    }
}

/// A zero-candidate run: with no candidates there is nothing to size and
/// nothing to warm — the warming pass has zero chunks and both passes
/// total zero bytes.
pub proof fn lemma_zero_candidate_run(c: int)
    requires
        c >= 1,
    ensures
        chunk_count(0, c) == 0,
        seq_sum(Seq::<u64>::empty()) == 0,
        chunked_sum(Seq::<u64>::empty(), c, chunk_count(0, c)) == 0,
{
    lemma_chunk_count_bounds(0, c);
}

/// Estimation/warming consistency: with the same per-file byte sizes seen
/// by both passes (no filesystem change in between), the one-shot
/// estimation pass over the full list and the chunked warming pass total
/// the same byte count, for every list — the empty list gives zero on both
/// sides.
pub proof fn lemma_estimation_warming_consistent(sizes: Seq<u64>, c: int)
    requires
        c >= 1,
    ensures
        seq_sum(sizes) == chunked_sum(sizes, c, chunk_count(sizes.len() as int, c)),
{
    let n = chunk_count(sizes.len() as int, c);
    lemma_chunk_count_bounds(sizes.len() as int, c);
    lemma_chunked_sum_is_prefix_sum(sizes, c, n);
    lemma_chunks_partition(sizes, c);
}

} // verus!
