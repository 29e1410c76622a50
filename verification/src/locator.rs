//! Selection of warming candidates: regular files whose time since last
//! modification is at least the retention threshold.
//!
//! The walk itself (directory traversal, metadata reads) happens at the
//! program's edge; it hands this module one record per entry seen. An entry
//! whose metadata could not be read carries no elapsed time and is skipped,
//! so one unreadable entry never aborts a run.

use vstd::prelude::*;

verus! {

/// Seconds in one day, used to turn a retention period in days into seconds.
pub const SECS_PER_DAY: u64 = 86400;

/// One directory entry as seen during the walk: its path, whether it is a
/// regular file, and the seconds elapsed since its last modification
/// (`None` when the metadata could not be read).
#[derive(Clone)]
pub struct EntryInfo {
    pub path: String,
    pub is_regular_file: bool,
    pub elapsed_secs: Option<u64>,
}

/// An entry is a warming candidate when it is a regular file, its metadata
/// was readable, and it was last modified at least `threshold_secs` ago.
pub open spec fn is_candidate_entry(e: EntryInfo, threshold_secs: u64) -> bool {
    &&& e.is_regular_file
    &&& e.elapsed_secs matches Some(s) && s >= threshold_secs
}

/// The paths of the candidate entries, in walk order.
pub open spec fn selected_paths(entries: Seq<EntryInfo>, threshold_secs: u64) -> Seq<String>
    decreases entries.len(),
{
    if entries.len() == 0 {
        Seq::empty()
    } else {
        let rest = selected_paths(entries.drop_last(), threshold_secs);
        if is_candidate_entry(entries.last(), threshold_secs) {
            rest.push(entries.last().path)
        } else {
            rest
        }
    }
}

/// Decides whether one entry is a warming candidate.
pub fn entry_is_candidate(e: &EntryInfo, threshold_secs: u64) -> (r: bool)
    ensures
        r == is_candidate_entry(*e, threshold_secs),
{
    if !e.is_regular_file {
        return false;
    }
    match e.elapsed_secs {
        Some(s) => s >= threshold_secs,
        None => false,
    }
}

/// Filters the walked entries down to the candidate paths, in walk order.
/// Entries that are not regular files, or whose metadata was unreadable,
/// are skipped; the run never aborts on one bad entry.
pub fn select_candidates(entries: &Vec<EntryInfo>, threshold_secs: u64) -> (r: Vec<String>)
    ensures
        r@ == selected_paths(entries@, threshold_secs),
{
    let mut r: Vec<String> = Vec::new();
    let mut i: usize = 0;
    while i < entries.len()
        invariant
            i <= entries.len(),
            r@ == selected_paths(entries@.take(i as int), threshold_secs),
        decreases entries.len() - i,
    {
        if entry_is_candidate(&entries[i], threshold_secs) {
            r.push(entries[i].path.clone());
        }
        proof {
            assert(entries@.take(i + 1).drop_last() =~= entries@.take(i as int));
            assert(entries@.take(i + 1).last() == entries@[i as int]);
        }
        i = i + 1;
    }
    proof {
        assert(entries@.take(entries@.len() as int) =~= entries@);
    }
    r
}

/// Turns a retention period in days into seconds, refusing a period so
/// large that the count of seconds does not fit in 64 bits.
pub fn retention_threshold_secs(ia_days: u64) -> (r: Option<u64>)
    ensures
        ia_days * SECS_PER_DAY <= u64::MAX ==> r == Some((ia_days * SECS_PER_DAY) as u64),
        ia_days * SECS_PER_DAY > u64::MAX ==> r is None,
{
    ia_days.checked_mul(SECS_PER_DAY)
}

/// Age filter completeness: every entry that is a regular file last modified
/// at least the threshold ago has its path in the candidate list.
pub proof fn lemma_age_filter_complete(entries: Seq<EntryInfo>, threshold_secs: u64, i: int)
    requires
        0 <= i < entries.len(),
        is_candidate_entry(entries[i], threshold_secs),
    ensures
        selected_paths(entries, threshold_secs).contains(entries[i].path),
    decreases entries.len(),
{
    let rest = selected_paths(entries.drop_last(), threshold_secs);
    if i == entries.len() - 1 {
        let whole = rest.push(entries.last().path);
        assert(whole[whole.len() - 1] == entries[i].path);
        assert(whole.contains(entries[i].path));
    } else {
        lemma_age_filter_complete(entries.drop_last(), threshold_secs, i);
        let j = choose|j: int| 0 <= j < rest.len() && rest[j] == entries.drop_last()[i].path;
        if is_candidate_entry(entries.last(), threshold_secs) {
            let whole = rest.push(entries.last().path);
            assert(whole[j] == entries[i].path);
            assert(whole.contains(entries[i].path));
        } else {
            assert(rest.contains(entries[i].path));
        }
    }
}

/// Age filter soundness: every path in the candidate list is the path of
/// some entry that is a regular file last modified at least the threshold
/// ago. In particular no directory and no unreadable entry contributes.
pub proof fn lemma_age_filter_sound(entries: Seq<EntryInfo>, threshold_secs: u64, p: String)
    requires
        selected_paths(entries, threshold_secs).contains(p),
    ensures
        exists|i: int|
            0 <= i < entries.len() && is_candidate_entry(#[trigger] entries[i], threshold_secs)
                && entries[i].path == p,
    decreases entries.len(),
{
    let whole = selected_paths(entries, threshold_secs);
    let rest = selected_paths(entries.drop_last(), threshold_secs);
    let j = choose|j: int| 0 <= j < whole.len() && whole[j] == p;
    if is_candidate_entry(entries.last(), threshold_secs) && j == whole.len() - 1 {
        assert(entries[entries.len() - 1].path == p);
        assert(is_candidate_entry(entries[entries.len() - 1], threshold_secs));
    } else {
        assert(rest[j] == p);
        assert(rest.contains(p));
        lemma_age_filter_sound(entries.drop_last(), threshold_secs, p);
        let i = choose|i: int|
            0 <= i < entries.drop_last().len()
                && is_candidate_entry(#[trigger] entries.drop_last()[i], threshold_secs)
                && entries.drop_last()[i].path == p;
        assert(entries[i] == entries.drop_last()[i]);
        assert(is_candidate_entry(entries[i], threshold_secs));
    }
}

/// Resilience to unreadable and non-regular entries: an entry that is no
/// candidate — in particular one whose metadata became unreadable between
/// listing and the metadata read, or a directory of any age — may appear
/// anywhere in the walk without changing the candidate list, and its
/// presence never aborts the selection.
pub proof fn lemma_non_candidate_entry_excluded(
    entries: Seq<EntryInfo>,
    threshold_secs: u64,
    k: int,
    e: EntryInfo,
)
    requires
        0 <= k <= entries.len(),
        !is_candidate_entry(e, threshold_secs),
    ensures
        selected_paths(entries.insert(k, e), threshold_secs) == selected_paths(
            entries,
            threshold_secs,
        ),
    decreases entries.len(),
{
    let s2 = entries.insert(k, e);
    if k == entries.len() {
        assert(s2.drop_last() =~= entries);
        assert(s2.last() == e);
    } else {
        assert(s2.last() == entries.last());
        assert(s2.drop_last() =~= entries.drop_last().insert(k, e));
        lemma_non_candidate_entry_excluded(entries.drop_last(), threshold_secs, k, e);
    }
}

} // verus!
