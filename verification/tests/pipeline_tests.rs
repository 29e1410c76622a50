use prewarm::chunking::make_chunks;
use prewarm::locator::retention_threshold_secs;
use prewarm::locator::select_candidates;
use prewarm::locator::EntryInfo;
use prewarm::locator::SECS_PER_DAY;
use prewarm::progress::ProgressTotals;
use prewarm::scheduler::WarmingConfig;
use prewarm::scheduler::WarmingScheduler;

fn file_entry(path: &str, elapsed_days: u64) -> EntryInfo {
    EntryInfo {
        path: path.to_owned(),
        is_regular_file: true,
        elapsed_secs: Some(elapsed_days * SECS_PER_DAY),
    }
}

#[test]
fn threshold_of_thirty_days() {
    assert_eq!(retention_threshold_secs(30), Some(2_592_000));
    assert_eq!(retention_threshold_secs(0), Some(0));
}

#[test]
fn threshold_too_large_is_refused() {
    assert_eq!(retention_threshold_secs(u64::MAX), None);
    assert_eq!(retention_threshold_secs(u64::MAX / SECS_PER_DAY + 1), None);
    assert!(retention_threshold_secs(u64::MAX / SECS_PER_DAY).is_some());
}

#[test]
fn age_filter_thirty_day_examples() {
    let threshold = retention_threshold_secs(30).unwrap();
    let entries = vec![
        file_entry("young", 29),
        file_entry("old", 31),
        file_entry("boundary", 30),
        EntryInfo {
            path: "old_dir".to_owned(),
            is_regular_file: false,
            elapsed_secs: Some(60 * SECS_PER_DAY),
        },
    ];
    let picked = select_candidates(&entries, threshold);
    assert_eq!(picked, vec!["old".to_owned(), "boundary".to_owned()]);
}

#[test]
fn unreadable_entry_is_skipped_not_fatal() {
    let readable = vec![file_entry("a", 40), file_entry("b", 50)];
    let mut with_unreadable = readable.clone();
    with_unreadable.insert(
        1,
        EntryInfo { path: "gone".to_owned(), is_regular_file: true, elapsed_secs: None },
    );
    let threshold = retention_threshold_secs(30).unwrap();
    let picked = select_candidates(&with_unreadable, threshold);
    assert_eq!(picked, select_candidates(&readable, threshold));
    assert_eq!(picked, vec!["a".to_owned(), "b".to_owned()]);
}

fn numbered_paths(n: usize) -> Vec<String> {
    let mut v = Vec::new();
    for i in 0..n {
        v.push(format!("file{}", i));
    }
    v
}

#[test]
fn chunking_of_2500_by_1000() {
    let paths = numbered_paths(2500);
    let chunks = make_chunks(&paths, 1000);
    assert_eq!(chunks.len(), 3);
    assert_eq!(chunks[0].len(), 1000);
    assert_eq!(chunks[1].len(), 1000);
    assert_eq!(chunks[2].len(), 500);
    let rebuilt: Vec<String> = chunks.into_iter().flatten().collect();
    assert_eq!(rebuilt, paths);
}

#[test]
fn chunking_exact_multiple() {
    let paths = numbered_paths(4);
    let chunks = make_chunks(&paths, 2);
    assert_eq!(chunks.len(), 2);
    assert_eq!(chunks[0], vec!["file0".to_owned(), "file1".to_owned()]);
    assert_eq!(chunks[1], vec!["file2".to_owned(), "file3".to_owned()]);
}

#[test]
fn chunking_empty_list() {
    let paths: Vec<String> = Vec::new();
    let chunks = make_chunks(&paths, 7);
    assert!(chunks.is_empty());
}

#[test]
fn chunking_single_oversized_chunk() {
    let paths = numbered_paths(3);
    let chunks = make_chunks(&paths, 100);
    assert_eq!(chunks.len(), 1);
    assert_eq!(chunks[0], paths);
}

#[test]
fn config_rejects_zero_bounds() {
    assert!(WarmingConfig::new(0, 10, 5).is_none());
    assert!(WarmingConfig::new(10, 0, 5).is_none());
    let cfg = WarmingConfig::new(100, 1000, 0).unwrap();
    assert_eq!(cfg.threads, 100);
    assert_eq!(cfg.chunk_size, 1000);
    assert_eq!(cfg.threshold_secs, 0);
}

#[test]
fn scheduler_full_run_order_and_fresh_engines() {
    let cfg = WarmingConfig::new(4, 2, 0).unwrap();
    let mut sched = WarmingScheduler::new(numbered_paths(5), cfg);

    let est = sched.next_request().unwrap();
    assert_eq!(est.engine_id, 0);
    assert!(est.stats_only);
    assert_eq!(est.threads, 4);
    assert_eq!(est.targets, numbered_paths(5));

    let mut engine_ids = vec![est.engine_id];
    let mut warmed: Vec<String> = Vec::new();
    let mut chunk_lens: Vec<usize> = Vec::new();
    while let Some(req) = sched.next_request() {
        assert!(!req.stats_only);
        assert_eq!(req.threads, 4);
        engine_ids.push(req.engine_id);
        chunk_lens.push(req.targets.len());
        warmed.extend(req.targets);
    }
    // Every chunk got its own, never reused, engine instance.
    assert_eq!(engine_ids, vec![0, 1, 2, 3]);
    // Chunks partition the list in order: 2, 2, then the short remainder.
    assert_eq!(chunk_lens, vec![2, 2, 1]);
    assert_eq!(warmed, numbered_paths(5));
    // The run stays finished.
    assert!(sched.next_request().is_none());
    assert!(sched.next_request().is_none());
}

#[test]
fn zero_candidate_run() {
    let cfg = WarmingConfig::new(100, 1000, 0).unwrap();
    let mut sched = WarmingScheduler::new(Vec::new(), cfg);
    let mut totals = ProgressTotals::new();

    let est = sched.next_request().unwrap();
    assert!(est.stats_only);
    assert!(est.targets.is_empty());
    // No targets: the estimation pass yields zero events.
    for _ in &est.targets {
        totals.add_expected(1);
    }
    // No chunks at all: the warming pass yields zero events.
    assert!(sched.next_request().is_none());
    assert_eq!(totals.expected_bytes, 0);
    assert_eq!(totals.completed_bytes, 0);
}

#[test]
fn estimation_and_warming_total_the_same_bytes() {
    let sizes: Vec<u64> = vec![5, 7, 11, 2, 3];
    let paths = numbered_paths(sizes.len());
    let size_of = |p: &String| -> u64 {
        let i = paths.iter().position(|q| q == p).unwrap();
        sizes[i]
    };

    let cfg = WarmingConfig::new(2, 2, 0).unwrap();
    let mut sched = WarmingScheduler::new(paths.clone(), cfg);
    let mut totals = ProgressTotals::new();

    let est = sched.next_request().unwrap();
    for p in &est.targets {
        totals.add_expected(size_of(p));
    }
    while let Some(req) = sched.next_request() {
        for p in &req.targets {
            totals.add_completed(size_of(p));
        }
    }
    assert_eq!(totals.expected_bytes, 28);
    assert_eq!(totals.completed_bytes, 28);
    assert_eq!(totals.expected_bytes, totals.completed_bytes);
}

#[test]
fn progress_totals_saturate_instead_of_failing() {
    let mut totals = ProgressTotals::new();
    totals.add_expected(u64::MAX - 1);
    totals.add_expected(10);
    assert_eq!(totals.expected_bytes, u64::MAX);
    totals.add_completed(7);
    totals.add_completed(u64::MAX);
    assert_eq!(totals.completed_bytes, u64::MAX);
    assert_eq!(totals.expected_bytes, u64::MAX);
}
