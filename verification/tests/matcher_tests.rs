use picurator::loader::select_loaded;
use picurator::loader::DecodeOutcome;
use picurator::loader::ImageMeta;
use picurator::matcher::MatchMode;
use picurator::matcher::Matcher;
use picurator::matcher::PairReport;
use picurator::matcher::Pending;

fn meta(width: u32, height: u32) -> ImageMeta {
    ImageMeta { width, height }
}

/// Drives a sweep to completion; `below` answers each comparison request.
fn run_sweep(
    images: Vec<ImageMeta>,
    mode: MatchMode,
    below: &dyn Fn(usize, usize) -> bool,
) -> Vec<PairReport> {
    let mut m = Matcher::new(images, mode);
    let mut reports: Vec<PairReport> = Vec::new();
    loop {
        match m.pending() {
            Pending::Finished => break,
            Pending::Mismatch { .. } => {
                reports.push(m.record_mismatch());
            }
            Pending::NeedsCompare { a, b } => {
                if let Some(r) = m.record_score(below(a, b)) {
                    reports.push(r);
                }
            }
        }
    }
    reports
}

#[test]
fn exhaustive_mode_evaluates_every_pair_once() {
    let images = vec![meta(8, 8), meta(8, 8), meta(8, 8), meta(8, 8)];
    let reports = run_sweep(images, MatchMode::Exhaustive, &|_, _| false);
    // 4 images: exactly 4 * 3 / 2 evaluations, in lexicographic order
    assert_eq!(
        reports,
        vec![
            PairReport::Evaluated { a: 0, b: 1, below: false },
            PairReport::Evaluated { a: 0, b: 2, below: false },
            PairReport::Evaluated { a: 0, b: 3, below: false },
            PairReport::Evaluated { a: 1, b: 2, below: false },
            PairReport::Evaluated { a: 1, b: 3, below: false },
            PairReport::Evaluated { a: 2, b: 3, below: false },
        ]
    );
}

#[test]
fn empty_and_singleton_buckets_produce_no_evaluations() {
    let none: Vec<ImageMeta> = Vec::new();
    assert_eq!(run_sweep(none, MatchMode::Exhaustive, &|_, _| true), Vec::new());
    let one = vec![meta(8, 8)];
    assert_eq!(run_sweep(one, MatchMode::Threshold, &|_, _| true), Vec::new());
}

#[test]
fn threshold_mode_stops_scanning_a_matched_anchor() {
    let images = vec![meta(8, 8), meta(8, 8), meta(8, 8)];
    // (0, 1) is an accepted match: pair (0, 2) must never be evaluated,
    // while anchor 1 is still scanned.
    let reports = run_sweep(images, MatchMode::Threshold, &|a, b| a == 0 && b == 1);
    assert_eq!(reports, vec![PairReport::SimilarFound { a: 0, b: 1 }]);

    let images = vec![meta(8, 8), meta(8, 8), meta(8, 8)];
    let reports = run_sweep(images, MatchMode::Threshold, &|a, b| (a, b) != (0, 1));
    assert_eq!(
        reports,
        vec![
            PairReport::SimilarFound { a: 0, b: 2 },
            PairReport::SimilarFound { a: 1, b: 2 },
        ]
    );
}

#[test]
fn dimension_mismatch_is_reported_and_never_scored() {
    // same byte length, different pixel dimensions: 100x100 against 50x200
    let images = vec![meta(100, 100), meta(50, 200)];
    let mut m = Matcher::new(images, MatchMode::Threshold);
    assert!(matches!(m.pending(), Pending::Mismatch { a: 0, b: 1 }));
    let r = m.record_mismatch();
    assert_eq!(r, PairReport::DimensionMismatch { a: 0, b: 1 });
    assert_eq!(m.pending(), Pending::Finished);
}

#[test]
fn decode_failure_drops_only_its_candidate() {
    // three same-size candidates, the middle one fails to decode:
    // exactly one comparison remains, between the two that loaded.
    let outcomes = vec![
        DecodeOutcome::Loaded(meta(8, 8)),
        DecodeOutcome::Failed,
        DecodeOutcome::Loaded(meta(8, 8)),
    ];
    let (idx, metas) = select_loaded(&outcomes);
    assert_eq!(idx, vec![0, 2]);
    let reports = run_sweep(metas, MatchMode::Exhaustive, &|_, _| true);
    assert_eq!(reports, vec![PairReport::Evaluated { a: 0, b: 1, below: true }]);
    // positions map back to the original candidates
    assert_eq!((idx[0], idx[1]), (0, 2));
}

#[test]
fn select_loaded_keeps_order_and_drops_failures() {
    let outcomes = vec![
        DecodeOutcome::Failed,
        DecodeOutcome::Loaded(meta(1, 2)),
        DecodeOutcome::Loaded(meta(3, 4)),
        DecodeOutcome::Failed,
        DecodeOutcome::Loaded(meta(5, 6)),
    ];
    let (idx, metas) = select_loaded(&outcomes);
    assert_eq!(idx, vec![1, 2, 4]);
    assert_eq!(metas, vec![meta(1, 2), meta(3, 4), meta(5, 6)]);
    let all = vec![
        DecodeOutcome::Loaded(meta(1, 1)),
        DecodeOutcome::Loaded(meta(1, 1)),
    ];
    let (idx, _) = select_loaded(&all);
    assert_eq!(idx, vec![0, 1]);
    let none: Vec<DecodeOutcome> = vec![DecodeOutcome::Failed, DecodeOutcome::Failed];
    let (idx, metas) = select_loaded(&none);
    assert!(idx.is_empty());
    assert!(metas.is_empty());
}

#[test]
fn repeated_runs_yield_identical_results() {
    let make = || vec![meta(8, 8), meta(9, 9), meta(8, 8), meta(8, 8)];
    let judge = |a: usize, b: usize| a + b == 3;
    let first = run_sweep(make(), MatchMode::Threshold, &judge);
    let second = run_sweep(make(), MatchMode::Threshold, &judge);
    assert_eq!(first, second);
    let first = run_sweep(make(), MatchMode::Exhaustive, &judge);
    let second = run_sweep(make(), MatchMode::Exhaustive, &judge);
    assert_eq!(first, second);
}
