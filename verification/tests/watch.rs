use celeste_timer::chapter_map::ChapterMap;
use celeste_timer::levels::{Chapter, Side};
use celeste_timer::saves::{AreaModeStats, TimeMap};
use celeste_timer::watch::EmissionFilter;

fn snapshot_with(n: u64, base: u64) -> TimeMap {
    let mut m: TimeMap = ChapterMap::new();
    let chapters = [
        Chapter::Prologue,
        Chapter::City(Side::A),
        Chapter::Site(Side::A),
        Chapter::Resort(Side::A),
    ];
    for i in 0..n {
        m.insert(chapters[i as usize], AreaModeStats::from_u64(base * (i + 1), base));
    }
    m
}

fn snapshot_of(n: u64) -> TimeMap {
    snapshot_with(n, 10)
}

#[test]
fn monotonicity_filter_emits_s1_suppresses_s2_emits_s3() {
    let mut filter = EmissionFilter::new();
    // S1 with 3 completed segments is emitted
    assert!(filter.should_emit(&snapshot_of(3)));
    // S2 with 2 completed segments is a stale artifact
    assert!(!filter.should_emit(&snapshot_of(2)));
    // S3 with 3 completed segments but different data is emitted
    assert!(filter.should_emit(&snapshot_with(3, 20)));
}

#[test]
fn identical_snapshot_counts_as_stale() {
    // a snapshot identical to the last emitted one is suppressed
    let mut filter = EmissionFilter::new();
    assert!(filter.should_emit(&snapshot_of(3)));
    assert!(!filter.should_emit(&snapshot_of(3)));
}

#[test]
fn suppressed_snapshots_leave_the_basis_unchanged() {
    let mut filter = EmissionFilter::new();
    assert!(filter.should_emit(&snapshot_of(2)));
    // 1 segment is suppressed against the emitted 2-segment snapshot
    assert!(!filter.should_emit(&snapshot_of(1)));
    // the same 2-segment snapshot compares against the emitted one, not the
    // suppressed one, and is still identical to it
    assert!(!filter.should_emit(&snapshot_of(2)));
    // new data of equal completeness is emitted
    assert!(filter.should_emit(&snapshot_with(2, 30)));
    assert!(filter.should_emit(&snapshot_of(3)));
}

#[test]
fn first_snapshot_is_always_emitted() {
    let mut filter = EmissionFilter::new();
    assert!(filter.should_emit(&snapshot_of(0)));
}
