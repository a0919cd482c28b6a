use celeste_timer::chapter_map::ChapterMap;
use celeste_timer::levels::{Chapter, Side};
use celeste_timer::saves::{AreaModeStats, Duration};
use celeste_timer::table::CellColor;
use celeste_timer::timer::{EngineError, KeyCode, SessionState, SplitMap, TimeTotals};

fn secs(s: u64) -> Duration {
    Duration { micros: s * 1_000_000 }
}

fn stats_secs(s: u64) -> AreaModeStats {
    AreaModeStats { time_played: secs(s), best_time: secs(s) }
}

fn two_segment_setup(total_a: u64, total_b: u64) -> (SessionState, Vec<Chapter>) {
    let a = Chapter::City(Side::A);
    let b = Chapter::Site(Side::A);
    let route = vec![a, b];
    let mut data = ChapterMap::new();
    data.insert(a, stats_secs(total_a));
    data.insert(b, stats_secs(total_b));
    let mut pb: SplitMap = ChapterMap::new();
    pb.insert(a, secs(35));
    pb.insert(b, secs(30));
    let session = SessionState { current_save: Some(data), pb, best_splits: ChapterMap::new() };
    (session, route)
}

#[test]
fn pb_promotion_when_total_beats_pb() {
    // both segments present, summing 60s against a 65s personal-best total
    let (mut session, route) = two_segment_setup(30, 30);
    let outcome = session.on_save_update(&route).unwrap();
    assert!(outcome.promoted);
    assert_eq!(session.pb.get(&Chapter::City(Side::A)), Some(&secs(30)));
    assert_eq!(session.pb.get(&Chapter::Site(Side::A)), Some(&secs(30)));
    assert_eq!(session.pb.len(), 2);
}

#[test]
fn pb_not_promoted_when_total_exceeds_pb() {
    // same setup but the current total is 70s, above the 65s personal best
    let (mut session, route) = two_segment_setup(40, 30);
    let outcome = session.on_save_update(&route).unwrap();
    assert!(!outcome.promoted);
    assert_eq!(session.pb.get(&Chapter::City(Side::A)), Some(&secs(35)));
    assert_eq!(session.pb.get(&Chapter::Site(Side::A)), Some(&secs(30)));
}

#[test]
fn pb_not_promoted_when_route_not_covered() {
    let a = Chapter::City(Side::A);
    let b = Chapter::Site(Side::A);
    let route = vec![a, b];
    let mut data = ChapterMap::new();
    data.insert(a, stats_secs(1));
    let mut session = SessionState {
        current_save: Some(data),
        pb: ChapterMap::new(),
        best_splits: ChapterMap::new(),
    };
    let outcome = session.on_save_update(&route).unwrap();
    assert!(!outcome.promoted);
    assert_eq!(session.pb.len(), 0);
}

#[test]
fn best_split_improves_only_on_strictly_faster_time() {
    let x = Chapter::Ridge(Side::A);
    let route = vec![x];
    // current snapshot has X at 9.50s against a 10.00s best split
    let mut data = ChapterMap::new();
    data.insert(x, AreaModeStats { time_played: Duration { micros: 9_500_000 }, best_time: secs(9) });
    let mut bs: SplitMap = ChapterMap::new();
    bs.insert(x, secs(10));
    let mut session = SessionState { current_save: Some(data), pb: ChapterMap::new(), best_splits: bs };
    session.on_save_update(&route).unwrap();
    assert_eq!(session.best_splits.get(&x), Some(&Duration { micros: 9_500_000 }));

    // a 10.50s time leaves the 10.00s best split unchanged
    let mut data = ChapterMap::new();
    data.insert(x, AreaModeStats { time_played: Duration { micros: 10_500_000 }, best_time: secs(9) });
    let mut bs: SplitMap = ChapterMap::new();
    bs.insert(x, secs(10));
    let mut session = SessionState { current_save: Some(data), pb: ChapterMap::new(), best_splits: bs };
    session.on_save_update(&route).unwrap();
    assert_eq!(session.best_splits.get(&x), Some(&secs(10)));
}

#[test]
fn best_split_improves_even_when_route_not_covered() {
    // the best-split check runs on every update, whether or not the
    // snapshot covers the whole route
    let x = Chapter::Ridge(Side::A);
    let y = Chapter::Temple(Side::A);
    let route = vec![x, y];
    let mut data = ChapterMap::new();
    data.insert(x, AreaModeStats { time_played: Duration { micros: 9_500_000 }, best_time: secs(9) });
    let mut bs: SplitMap = ChapterMap::new();
    bs.insert(x, secs(10));
    let mut session = SessionState { current_save: Some(data), pb: ChapterMap::new(), best_splits: bs };
    let outcome = session.on_save_update(&route).unwrap();
    assert!(!outcome.promoted);
    assert_eq!(session.best_splits.get(&x), Some(&Duration { micros: 9_500_000 }));
}

#[test]
fn best_splits_are_not_seeded_by_first_times() {
    // a segment with no prior best split stays unset after an update
    let x = Chapter::Temple(Side::B);
    let route = vec![x];
    let mut data = ChapterMap::new();
    data.insert(x, stats_secs(12));
    let mut session = SessionState {
        current_save: Some(data),
        pb: ChapterMap::new(),
        best_splits: ChapterMap::new(),
    };
    session.on_save_update(&route).unwrap();
    assert_eq!(session.best_splits.get(&x), None);
    assert_eq!(session.best_splits.len(), 0);
}

#[test]
fn update_without_snapshot_reports_no_active_snapshot() {
    let mut session = SessionState {
        current_save: None,
        pb: ChapterMap::new(),
        best_splits: ChapterMap::new(),
    };
    let route = vec![Chapter::Prologue];
    assert_eq!(session.on_save_update(&route).unwrap_err(), EngineError::NoActiveSnapshot);
    assert!(session.times_table(&route).is_err());
}

#[test]
fn totals_sum_over_present_segments() {
    let a = Chapter::City(Side::A);
    let b = Chapter::Site(Side::A);
    let c = Chapter::Resort(Side::A);
    let route = vec![a, b, c];
    let mut data = ChapterMap::new();
    data.insert(a, stats_secs(10));
    data.insert(c, stats_secs(5));
    let mut pb: SplitMap = ChapterMap::new();
    pb.insert(a, secs(9));
    pb.insert(b, secs(100));
    let session = SessionState { current_save: Some(data), pb, best_splits: ChapterMap::new() };
    let t: TimeTotals = session.get_time_totals(&route);
    // recorded times of the present segments a and c
    assert_eq!(t.total_time, 15_000_000);
    // personal-best times of present segments only: a has 9s, c has none
    assert_eq!(t.pb_total_running, 9_000_000);
    // personal-best times over the whole route
    assert_eq!(t.pb_total, 109_000_000);
}

#[test]
fn session_table_rows_and_total() {
    let a = Chapter::City(Side::A);
    let b = Chapter::Site(Side::A);
    let route = vec![a, b];
    let mut data = ChapterMap::new();
    data.insert(a, stats_secs(10));
    let mut pb: SplitMap = ChapterMap::new();
    pb.insert(a, secs(12));
    let mut bs: SplitMap = ChapterMap::new();
    bs.insert(a, secs(11));
    let session = SessionState { current_save: Some(data), pb, best_splits: bs };
    let table = session.times_table(&route).unwrap();
    let cols = table.columns();
    // header, one row for the present segment a, and the Total row
    assert_eq!(cols[0].cells().len(), 3);
    assert_eq!(cols[0].cells()[1].text, "1A");
    assert_eq!(cols[1].cells()[1].text, "10.00");
    // 10s against a 12s personal best, faster than the 11s best split
    assert_eq!(cols[2].cells()[1].text, "-02.00");
    assert_eq!(cols[2].cells()[1].color, CellColor::Blue);
    // the Total row compares 10s against the running personal-best total 12s
    assert_eq!(cols[0].cells()[2].text, "Total");
    assert_eq!(cols[1].cells()[2].text, "10.00");
    assert_eq!(cols[2].cells()[2].text, "-02.00");
    assert_eq!(cols[2].cells()[2].color, CellColor::Green);
}

#[test]
fn quit_key_is_q_alone() {
    let mut session = SessionState {
        current_save: None,
        pb: ChapterMap::new(),
        best_splits: ChapterMap::new(),
    };
    assert!(session.handle_key(KeyCode::Char('q')));
    assert!(!session.handle_key(KeyCode::Char('a')));
    assert!(!session.handle_key(KeyCode::Char('Q')));
    assert!(!session.handle_key(KeyCode::Other));
}
