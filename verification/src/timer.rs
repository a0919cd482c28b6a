//! The split-tracking engine: session state, display totals, the
//! presentation table, personal-best promotion and best-split updates.
use vstd::prelude::*;

use crate::chapter_map::ChapterMap;
use crate::chapter_map::map_of;
use crate::levels::Chapter;
use crate::levels::spec_encode;
use crate::saves::AreaModeStats;
use crate::saves::Duration;
use crate::saves::TimeMap;
use crate::table::CellColor;
use crate::table::CellView;
use crate::table::ColumnView;
use crate::table::Table;
use crate::table::TableCell;
use crate::table::cells_view;
use crate::table::format_diff_micros;
use crate::table::format_duration_micros;
use crate::table::spec_default_header;
use crate::table::spec_diff_color;
use crate::table::spec_format_diff;
use crate::table::spec_format_micros;
use crate::table::spec_push_row;

verus! {

/// A record of the best duration seen per chapter: the personal best's
/// per-segment times, or the best splits.
pub type SplitMap = ChapterMap<Duration>;

/// Failures of the engine's update procedure.
#[derive(Clone, Copy, PartialEq, Eq, Structural, Debug)]
pub enum EngineError {
    /// The update ran without any current snapshot.
    NoActiveSnapshot,
}

/// A keyboard event as the engine sees it.
#[derive(Clone, Copy, PartialEq, Eq, Structural, Debug)]
pub enum KeyCode {
    Char(char),
    Other,
}

/// The engine's working set: the current snapshot, the personal best and
/// the best splits.
pub struct SessionState {
    pub current_save: Option<TimeMap>,
    pub pb: SplitMap,
    pub best_splits: SplitMap,
}

/// The display totals of one update, in microseconds.
#[derive(Clone, Copy, PartialEq, Eq, Structural, Debug)]
pub struct TimeTotals {
    /// Recorded times summed over the route segments present in the snapshot.
    pub total_time: u128,
    /// Personal-best times summed over the whole route.
    pub pb_total: u128,
    /// Personal-best times summed over the route segments present in the
    /// snapshot, for a fair in-progress comparison.
    pub pb_total_running: u128,
}

/// The result of one engine update.
#[derive(Debug)]
pub struct UpdateOutcome {
    /// The presentation table built from the state before the update.
    pub table: Table,
    /// Whether the snapshot was promoted to the new personal best.
    pub promoted: bool,
}

pub open spec fn spec_pb_or_zero(pb: Map<Chapter, Duration>, c: Chapter) -> int {
    if pb.contains_key(c) {
        pb[c].micros as int
    } else {
        0
    }
}

/// Sum of recorded times over the route segments present in the snapshot.
pub open spec fn spec_total_time(data: Map<Chapter, AreaModeStats>, route: Seq<Chapter>) -> int
    decreases route.len(),
{
    if route.len() == 0 {
        0
    } else {
        spec_total_time(data, route.drop_last()) + if data.contains_key(route.last()) {
            data[route.last()].time_played.micros as int
        } else {
            0
        }
    }
}

/// Sum of personal-best times over the route segments present in the snapshot.
pub open spec fn spec_pb_total_running(
    data: Map<Chapter, AreaModeStats>,
    pb: Map<Chapter, Duration>,
    route: Seq<Chapter>,
) -> int
    decreases route.len(),
{
    if route.len() == 0 {
        0
    } else {
        spec_pb_total_running(data, pb, route.drop_last()) + if data.contains_key(route.last()) {
            spec_pb_or_zero(pb, route.last())
        } else {
            0
        }
    }
}

/// Sum of personal-best times over the whole route.
pub open spec fn spec_pb_total(pb: Map<Chapter, Duration>, route: Seq<Chapter>) -> int
    decreases route.len(),
{
    if route.len() == 0 {
        0
    } else {
        spec_pb_total(pb, route.drop_last()) + spec_pb_or_zero(pb, route.last())
    }
}

/// The per-segment times of a snapshot, as a personal-best record.
pub open spec fn spec_project_pb(data: Map<Chapter, AreaModeStats>) -> Map<Chapter, Duration> {
    Map::new(|c: Chapter| data.contains_key(c), |c: Chapter| data[c].time_played)
}

/// The best splits after one update: each route segment present in both the
/// snapshot and the record improves its entry when strictly faster; segments
/// without a prior entry stay unset.
pub open spec fn spec_improved_splits(
    bs: Map<Chapter, Duration>,
    data: Map<Chapter, AreaModeStats>,
    route: Seq<Chapter>,
) -> Map<Chapter, Duration>
    decreases route.len(),
{
    if route.len() == 0 {
        bs
    } else {
        let prev = spec_improved_splits(bs, data, route.drop_last());
        let c = route.last();
        if data.contains_key(c) && bs.contains_key(c) && data[c].time_played.micros < bs[c].micros {
            prev.insert(c, data[c].time_played)
        } else {
            prev
        }
    }
}

/// Law: one update never worsens the best-split record: no entry appears or
/// disappears, and every entry's duration only decreases or stays.
pub proof fn lemma_best_splits_monotone(
    bs: Map<Chapter, Duration>,
    data: Map<Chapter, AreaModeStats>,
    route: Seq<Chapter>,
)
    ensures
        forall|c: Chapter|
            spec_improved_splits(bs, data, route).contains_key(c) <==> bs.contains_key(c),
        forall|c: Chapter|
            bs.contains_key(c) ==> #[trigger] spec_improved_splits(bs, data, route)[c].micros
                <= bs[c].micros,
    decreases route.len(),
{
    if route.len() > 0 {
        lemma_best_splits_monotone(bs, data, route.drop_last());
    }
}

/// Law: promotion never worsens the personal best: the promoted record's
/// route total equals the snapshot's accumulated total, and promotion only
/// happens when that total does not exceed the old personal-best total.
pub proof fn lemma_pb_promotion_total(data: Map<Chapter, AreaModeStats>, route: Seq<Chapter>)
    ensures
        spec_pb_total(spec_project_pb(data), route) == spec_total_time(data, route),
    decreases route.len(),
{
    if route.len() > 0 {
        lemma_pb_promotion_total(data, route.drop_last());
    }
}

/// Whether the snapshot's time for a chapter is the best split known for it:
/// strictly faster than the recorded best, or no best recorded yet.
pub open spec fn spec_is_best_split(bs: Map<Chapter, Duration>, c: Chapter, tp: int) -> bool {
    !bs.contains_key(c) || tp < bs[c].micros
}

/// The table row of one route segment present in the snapshot.
pub open spec fn spec_session_row(
    data: Map<Chapter, AreaModeStats>,
    pb: Map<Chapter, Duration>,
    bs: Map<Chapter, Duration>,
    c: Chapter,
) -> Seq<CellView> {
    let tp = data[c].time_played.micros as int;
    seq![
        CellView { text: spec_encode(c), color: CellColor::Reset },
        CellView { text: spec_format_micros(tp), color: CellColor::Reset },
        if pb.contains_key(c) {
            CellView {
                text: spec_format_diff(pb[c].micros as int, tp),
                color: spec_diff_color(pb[c].micros as int, tp, spec_is_best_split(bs, c, tp)),
            }
        } else {
            CellView { text: "-"@, color: CellColor::Reset }
        },
    ]
}

/// The table body: the header plus one row per route segment present in the
/// snapshot, in route order.
pub open spec fn spec_session_body(
    data: Map<Chapter, AreaModeStats>,
    pb: Map<Chapter, Duration>,
    bs: Map<Chapter, Duration>,
    route: Seq<Chapter>,
) -> Seq<ColumnView>
    decreases route.len(),
{
    if route.len() == 0 {
        spec_default_header()
    } else {
        let t = spec_session_body(data, pb, bs, route.drop_last());
        if data.contains_key(route.last()) {
            spec_push_row(t, spec_session_row(data, pb, bs, route.last()))
        } else {
            t
        }
    }
}

/// The trailing Total row: accumulated time against the running
/// personal-best total, never in the best-split color.
pub open spec fn spec_total_row(total_time: int, pb_total_running: int) -> Seq<CellView> {
    seq![
        CellView { text: "Total"@, color: CellColor::Reset },
        CellView { text: spec_format_micros(total_time), color: CellColor::Reset },
        CellView {
            text: spec_format_diff(pb_total_running, total_time),
            color: spec_diff_color(pb_total_running, total_time, false),
        },
    ]
}

/// The whole presentation table of one update.
pub open spec fn spec_session_table(
    data: Map<Chapter, AreaModeStats>,
    pb: Map<Chapter, Duration>,
    bs: Map<Chapter, Duration>,
    route: Seq<Chapter>,
) -> Seq<ColumnView> {
    spec_push_row(
        spec_session_body(data, pb, bs, route),
        spec_total_row(spec_total_time(data, route), spec_pb_total_running(data, pb, route)),
    )
}

proof fn lemma_session_body_len(
    data: Map<Chapter, AreaModeStats>,
    pb: Map<Chapter, Duration>,
    bs: Map<Chapter, Duration>,
    route: Seq<Chapter>,
)
    ensures
        spec_session_body(data, pb, bs, route).len() == 3,
    decreases route.len(),
{
    if route.len() > 0 {
        lemma_session_body_len(data, pb, bs, route.drop_last());
    }
}

impl SessionState {
    /// The three display totals for a route, all in microseconds: sums of
    /// 64-bit microsecond values never overflow the 128-bit accumulators.
    pub fn get_time_totals(&self, route: &[Chapter]) -> (r: TimeTotals)
        ensures
            r.total_time as int == (match self.current_save {
                Some(m) => spec_total_time(m@, route@),
                None => 0,
            }),
            r.pb_total_running as int == (match self.current_save {
                Some(m) => spec_pb_total_running(m@, self.pb@, route@),
                None => 0,
            }),
            r.pb_total as int == spec_pb_total(self.pb@, route@),
    {
        let mut total_time: u128 = 0;
        let mut pb_total: u128 = 0;
        let mut pb_total_running: u128 = 0;
        let n = route.len();
        let mut k: usize = 0;
        while k < n
            invariant
                n == route@.len(),
                k <= n,
                total_time as int == (match self.current_save {
                    Some(m) => spec_total_time(m@, route@.take(k as int)),
                    None => 0,
                }),
                total_time <= k * (u64::MAX as u128),
                pb_total_running as int == (match self.current_save {
                    Some(m) => spec_pb_total_running(m@, self.pb@, route@.take(k as int)),
                    None => 0,
                }),
                pb_total_running <= k * (u64::MAX as u128),
                pb_total as int == spec_pb_total(self.pb@, route@.take(k as int)),
                pb_total <= k * (u64::MAX as u128),
            decreases n - k,
        {
            let c = route[k];
            proof {
                assert(route@.take(k + 1).drop_last() =~= route@.take(k as int));
                assert(route@.take(k + 1).last() == route@[k as int]);
            }
            match &self.current_save {
                Some(data) => {
                    match data.get(&c) {
                        Some(stats) => {
                            total_time = total_time + (stats.time_played.micros as u128);
                            let pb_part: u128 = match self.pb.get(&c) {
                                Some(d) => d.micros as u128,
                                None => 0,
                            };
                            pb_total_running = pb_total_running + pb_part;
                        }
                        None => {}
                    }
                }
                None => {}
            }
            let pb_part_full: u128 = match self.pb.get(&c) {
                Some(d) => d.micros as u128,
                None => 0,
            };
            pb_total = pb_total + pb_part_full;
            k += 1;
        }
        proof {
            assert(route@.take(n as int) =~= route@);
        }
        TimeTotals { total_time, pb_total, pb_total_running }
    }

    /// The presentation table for the current snapshot: a row per route
    /// segment present in it, then the Total row.
    pub fn times_table(&self, route: &[Chapter]) -> (r: Result<Table, EngineError>)
        ensures
            match r {
                Ok(t) => self.current_save matches Some(m) && t@ == spec_session_table(
                    m@,
                    self.pb@,
                    self.best_splits@,
                    route@,
                ),
                Err(e) => self.current_save is None && e == EngineError::NoActiveSnapshot,
            },
    {
        let totals = self.get_time_totals(route);
        let data = match &self.current_save {
            Some(d) => d,
            None => {
                return Err(EngineError::NoActiveSnapshot);
            }
        };
        let mut table = Table::from_default_header();
        let n = route.len();
        let mut k: usize = 0;
        while k < n
            invariant
                n == route@.len(),
                k <= n,
                self.current_save matches Some(d) && d@ == data@,
                table@ == spec_session_body(data@, self.pb@, self.best_splits@, route@.take(
                    k as int,
                )),
            decreases n - k,
        {
            let c = route[k];
            proof {
                assert(route@.take(k + 1).drop_last() =~= route@.take(k as int));
                assert(route@.take(k + 1).last() == route@[k as int]);
                lemma_session_body_len(data@, self.pb@, self.best_splits@, route@.take(k as int));
            }
            match data.get(&c) {
                Some(stats) => {
                    let name = c.to_string();
                    let chapter_cell = TableCell::new_default(name.as_str());
                    let split_time_cell = TableCell::from_duration(&stats.time_played);
                    let diff_cell = match self.pb.get(&c) {
                        Some(pb_time) => {
                            let is_best = match self.best_splits.get(&c) {
                                Some(b) => stats.time_played.micros < b.micros,
                                None => true,
                            };
                            TableCell::from_diff(pb_time, &stats.time_played, is_best)
                        }
                        None => TableCell::new_default("-"),
                    };
                    let mut row: Vec<TableCell> = Vec::new();
                    row.push(chapter_cell);
                    row.push(split_time_cell);
                    row.push(diff_cell);
                    proof {
                        assert(cells_view(row@) =~~= spec_session_row(
                            data@,
                            self.pb@,
                            self.best_splits@,
                            route@[k as int],
                        ));
                    }
                    table.push_row(row);
                }
                None => {}
            }
            k += 1;
        }
        proof {
            assert(route@.take(n as int) =~= route@);
            lemma_session_body_len(data@, self.pb@, self.best_splits@, route@);
        }
        let total_label = TableCell::new_default("Total");
        let total_time_cell = TableCell {
            text: format_duration_micros(totals.total_time),
            color: CellColor::Reset,
        };
        let total_diff_cell = TableCell {
            text: format_diff_micros(totals.pb_total_running, totals.total_time),
            color: if totals.total_time > totals.pb_total_running {
                CellColor::Red
            } else {
                CellColor::Green
            },
        };
        let mut total_row: Vec<TableCell> = Vec::new();
        total_row.push(total_label);
        total_row.push(total_time_cell);
        total_row.push(total_diff_cell);
        proof {
            assert(cells_view(total_row@) =~~= spec_total_row(
                spec_total_time(data@, route@),
                spec_pb_total_running(data@, self.pb@, route@),
            ));
        }
        table.push_row(total_row);
        Ok(table)
    }

    /// Whether a key quits the session: only `q` does.
    pub fn handle_key(&mut self, keycode: KeyCode) -> (quit: bool)
        ensures
            quit == (keycode == KeyCode::Char('q')),
            final (self).current_save == old(self).current_save,
            final (self).pb@ == old(self).pb@,
            final (self).best_splits@ == old(self).best_splits@,
    {
        match keycode {
            KeyCode::Char(c) => c == 'q',
            KeyCode::Other => false,
        }
    }
}

fn project_pb(data: &TimeMap) -> (r: SplitMap)
    ensures
        r@ == spec_project_pb(data@),
{
    let n = data.pair_count();
    let mut m: SplitMap = ChapterMap::new();
    let mut i: usize = 0;
    while i < n
        invariant
            n == data.pairs().len(),
            i <= n,
            data@ == map_of(data.pairs()),
            m@ == spec_project_pb(map_of(data.pairs().take(i as int))),
        decreases n - i,
    {
        let p = data.pair_at(i);
        let c = p.0;
        let tp = p.1.time_played;
        m.insert(c, tp);
        proof {
            assert(data.pairs().take(i + 1).drop_last() =~= data.pairs().take(i as int));
            assert(m@ =~= spec_project_pb(map_of(data.pairs().take(i + 1))));
        }
        i += 1;
    }
    proof {
        assert(data.pairs().take(n as int) =~= data.pairs());
    }
    m
}

impl SessionState {
    /// One engine update: build the table from the state before the update,
    /// improve every best split the snapshot beats, and, when the snapshot
    /// covers the route, promote it to the personal best if its accumulated
    /// total does not exceed the full-route personal-best total.
    pub fn on_save_update(&mut self, route: &[Chapter]) -> (r: Result<UpdateOutcome, EngineError>)
        ensures
            match r {
                Err(e) => {
                    &&& e == EngineError::NoActiveSnapshot
                    &&& old(self).current_save is None
                    &&& final (self).current_save == old(self).current_save
                    &&& final (self).pb@ == old(self).pb@
                    &&& final (self).best_splits@ == old(self).best_splits@
                },
                Ok(o) => {
                    &&& old(self).current_save matches Some(m)
                    &&& {
                        let data = old(self).current_save->Some_0@;
                        let covered = data.dom().len() >= route@.len();
                        let promoted = covered && spec_total_time(data, route@) <= spec_pb_total(
                            old(self).pb@,
                            route@,
                        );
                        &&& o.promoted == promoted
                        &&& o.table@ == spec_session_table(
                            data,
                            old(self).pb@,
                            old(self).best_splits@,
                            route@,
                        )
                        &&& final (self).pb@ == (if promoted {
                            spec_project_pb(data)
                        } else {
                            old(self).pb@
                        })
                        &&& final (self).best_splits@ == spec_improved_splits(
                            old(self).best_splits@,
                            data,
                            route@,
                        )
                        &&& final (self).current_save == old(self).current_save
                    }
                },
            },
    {
        let table = match self.times_table(route) {
            Ok(t) => t,
            Err(e) => {
                return Err(e);
            }
        };
        let totals = self.get_time_totals(route);
        let mut data_opt: Option<TimeMap> = None;
        core::mem::swap(&mut data_opt, &mut self.current_save);
        let data = match &data_opt {
            Some(d) => d,
            None => {
                proof {
                    assert(false);
                }
                unreached()
            }
        };
        let ghost dm = data@;
        let covered = data.len() >= route.len();
        let promoted = covered && totals.total_time <= totals.pb_total;
        if promoted {
            self.pb = project_pb(data);
        }
        let ghost bs_orig = old(self).best_splits@;
        let n = route.len();
        let mut k: usize = 0;
        while k < n
            invariant
                n == route@.len(),
                k <= n,
                data_opt matches Some(d) && d@ == data@,
                data@ == dm,
                self.current_save is None,
                self.pb@ == (if promoted {
                    spec_project_pb(dm)
                } else {
                    old(self).pb@
                }),
                self.best_splits@ == spec_improved_splits(bs_orig, data@, route@.take(k as int)),
                forall|c: Chapter|
                    self.best_splits@.contains_key(c) <==> bs_orig.contains_key(c),
                forall|c: Chapter|
                    #[trigger] self.best_splits@.contains_key(c) ==> (self.best_splits@[c].micros
                        <= bs_orig[c].micros && (self.best_splits@[c] == bs_orig[c] || (
                    data@.contains_key(c) && self.best_splits@[c] == data@[c].time_played))),
            decreases n - k,
        {
            let c = route[k];
            proof {
                assert(route@.take(k + 1).drop_last() =~= route@.take(k as int));
                assert(route@.take(k + 1).last() == route@[k as int]);
            }
            match data.get(&c) {
                Some(stats) => {
                    match self.best_splits.get(&c) {
                        Some(best) => {
                            if stats.time_played.micros < best.micros {
                                self.best_splits.insert(c, stats.time_played);
                            } else {
                                proof {
                                    let prev = spec_improved_splits(
                                        bs_orig,
                                        data@,
                                        route@.take(k as int),
                                    );
                                    if data@.contains_key(c) && bs_orig.contains_key(c)
                                        && data@[c].time_played.micros < bs_orig[c].micros {
                                        assert(prev[c] == data@[c].time_played);
                                        assert(prev.insert(c, data@[c].time_played) =~= prev);
                                    }
                                }
                            }
                        }
                        None => {}
                    }
                }
                None => {}
            }
            k += 1;
        }
        proof {
            assert(route@.take(n as int) =~= route@);
        }
        core::mem::swap(&mut data_opt, &mut self.current_save);
        Ok(UpdateOutcome { table, promoted })
    }
}

} // verus!
