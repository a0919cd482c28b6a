//! The presentation table: duration formatting, diff cells with their color
//! classification, and the column-major table the renderer consumes.
use vstd::prelude::*;

use crate::levels::Chapter;
use crate::levels::spec_encode;
use crate::saves::Duration;
use crate::saves::TimeMap;

verus! {

/// The color classification of a cell.
#[derive(Clone, Copy, PartialEq, Eq, Structural, Debug)]
pub enum CellColor {
    /// The terminal's default color.
    Reset,
    /// This segment is now the best-known split for its position.
    Blue,
    /// Slower than the reference.
    Red,
    /// Faster than or equal to the reference.
    Green,
}

/// One table cell: its text and color.
#[derive(Clone, Debug)]
pub struct TableCell {
    pub text: String,
    pub color: CellColor,
}

#[verifier::ext_equal]
pub ghost struct CellView {
    pub text: Seq<char>,
    pub color: CellColor,
}

impl View for TableCell {
    type V = CellView;

    open spec fn view(&self) -> CellView {
        CellView { text: self.text@, color: self.color }
    }
}

/// One table column: its width and its cells, header first.
#[derive(Debug)]
pub struct TableColumn {
    pub width: u16,
    cells: Vec<TableCell>,
}

#[verifier::ext_equal]
pub ghost struct ColumnView {
    pub width: u16,
    pub cells: Seq<CellView>,
}

/// The views of a sequence of cells.
pub open spec fn cells_view(s: Seq<TableCell>) -> Seq<CellView> {
    s.map_values(|c: TableCell| c@)
}

impl View for TableColumn {
    type V = ColumnView;

    closed spec fn view(&self) -> ColumnView {
        ColumnView { width: self.width, cells: cells_view(self.cells@) }
    }
}

impl TableColumn {
    /// The column's cells, header first.
    pub fn cells(&self) -> (r: &Vec<TableCell>)
        ensures
            cells_view(r@) == self@.cells,
    {
        &self.cells
    }
}

/// A table in column-major order.
#[derive(Debug)]
pub struct Table {
    columns: Vec<TableColumn>,
}

/// The views of a sequence of columns.
pub open spec fn columns_view(s: Seq<TableColumn>) -> Seq<ColumnView> {
    s.map_values(|c: TableColumn| c@)
}

impl View for Table {
    type V = Seq<ColumnView>;

    closed spec fn view(&self) -> Seq<ColumnView> {
        columns_view(self.columns@)
    }
}

pub open spec fn spec_digit_char(d: int) -> char {
    if d == 0 {
        '0'
    } else if d == 1 {
        '1'
    } else if d == 2 {
        '2'
    } else if d == 3 {
        '3'
    } else if d == 4 {
        '4'
    } else if d == 5 {
        '5'
    } else if d == 6 {
        '6'
    } else if d == 7 {
        '7'
    } else if d == 8 {
        '8'
    } else {
        '9'
    }
}

/// The decimal digits of a nonnegative number, most significant first.
pub open spec fn spec_digits(n: int) -> Seq<char>
    decreases n,
{
    if n < 10 {
        seq![spec_digit_char(n)]
    } else {
        spec_digits(n / 10).push(spec_digit_char(n % 10))
    }
}

/// The decimal digits, zero-padded on the left to at least two places.
pub open spec fn spec_pad2(n: int) -> Seq<char> {
    if n < 10 {
        seq!['0'] + spec_digits(n)
    } else {
        spec_digits(n)
    }
}

/// A duration of `m` microseconds written as `SS.CC` under one minute and
/// `MM:SS.CC` from one minute up; centiseconds truncate the fraction.
pub open spec fn spec_format_micros(m: int) -> Seq<char> {
    let secs_total = m / 1_000_000;
    let mins = secs_total / 60;
    let secs = secs_total % 60;
    let centis = (m % 1_000_000) / 10_000;
    if secs_total >= 60 {
        spec_pad2(mins) + seq![':'] + spec_pad2(secs) + seq!['.'] + spec_pad2(centis)
    } else {
        spec_pad2(secs) + seq!['.'] + spec_pad2(centis)
    }
}

/// The sign of a diff: `+` when the other time is slower than the
/// reference, the tie marker when equal, `-` when faster.
pub open spec fn spec_diff_prefix(reference: int, other: int) -> Seq<char> {
    if other > reference {
        seq!['+']
    } else if other == reference {
        seq!['±']
    } else {
        seq!['-']
    }
}

/// A diff between two durations in microseconds: the sign, then the
/// magnitude of the difference at millisecond precision.
pub open spec fn spec_format_diff(reference: int, other: int) -> Seq<char> {
    let rm = reference / 1000;
    let om = other / 1000;
    let diff = if rm >= om {
        rm - om
    } else {
        om - rm
    };
    spec_diff_prefix(reference, other) + spec_format_micros(diff * 1000)
}

/// The color of a diff cell: best split wins, else slower warns, else
/// success.
pub open spec fn spec_diff_color(reference: int, other: int, is_best_split: bool) -> CellColor {
    if is_best_split {
        CellColor::Blue
    } else if other > reference {
        CellColor::Red
    } else {
        CellColor::Green
    }
}

fn digit_str(d: u8) -> (r: &'static str)
    requires
        d < 10,
    ensures
        r@ == seq![spec_digit_char(d as int)],
{
    proof {
        reveal_strlit("0");
        reveal_strlit("1");
        reveal_strlit("2");
        reveal_strlit("3");
        reveal_strlit("4");
        reveal_strlit("5");
        reveal_strlit("6");
        reveal_strlit("7");
        reveal_strlit("8");
        reveal_strlit("9");
    }
    let r = match d {
        0 => "0",
        1 => "1",
        2 => "2",
        3 => "3",
        4 => "4",
        5 => "5",
        6 => "6",
        7 => "7",
        8 => "8",
        _ => "9",
    };
    proof {
        assert(r@ =~= seq![spec_digit_char(d as int)]);
    }
    r
}

pub fn digits_string(n: u128) -> (r: String)
    ensures
        r@ == spec_digits(n as int),
    decreases n,
{
    if n < 10 {
        String::from_str(digit_str(n as u8))
    } else {
        let mut s = digits_string(n / 10);
        s.append(digit_str((n % 10) as u8));
        s
    }
}

fn pad2(n: u128) -> (r: String)
    ensures
        r@ == spec_pad2(n as int),
{
    if n < 10 {
        proof {
            reveal_strlit("0");
        }
        let mut s = String::from_str("0");
        s.append(digit_str(n as u8));
        proof {
            assert(s@ =~= spec_pad2(n as int));
        }
        s
    } else {
        digits_string(n)
    }
}

/// Format a duration given in microseconds.
pub fn format_duration_micros(m: u128) -> (r: String)
    ensures
        r@ == spec_format_micros(m as int),
{
    let secs_total: u128 = m / 1_000_000;
    let secs: u128 = secs_total % 60;
    let centis: u128 = (m % 1_000_000) / 10_000;
    proof {
        reveal_strlit(":");
        reveal_strlit(".");
    }
    if secs_total >= 60 {
        let mins: u128 = secs_total / 60;
        let mut s = pad2(mins);
        s.append(":");
        s.append(pad2(secs).as_str());
        s.append(".");
        s.append(pad2(centis).as_str());
        proof {
            assert(s@ =~= spec_format_micros(m as int));
        }
        s
    } else {
        let mut s = pad2(secs);
        s.append(".");
        s.append(pad2(centis).as_str());
        proof {
            assert(s@ =~= spec_format_micros(m as int));
        }
        s
    }
}

/// Format a duration.
pub fn format_duration(duration: &Duration) -> (r: String)
    ensures
        r@ == spec_format_micros(duration.micros as int),
{
    format_duration_micros(duration.micros as u128)
}

/// Format the diff between two durations in microseconds.
pub fn format_diff_micros(reference: u128, other: u128) -> (r: String)
    ensures
        r@ == spec_format_diff(reference as int, other as int),
{
    proof {
        reveal_strlit("+");
        reveal_strlit("±");
        reveal_strlit("-");
    }
    let rm: u128 = reference / 1000;
    let om: u128 = other / 1000;
    let diff: u128 = if rm >= om {
        rm - om
    } else {
        om - rm
    };
    let prefix = if other > reference {
        "+"
    } else if other == reference {
        "±"
    } else {
        "-"
    };
    let mut s = String::from_str(prefix);
    proof {
        assert(diff * 1000 <= u128::MAX) by (nonlinear_arith)
            requires
                diff <= u128::MAX / 1000,
        ;
        assert(s@ =~= spec_diff_prefix(reference as int, other as int));
    }
    s.append(format_duration_micros(diff * 1000).as_str());
    proof {
        assert(s@ =~= spec_format_diff(reference as int, other as int));
    }
    s
}

/// Format the diff between two durations.
pub fn format_duration_diff(reference: &Duration, other: &Duration) -> (r: String)
    ensures
        r@ == spec_format_diff(reference.micros as int, other.micros as int),
{
    format_diff_micros(reference.micros as u128, other.micros as u128)
}

impl TableCell {
    /// A cell with the default color.
    pub fn new_default(text: &str) -> (r: TableCell)
        ensures
            r@ == (CellView { text: text@, color: CellColor::Reset }),
    {
        TableCell { text: text.to_owned(), color: CellColor::Reset }
    }

    /// A cell holding a formatted duration, default color.
    pub fn from_duration(duration: &Duration) -> (r: TableCell)
        ensures
            r@ == (CellView {
                text: spec_format_micros(duration.micros as int),
                color: CellColor::Reset,
            }),
    {
        TableCell { text: format_duration(duration), color: CellColor::Reset }
    }

    /// A diff cell: formatted difference against the reference, colored by
    /// the tri-state classification.
    pub fn from_diff(reference: &Duration, other: &Duration, is_best_split: bool) -> (r: TableCell)
        ensures
            r@ == (CellView {
                text: spec_format_diff(reference.micros as int, other.micros as int),
                color: spec_diff_color(reference.micros as int, other.micros as int, is_best_split),
            }),
    {
        TableCell {
            text: format_duration_diff(reference, other),
            color: if is_best_split {
                CellColor::Blue
            } else if other.micros > reference.micros {
                CellColor::Red
            } else {
                CellColor::Green
            },
        }
    }
}

/// The header columns a table is built from.
pub open spec fn spec_from_header(s: Seq<(&str, u16)>) -> Seq<ColumnView> {
    s.map_values(
        |p: (&str, u16)|
            ColumnView {
                width: p.1,
                cells: seq![CellView { text: p.0@, color: CellColor::Reset }],
            },
    )
}

/// The default three-column header.
pub open spec fn spec_default_header() -> Seq<ColumnView> {
    seq![
        ColumnView {
            width: 16,
            cells: seq![CellView { text: "Chapter"@, color: CellColor::Reset }],
        },
        ColumnView { width: 7, cells: seq![CellView { text: "Time"@, color: CellColor::Reset }] },
        ColumnView { width: 5, cells: seq![CellView { text: "Diff"@, color: CellColor::Reset }] },
    ]
}

/// A table after appending one row: each column gains its cell.
pub open spec fn spec_push_row(t: Seq<ColumnView>, row: Seq<CellView>) -> Seq<ColumnView> {
    Seq::new(t.len(), |k: int| ColumnView { width: t[k].width, cells: t[k].cells.push(row[k]) })
}

impl Table {
    /// A table of header columns, each with its width.
    pub fn from_header(columns: Vec<(&str, u16)>) -> (r: Table)
        ensures
            r@ == spec_from_header(columns@),
    {
        let mut cols: Vec<TableColumn> = Vec::new();
        let n = columns.len();
        let mut i: usize = 0;
        while i < n
            invariant
                n == columns@.len(),
                i <= n,
                cols@.len() == i,
                columns_view(cols@) == spec_from_header(columns@.take(i as int)),
            decreases n - i,
        {
            let (text, width) = columns[i];
            let mut hdr_cells: Vec<TableCell> = Vec::new();
            hdr_cells.push(TableCell::new_default(text));
            let ghost pre = cols@;
            cols.push(TableColumn { width, cells: hdr_cells });
            proof {
                assert forall|k: int| 0 <= k < i + 1 implies columns_view(cols@)[k]
                    == spec_from_header(columns@.take(i + 1))[k] by {
                    assert(columns_view(cols@)[k] == cols@[k]@);
                    if k < i {
                        assert(cols@[k] == pre[k]);
                        assert(columns_view(pre)[k] == pre[k]@);
                        assert(spec_from_header(columns@.take(i as int))[k] == spec_from_header(
                            columns@.take(i + 1),
                        )[k]);
                    } else {
                        assert(cols@[k]@.cells =~~= seq![
                            CellView { text: columns@[k].0@, color: CellColor::Reset },
                        ]);
                        assert(cols@[k]@ =~~= spec_from_header(columns@.take(i + 1))[k]);
                    }
                }
                assert(columns_view(cols@) =~~= spec_from_header(columns@.take(i + 1)));
            }
            i += 1;
        }
        proof {
            assert(columns@.take(n as int) =~= columns@);
        }
        Table { columns: cols }
    }

    /// The default table: Chapter, Time and Diff columns.
    pub fn from_default_header() -> (r: Table)
        ensures
            r@ == spec_default_header(),
    {
        let mut hdr: Vec<(&str, u16)> = Vec::new();
        hdr.push(("Chapter", 16));
        hdr.push(("Time", 7));
        hdr.push(("Diff", 5));
        let t = Table::from_header(hdr);
        proof {
            assert(t@ =~~= spec_default_header());
        }
        t
    }

    /// Append one row, a cell per column.
    pub fn push_row(&mut self, cells: Vec<TableCell>)
        requires
            cells@.len() == old(self)@.len(),
        ensures
            final (self)@ == spec_push_row(old(self)@, cells_view(cells@)),
    {
        let ghost row = cells_view(cells@);
        let mut cells = cells;
        let n = self.columns.len();
        let mut j = n;
        while j > 0
            invariant
                n == self.columns@.len(),
                n == old(self).columns@.len(),
                row.len() == n,
                j <= n,
                cells@.len() == j,
                cells_view(cells@) =~= row.take(j as int),
                forall|k: int| 0 <= k < j ==> self.columns@[k] == old(self).columns@[k],
                forall|k: int|
                    j <= k < n ==> #[trigger] self.columns@[k]@ == (ColumnView {
                        width: old(self).columns@[k]@.width,
                        cells: old(self).columns@[k]@.cells.push(row[k]),
                    }),
            decreases j,
        {
            j -= 1;
            let cell = match cells.pop() {
                Some(c) => c,
                None => {
                    proof {
                        assert(false);
                    }
                    unreached()
                }
            };
            proof {
                assert(row.take(j + 1).last() == row[j as int]);
                assert(cells_view(cells@) =~= row.take(j as int));
            }
            let mut col = TableColumn { width: 0, cells: Vec::new() };
            core::mem::swap(&mut col, &mut self.columns[j]);
            col.cells.push(cell);
            core::mem::swap(&mut col, &mut self.columns[j]);
            proof {
                assert(self.columns@[j as int]@.cells =~= old(self).columns@[j as int]@.cells.push(
                    row[j as int],
                ));
            }
        }
        proof {
            assert(self@ =~= spec_push_row(old(self)@, row));
        }
    }

    /// The table's columns.
    pub fn columns(&self) -> (r: &Vec<TableColumn>)
        ensures
            columns_view(r@) == self@,
    {
        &self.columns
    }

    /// The rows a plain times table holds for a route: the chapter's
    /// encoding, its formatted time or a dash, and a dash diff.
    pub open spec fn spec_times_row(times: Map<Chapter, crate::saves::AreaModeStats>, c: Chapter) -> Seq<
        CellView,
    > {
        seq![
            CellView { text: spec_encode(c), color: CellColor::Reset },
            CellView {
                text: if times.contains_key(c) {
                    spec_format_micros(times[c].time_played.micros as int)
                } else {
                    "-"@
                },
                color: CellColor::Reset,
            },
            CellView { text: "-"@, color: CellColor::Reset },
        ]
    }

    /// The full times table for a route.
    pub open spec fn spec_from_times(
        times: Map<Chapter, crate::saves::AreaModeStats>,
        route: Seq<Chapter>,
    ) -> Seq<ColumnView>
        decreases route.len(),
    {
        if route.len() == 0 {
            spec_default_header()
        } else {
            spec_push_row(
                Table::spec_from_times(times, route.drop_last()),
                Table::spec_times_row(times, route.last()),
            )
        }
    }

    /// A table of the recorded time of each route segment: a row per
    /// segment, with a dash where the snapshot has no entry.
    pub fn from_times(times: &TimeMap, route: &[Chapter]) -> (r: Table)
        ensures
            r@ == Table::spec_from_times(times@, route@),
    {
        let mut table = Table::from_default_header();
        let n = route.len();
        let mut i: usize = 0;
        while i < n
            invariant
                n == route@.len(),
                i <= n,
                table@ == Table::spec_from_times(times@, route@.take(i as int)),
            decreases n - i,
        {
            let chapter = route[i];
            let duration_str = match times.get(&chapter) {
                Some(stats) => format_duration(&stats.time_played),
                None => {
                    let s = String::from_str("-");
                    s
                }
            };
            let name = chapter.to_string();
            let mut row: Vec<TableCell> = Vec::new();
            row.push(TableCell::new_default(name.as_str()));
            row.push(TableCell::new_default(duration_str.as_str()));
            row.push(TableCell::new_default("-"));
            proof {
                assert(Table::spec_from_times(times@, route@.take(i as int)).len() == 3) by {
                    lemma_from_times_len(times@, route@.take(i as int));
                }
                assert(route@.take(i + 1).drop_last() =~= route@.take(i as int));
                assert(cells_view(row@) =~~= Table::spec_times_row(times@, route@[i as int]));
            }
            table.push_row(row);
            i += 1;
        }
        proof {
            assert(route@.take(n as int) =~= route@);
        }
        table
    }
}

proof fn lemma_from_times_len(
    times: Map<Chapter, crate::saves::AreaModeStats>,
    route: Seq<Chapter>,
)
    ensures
        Table::spec_from_times(times, route).len() == 3,
    decreases route.len(),
{
    if route.len() > 0 {
        lemma_from_times_len(times, route.drop_last());
    }
}

} // verus!
