use celeste_timer::chapter_map::ChapterMap;
use celeste_timer::levels::{Chapter, Side};
use celeste_timer::saves::{AreaModeStats, Duration};
use celeste_timer::table::{
    CellColor, Table, TableCell, format_duration, format_duration_diff, format_duration_micros,
};

fn micros(m: u64) -> Duration {
    Duration { micros: m }
}

#[test]
fn duration_formatting() {
    assert_eq!(format_duration(&micros(9_500_000)), "09.50");
    assert_eq!(format_duration(&micros(75_340_000)), "01:15.34");
}

#[test]
fn duration_formatting_edges() {
    assert_eq!(format_duration(&micros(0)), "00.00");
    assert_eq!(format_duration(&micros(59_999_999)), "59.99");
    assert_eq!(format_duration(&micros(60_000_000)), "01:00.00");
    assert_eq!(format_duration(&micros(3_725_010_000)), "62:05.01");
    assert_eq!(format_duration_micros(6_000_000_000), "100:00.00");
}

#[test]
fn diff_formatting_and_colors() {
    // reference 10.00s
    let reference = micros(10_000_000);
    assert_eq!(format_duration_diff(&reference, &micros(12_300_000)), "+02.30");
    let warn = TableCell::from_diff(&reference, &micros(12_300_000), false);
    assert_eq!(warn.text, "+02.30");
    assert_eq!(warn.color, CellColor::Red);
    assert_eq!(format_duration_diff(&reference, &micros(8_000_000)), "-02.00");
    let fast = TableCell::from_diff(&reference, &micros(8_000_000), false);
    assert_eq!(fast.text, "-02.00");
    assert_eq!(fast.color, CellColor::Green);
}

#[test]
fn diff_tie_marker() {
    let reference = micros(10_000_000);
    assert_eq!(format_duration_diff(&reference, &reference), "±00.00");
    let tie = TableCell::from_diff(&reference, &reference, false);
    assert_eq!(tie.color, CellColor::Green);
}

#[test]
fn diff_best_split_color_wins() {
    let cell = TableCell::from_diff(&micros(10_000_000), &micros(12_300_000), true);
    assert_eq!(cell.color, CellColor::Blue);
}

#[test]
fn diff_magnitude_truncates_to_milliseconds() {
    // 10.0005s vs 10.0004s differ below a millisecond: the magnitude shows
    // zero but the sign still compares the full durations
    assert_eq!(
        format_duration_diff(&micros(10_000_500), &micros(10_000_400)),
        "-00.00"
    );
}

#[test]
fn default_header_shape() {
    let t = Table::from_default_header();
    let cols = t.columns();
    assert_eq!(cols.len(), 3);
    assert_eq!(cols[0].width, 16);
    assert_eq!(cols[0].cells()[0].text, "Chapter");
    assert_eq!(cols[1].cells()[0].text, "Time");
    assert_eq!(cols[2].cells()[0].text, "Diff");
}

#[test]
fn push_row_appends_one_cell_per_column() {
    let mut t = Table::from_default_header();
    t.push_row(vec![
        TableCell::new_default("a"),
        TableCell::new_default("b"),
        TableCell::new_default("c"),
    ]);
    let cols = t.columns();
    assert_eq!(cols[0].cells().len(), 2);
    assert_eq!(cols[0].cells()[1].text, "a");
    assert_eq!(cols[1].cells()[1].text, "b");
    assert_eq!(cols[2].cells()[1].text, "c");
}

#[test]
fn times_table_dashes_missing_segments() {
    let mut times: ChapterMap<AreaModeStats> = ChapterMap::new();
    times.insert(Chapter::Prologue, AreaModeStats::from_u64(95_000_000, 95_000_000));
    let route = vec![Chapter::Prologue, Chapter::City(Side::A)];
    let t = Table::from_times(&times, &route);
    let cols = t.columns();
    assert_eq!(cols[0].cells().len(), 3);
    assert_eq!(cols[0].cells()[1].text, "Prologue");
    assert_eq!(cols[1].cells()[1].text, "09.50");
    assert_eq!(cols[2].cells()[1].text, "-");
    assert_eq!(cols[0].cells()[2].text, "1A");
    assert_eq!(cols[1].cells()[2].text, "-");
}
