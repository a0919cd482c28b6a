use celeste_timer::levels::{Chapter, Side};
use celeste_timer::saves::{AreaModeStats, SaveError, parse_save};

fn doc(s: &str) -> Vec<u8> {
    s.as_bytes().to_vec()
}

const SAMPLE: &str = r#"<?xml version="1.0" encoding="utf-8"?>
<SaveData>
  <Name>run</Name>
  <Areas>
    <AreaStats ID="0" Cassette="false">
      <AreaModeStats TimePlayed="95000000" BestTime="90000000" />
    </AreaStats>
    <AreaStats ID="1">
      <AreaModeStats TimePlayed="603400000" BestTime="600000000"/>
      <AreaModeStats TimePlayed="0" />
      <AreaModeStats TimePlayed="12340000" BestTime="12340000"/>
    </AreaStats>
  </Areas>
</SaveData>"#;

#[test]
fn parses_sample_document() {
    let m = parse_save(&doc(SAMPLE)).unwrap();
    assert_eq!(m.len(), 3);
    assert_eq!(
        m.get(&Chapter::Prologue),
        Some(&AreaModeStats::from_u64(95000000, 90000000))
    );
    assert_eq!(
        m.get(&Chapter::City(Side::A)),
        Some(&AreaModeStats::from_u64(603400000, 600000000))
    );
    assert_eq!(
        m.get(&Chapter::City(Side::C)),
        Some(&AreaModeStats::from_u64(12340000, 12340000))
    );
    assert_eq!(m.get(&Chapter::City(Side::B)), None);
    assert!(m.contains_key(&Chapter::Prologue));
    assert!(!m.contains_key(&Chapter::Farewell));
}

#[test]
fn parsing_twice_yields_equal_snapshots() {
    let bytes = doc(SAMPLE);
    let a = parse_save(&bytes).unwrap();
    let b = parse_save(&bytes).unwrap();
    assert_eq!(a.len(), b.len());
    for c in [
        Chapter::Prologue,
        Chapter::City(Side::A),
        Chapter::City(Side::B),
        Chapter::City(Side::C),
        Chapter::Site(Side::A),
    ] {
        assert_eq!(a.get(&c), b.get(&c));
    }
}

#[test]
fn zero_time_record_is_omitted() {
    let m = parse_save(&doc(
        r#"<Areas><AreaStats ID="2"><AreaModeStats TimePlayed="0" BestTime="5"/><AreaModeStats TimePlayed="7" BestTime="5"/></AreaStats></Areas>"#,
    ))
    .unwrap();
    // the zero-time record occupied the A side and left no entry
    assert_eq!(m.get(&Chapter::Site(Side::A)), None);
    assert_eq!(m.get(&Chapter::Site(Side::B)), Some(&AreaModeStats::from_u64(7, 5)));
    assert_eq!(m.len(), 1);
}

#[test]
fn mode_record_before_area_record_fails() {
    let r = parse_save(&doc(
        r#"<Areas><AreaModeStats TimePlayed="1" BestTime="1"/></Areas>"#,
    ));
    assert_eq!(r.unwrap_err(), SaveError::MissingChapterContext);
}

#[test]
fn missing_attribute_fails() {
    let r = parse_save(&doc(r#"<Areas><AreaStats Cassette="false"/></Areas>"#));
    assert_eq!(r.unwrap_err(), SaveError::MissingAttribute);
    let r = parse_save(&doc(
        r#"<Areas><AreaStats ID="1"><AreaModeStats BestTime="1"/></AreaStats></Areas>"#,
    ));
    assert_eq!(r.unwrap_err(), SaveError::MissingAttribute);
    let r = parse_save(&doc(
        r#"<Areas><AreaStats ID="1"><AreaModeStats TimePlayed="1"/></AreaStats></Areas>"#,
    ));
    assert_eq!(r.unwrap_err(), SaveError::MissingAttribute);
}

#[test]
fn malformed_attribute_fails() {
    let r = parse_save(&doc(r#"<Areas><AreaStats ID="x"/></Areas>"#));
    assert_eq!(r.unwrap_err(), SaveError::MalformedAttribute);
    let r = parse_save(&doc(r#"<Areas><AreaStats ID="300"/></Areas>"#));
    assert_eq!(r.unwrap_err(), SaveError::MalformedAttribute);
    let r = parse_save(&doc(
        r#"<Areas><AreaStats ID="1"><AreaModeStats TimePlayed="1.5" BestTime="1"/></AreaStats></Areas>"#,
    ));
    assert_eq!(r.unwrap_err(), SaveError::MalformedAttribute);
}

#[test]
fn out_of_range_indices_fail() {
    // chapter index beyond 10
    let r = parse_save(&doc(
        r#"<Areas><AreaStats ID="11"><AreaModeStats TimePlayed="1" BestTime="1"/></AreaStats></Areas>"#,
    ));
    assert_eq!(r.unwrap_err(), SaveError::InvalidIndex);
    // a fourth mode record in one area runs past side C
    let r = parse_save(&doc(
        r#"<Areas><AreaStats ID="1"><AreaModeStats TimePlayed="1" BestTime="1"/><AreaModeStats TimePlayed="1" BestTime="1"/><AreaModeStats TimePlayed="1" BestTime="1"/><AreaModeStats TimePlayed="1" BestTime="1"/></AreaStats></Areas>"#,
    ));
    assert_eq!(r.unwrap_err(), SaveError::InvalidIndex);
}

#[test]
fn broken_tag_structure_fails() {
    assert_eq!(parse_save(&doc("<")).unwrap_err(), SaveError::MalformedSave);
    assert_eq!(parse_save(&doc("<a b=3>")).unwrap_err(), SaveError::MalformedSave);
    assert_eq!(
        parse_save(&doc(r#"<a b="1""#)).unwrap_err(),
        SaveError::MalformedSave
    );
}

#[test]
fn records_outside_areas_are_ignored() {
    let m = parse_save(&doc(
        r#"<SaveData><AreaStats ID="1"/><AreaModeStats TimePlayed="1" BestTime="1"/></SaveData>"#,
    ))
    .unwrap();
    assert_eq!(m.len(), 0);
}

#[test]
fn ticks_convert_to_microseconds() {
    let st = AreaModeStats::from_u64(95, 19);
    assert_eq!(st.time_played.micros, 9);
    assert_eq!(st.best_time.micros, 1);
}
