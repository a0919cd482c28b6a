use celeste_timer::chapter_map::ChapterMap;
use celeste_timer::levels::{Chapter, Side};
use celeste_timer::persist::{RecordError, decode_record, encode_record};
use celeste_timer::saves::Duration;
use celeste_timer::timer::{SessionState, SplitMap};

fn micros(m: u64) -> Duration {
    Duration { micros: m }
}

#[test]
fn encode_writes_flat_document() {
    let mut m: SplitMap = ChapterMap::new();
    m.insert(Chapter::Prologue, micros(1_000_000));
    m.insert(Chapter::Resort(Side::B), micros(2_500_000));
    assert_eq!(
        encode_record(&m),
        "{\"Prologue\":1000000,\"3B\":2500000}"
    );
}

#[test]
fn encode_of_empty_record() {
    let m: SplitMap = ChapterMap::new();
    assert_eq!(encode_record(&m), "{}");
}

#[test]
fn documents_round_trip() {
    let mut m: SplitMap = ChapterMap::new();
    m.insert(Chapter::Prologue, micros(95_000_000));
    m.insert(Chapter::City(Side::A), micros(603_400_000));
    m.insert(Chapter::Core(Side::C), micros(1));
    let doc = encode_record(&m);
    let back = decode_record(doc.as_str()).unwrap();
    assert_eq!(back.len(), 3);
    assert_eq!(back.get(&Chapter::Prologue), Some(&micros(95_000_000)));
    assert_eq!(back.get(&Chapter::City(Side::A)), Some(&micros(603_400_000)));
    assert_eq!(back.get(&Chapter::Core(Side::C)), Some(&micros(1)));
}

#[test]
fn decode_tolerates_whitespace() {
    let m = decode_record(" {\n  \"1A\" : 5 ,\t\"Farewell\": 7 }\n").unwrap();
    assert_eq!(m.len(), 2);
    assert_eq!(m.get(&Chapter::City(Side::A)), Some(&micros(5)));
    assert_eq!(m.get(&Chapter::Farewell), Some(&micros(7)));
}

#[test]
fn decode_of_empty_document() {
    let m = decode_record("{}").unwrap();
    assert_eq!(m.len(), 0);
}

#[test]
fn decode_rejects_bad_keys() {
    assert_eq!(decode_record("{\"XX\":1}").unwrap_err(), RecordError::InvalidKey);
    assert_eq!(decode_record("{\"9A\":1}").unwrap_err(), RecordError::InvalidKey);
}

#[test]
fn decode_rejects_bad_values() {
    assert_eq!(
        decode_record("{\"1A\":99999999999999999999}").unwrap_err(),
        RecordError::InvalidValue
    );
    assert_eq!(
        decode_record("{\"1A\":x}").unwrap_err(),
        RecordError::MalformedRecord
    );
}

#[test]
fn decode_rejects_broken_structure() {
    assert_eq!(decode_record("").unwrap_err(), RecordError::MalformedRecord);
    assert_eq!(decode_record("[1]").unwrap_err(), RecordError::MalformedRecord);
    assert_eq!(decode_record("{\"1A\":1").unwrap_err(), RecordError::MalformedRecord);
    assert_eq!(decode_record("{\"1A\" 1}").unwrap_err(), RecordError::MalformedRecord);
    assert_eq!(decode_record("{} trailing").unwrap_err(), RecordError::MalformedRecord);
}

#[test]
fn records_load_independently() {
    // a corrupt best-splits document must not block a valid personal best
    let mut pb: SplitMap = ChapterMap::new();
    pb.insert(Chapter::City(Side::A), micros(42));
    let pb_doc = encode_record(&pb);
    let (session, pb_failed, splits_failed) =
        SessionState::new(None, Some(pb_doc.as_str()), Some("not a record"));
    assert!(!pb_failed);
    assert!(splits_failed);
    assert_eq!(session.pb.get(&Chapter::City(Side::A)), Some(&micros(42)));
    assert_eq!(session.pb.len(), 1);
    assert_eq!(session.best_splits.len(), 0);
}

#[test]
fn missing_documents_default_to_empty() {
    let (session, pb_failed, splits_failed) = SessionState::new(None, None, None);
    assert!(!pb_failed);
    assert!(!splits_failed);
    assert_eq!(session.pb.len(), 0);
    assert_eq!(session.best_splits.len(), 0);
    assert!(session.current_save.is_none());
}
