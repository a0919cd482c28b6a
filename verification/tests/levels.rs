use celeste_timer::levels::{Chapter, LevelsError, Side, any_percent_route};

fn all_chapters() -> Vec<Chapter> {
    let sides = [Side::A, Side::B, Side::C];
    let mut v = vec![Chapter::Prologue, Chapter::Epilogue, Chapter::Farewell];
    for side in sides {
        v.push(Chapter::City(side));
        v.push(Chapter::Site(side));
        v.push(Chapter::Resort(side));
        v.push(Chapter::Ridge(side));
        v.push(Chapter::Temple(side));
        v.push(Chapter::Reflection(side));
        v.push(Chapter::Summit(side));
        v.push(Chapter::Core(side));
    }
    v
}

#[test]
fn round_trip_every_chapter() {
    for c in all_chapters() {
        let encoded = c.to_string();
        assert_eq!(Chapter::from_string(encoded.as_str()), Ok(c.clone()));
    }
}

#[test]
fn encoding_of_each_kind() {
    assert_eq!(Chapter::Prologue.to_string(), "Prologue");
    assert_eq!(Chapter::Epilogue.to_string(), "Epilogue");
    assert_eq!(Chapter::Farewell.to_string(), "Farewell");
    assert_eq!(Chapter::City(Side::A).to_string(), "1A");
    assert_eq!(Chapter::Resort(Side::B).to_string(), "3B");
    assert_eq!(Chapter::Summit(Side::C).to_string(), "7C");
    assert_eq!(Chapter::Core(Side::C).to_string(), "8C");
}

#[test]
fn decoding_accepts_only_valid_forms() {
    assert_eq!(Chapter::from_string("Prologue"), Ok(Chapter::Prologue));
    assert_eq!(Chapter::from_string("5B"), Ok(Chapter::Temple(Side::B)));
    assert_eq!(Chapter::from_string("8A"), Ok(Chapter::Core(Side::A)));
    assert_eq!(Chapter::from_string(""), Err(LevelsError::InvalidEncoding));
    assert_eq!(Chapter::from_string("0A"), Err(LevelsError::InvalidEncoding));
    assert_eq!(Chapter::from_string("9A"), Err(LevelsError::InvalidEncoding));
    assert_eq!(Chapter::from_string("1D"), Err(LevelsError::InvalidEncoding));
    assert_eq!(Chapter::from_string("1a"), Err(LevelsError::InvalidEncoding));
    assert_eq!(Chapter::from_string("prologue"), Err(LevelsError::InvalidEncoding));
    assert_eq!(Chapter::from_string("Forsaken City"), Err(LevelsError::InvalidEncoding));
    assert_eq!(Chapter::from_string("11A"), Err(LevelsError::InvalidEncoding));
}

#[test]
fn chapter_from_index_covers_range() {
    assert_eq!(Chapter::from_index(0, Side::B), Ok(Chapter::Prologue));
    assert_eq!(Chapter::from_index(1, Side::A), Ok(Chapter::City(Side::A)));
    assert_eq!(Chapter::from_index(7, Side::C), Ok(Chapter::Summit(Side::C)));
    assert_eq!(Chapter::from_index(8, Side::A), Ok(Chapter::Epilogue));
    assert_eq!(Chapter::from_index(9, Side::B), Ok(Chapter::Core(Side::B)));
    assert_eq!(Chapter::from_index(10, Side::A), Ok(Chapter::Farewell));
    assert_eq!(Chapter::from_index(11, Side::A), Err(LevelsError::InvalidChapterIndex));
    assert_eq!(Chapter::from_index(255, Side::A), Err(LevelsError::InvalidChapterIndex));
}

#[test]
fn side_from_index_covers_range() {
    assert_eq!(Side::from_index(0), Ok(Side::A));
    assert_eq!(Side::from_index(1), Ok(Side::B));
    assert_eq!(Side::from_index(2), Ok(Side::C));
    assert_eq!(Side::from_index(3), Err(LevelsError::InvalidSideIndex));
}

#[test]
fn side_letters() {
    assert_eq!(Side::A.to_string(), "A");
    assert_eq!(Side::B.to_string(), "B");
    assert_eq!(Side::C.to_string(), "C");
}

#[test]
fn names_of_chapters() {
    assert_eq!(Chapter::City(Side::A).short_name(), "1");
    assert_eq!(Chapter::City(Side::A).long_name(), "Forsaken City");
    assert_eq!(Chapter::Core(Side::B).short_name(), "8");
    assert_eq!(Chapter::Farewell.short_name(), "9");
    assert_eq!(Chapter::Farewell.long_name(), "Farewell");
    assert_eq!(Chapter::Summit(Side::C).long_name(), "The Summit");
}

#[test]
fn default_route_is_eight_segments() {
    let route = any_percent_route();
    assert_eq!(route.len(), 8);
    assert_eq!(route[0], Chapter::Prologue);
    assert_eq!(route[1], Chapter::City(Side::A));
    assert_eq!(route[7], Chapter::Summit(Side::A));
}
