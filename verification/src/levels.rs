//! Route segments: chapters, their sides, and the external string encoding.
use vstd::prelude::*;

verus! {

/// One of the three side variants a sided chapter can have.
#[derive(Clone, Copy, PartialEq, Eq, Structural, Debug, Hash)]
pub enum Side {
    A,
    B,
    C,
}

/// Failures when building a chapter or side from an index or an encoded string.
#[derive(Clone, Copy, PartialEq, Eq, Structural, Debug)]
pub enum LevelsError {
    InvalidChapterIndex,
    InvalidSideIndex,
    InvalidEncoding,
}

/// A route segment: a chapter, carrying a side where the chapter has sides.
#[derive(Clone, Copy, PartialEq, Eq, Structural, Debug, Hash)]
pub enum Chapter {
    Prologue,
    City(Side),
    Site(Side),
    Resort(Side),
    Ridge(Side),
    Temple(Side),
    Reflection(Side),
    Summit(Side),
    Epilogue,
    Core(Side),
    Farewell,
}

pub open spec fn spec_side_from_index(index: u8) -> Result<Side, LevelsError> {
    if index == 0 {
        Ok(Side::A)
    } else if index == 1 {
        Ok(Side::B)
    } else if index == 2 {
        Ok(Side::C)
    } else {
        Err(LevelsError::InvalidSideIndex)
    }
}

pub open spec fn spec_side_str(s: Side) -> Seq<char> {
    match s {
        Side::A => "A"@,
        Side::B => "B"@,
        Side::C => "C"@,
    }
}

impl Side {
    /// Side with the given document-order index: 0 is A, 1 is B, 2 is C.
    pub fn from_index(index: u8) -> (r: Result<Side, LevelsError>)
        ensures
            r == spec_side_from_index(index),
    {
        match index {
            0 => Ok(Side::A),
            1 => Ok(Side::B),
            2 => Ok(Side::C),
            _ => Err(LevelsError::InvalidSideIndex),
        }
    }

    /// The side's letter, as used in the external segment encoding.
    pub fn to_string(&self) -> (r: &'static str)
        ensures
            r@ == spec_side_str(*self),
    {
        match self {
            Side::A => "A",
            Side::B => "B",
            Side::C => "C",
        }
    }
}

pub open spec fn spec_chapter_from_index(index: u8, side: Side) -> Result<Chapter, LevelsError> {
    if index == 0 {
        Ok(Chapter::Prologue)
    } else if index == 1 {
        Ok(Chapter::City(side))
    } else if index == 2 {
        Ok(Chapter::Site(side))
    } else if index == 3 {
        Ok(Chapter::Resort(side))
    } else if index == 4 {
        Ok(Chapter::Ridge(side))
    } else if index == 5 {
        Ok(Chapter::Temple(side))
    } else if index == 6 {
        Ok(Chapter::Reflection(side))
    } else if index == 7 {
        Ok(Chapter::Summit(side))
    } else if index == 8 {
        Ok(Chapter::Epilogue)
    } else if index == 9 {
        Ok(Chapter::Core(side))
    } else if index == 10 {
        Ok(Chapter::Farewell)
    } else {
        Err(LevelsError::InvalidChapterIndex)
    }
}

pub open spec fn spec_short_name(c: Chapter) -> Seq<char> {
    match c {
        Chapter::Prologue => "Prologue"@,
        Chapter::City(_) => "1"@,
        Chapter::Site(_) => "2"@,
        Chapter::Resort(_) => "3"@,
        Chapter::Ridge(_) => "4"@,
        Chapter::Temple(_) => "5"@,
        Chapter::Reflection(_) => "6"@,
        Chapter::Summit(_) => "7"@,
        Chapter::Epilogue => "Epilogue"@,
        Chapter::Core(_) => "8"@,
        Chapter::Farewell => "9"@,
    }
}

pub open spec fn spec_long_name(c: Chapter) -> Seq<char> {
    match c {
        Chapter::Prologue => "Prologue"@,
        Chapter::City(_) => "Forsaken City"@,
        Chapter::Site(_) => "Old Site"@,
        Chapter::Resort(_) => "Celestial Resort"@,
        Chapter::Ridge(_) => "Golden Ridge"@,
        Chapter::Temple(_) => "Mirror Temple"@,
        Chapter::Reflection(_) => "Reflection"@,
        Chapter::Summit(_) => "The Summit"@,
        Chapter::Epilogue => "Epilogue"@,
        Chapter::Core(_) => "Core"@,
        Chapter::Farewell => "Farewell"@,
    }
}

/// The external string encoding of a chapter: the bare long name for the
/// three sideless milestones, otherwise the short label followed by the
/// side letter.
pub open spec fn spec_encode(c: Chapter) -> Seq<char> {
    match c {
        Chapter::Prologue => spec_long_name(c),
        Chapter::Epilogue => spec_long_name(c),
        Chapter::Farewell => spec_long_name(c),
        Chapter::City(s) => spec_short_name(c) + spec_side_str(s),
        Chapter::Site(s) => spec_short_name(c) + spec_side_str(s),
        Chapter::Resort(s) => spec_short_name(c) + spec_side_str(s),
        Chapter::Ridge(s) => spec_short_name(c) + spec_side_str(s),
        Chapter::Temple(s) => spec_short_name(c) + spec_side_str(s),
        Chapter::Reflection(s) => spec_short_name(c) + spec_side_str(s),
        Chapter::Summit(s) => spec_short_name(c) + spec_side_str(s),
        Chapter::Core(s) => spec_short_name(c) + spec_side_str(s),
    }
}

pub open spec fn spec_side_of_char(ch: char) -> Result<Side, LevelsError> {
    if ch == 'A' {
        Ok(Side::A)
    } else if ch == 'B' {
        Ok(Side::B)
    } else if ch == 'C' {
        Ok(Side::C)
    } else {
        Err(LevelsError::InvalidEncoding)
    }
}

pub open spec fn spec_sided_of_digit(d: char, side: Side) -> Result<Chapter, LevelsError> {
    if d == '1' {
        Ok(Chapter::City(side))
    } else if d == '2' {
        Ok(Chapter::Site(side))
    } else if d == '3' {
        Ok(Chapter::Resort(side))
    } else if d == '4' {
        Ok(Chapter::Ridge(side))
    } else if d == '5' {
        Ok(Chapter::Temple(side))
    } else if d == '6' {
        Ok(Chapter::Reflection(side))
    } else if d == '7' {
        Ok(Chapter::Summit(side))
    } else if d == '8' {
        Ok(Chapter::Core(side))
    } else {
        Err(LevelsError::InvalidEncoding)
    }
}

/// Decoding of the external string encoding: the exact inverse of
/// `spec_encode`; every string that no chapter encodes to is rejected.
pub open spec fn spec_decode(s: Seq<char>) -> Result<Chapter, LevelsError> {
    if s == spec_long_name(Chapter::Prologue) {
        Ok(Chapter::Prologue)
    } else if s == spec_long_name(Chapter::Epilogue) {
        Ok(Chapter::Epilogue)
    } else if s == spec_long_name(Chapter::Farewell) {
        Ok(Chapter::Farewell)
    } else if s.len() == 2 {
        match spec_side_of_char(s[1]) {
            Ok(side) => spec_sided_of_digit(s[0], side),
            Err(e) => Err(e),
        }
    } else {
        Err(LevelsError::InvalidEncoding)
    }
}

impl Chapter {
    /// Chapter with the given save-document index 0 to 10; sided chapters
    /// take the given side, sideless ones ignore it.
    pub fn from_index(index: u8, side: Side) -> (r: Result<Chapter, LevelsError>)
        ensures
            r == spec_chapter_from_index(index, side),
    {
        match index {
            0 => Ok(Chapter::Prologue),
            1 => Ok(Chapter::City(side)),
            2 => Ok(Chapter::Site(side)),
            3 => Ok(Chapter::Resort(side)),
            4 => Ok(Chapter::Ridge(side)),
            5 => Ok(Chapter::Temple(side)),
            6 => Ok(Chapter::Reflection(side)),
            7 => Ok(Chapter::Summit(side)),
            8 => Ok(Chapter::Epilogue),
            9 => Ok(Chapter::Core(side)),
            10 => Ok(Chapter::Farewell),
            _ => Err(LevelsError::InvalidChapterIndex),
        }
    }

    /// The chapter's short label: a digit for sided chapters, the full word
    /// for the sideless milestones.
    pub fn short_name(&self) -> (r: &'static str)
        ensures
            r@ == spec_short_name(*self),
    {
        match self {
            Chapter::Prologue => "Prologue",
            Chapter::City(_) => "1",
            Chapter::Site(_) => "2",
            Chapter::Resort(_) => "3",
            Chapter::Ridge(_) => "4",
            Chapter::Temple(_) => "5",
            Chapter::Reflection(_) => "6",
            Chapter::Summit(_) => "7",
            Chapter::Epilogue => "Epilogue",
            Chapter::Core(_) => "8",
            Chapter::Farewell => "9",
        }
    }

    /// The chapter's long descriptive name.
    pub fn long_name(&self) -> (r: &'static str)
        ensures
            r@ == spec_long_name(*self),
    {
        match self {
            Chapter::Prologue => "Prologue",
            Chapter::City(_) => "Forsaken City",
            Chapter::Site(_) => "Old Site",
            Chapter::Resort(_) => "Celestial Resort",
            Chapter::Ridge(_) => "Golden Ridge",
            Chapter::Temple(_) => "Mirror Temple",
            Chapter::Reflection(_) => "Reflection",
            Chapter::Summit(_) => "The Summit",
            Chapter::Epilogue => "Epilogue",
            Chapter::Core(_) => "Core",
            Chapter::Farewell => "Farewell",
        }
    }

    /// The external string encoding of this chapter.
    pub fn to_string(&self) -> (r: String)
        ensures
            r@ == spec_encode(*self),
    {
        match self {
            Chapter::Prologue => self.long_name().to_owned(),
            Chapter::Epilogue => self.long_name().to_owned(),
            Chapter::Farewell => self.long_name().to_owned(),
            Chapter::City(side) => self.short_name().to_owned().concat(side.to_string()),
            Chapter::Site(side) => self.short_name().to_owned().concat(side.to_string()),
            Chapter::Resort(side) => self.short_name().to_owned().concat(side.to_string()),
            Chapter::Ridge(side) => self.short_name().to_owned().concat(side.to_string()),
            Chapter::Temple(side) => self.short_name().to_owned().concat(side.to_string()),
            Chapter::Reflection(side) => self.short_name().to_owned().concat(side.to_string()),
            Chapter::Summit(side) => self.short_name().to_owned().concat(side.to_string()),
            Chapter::Core(side) => self.short_name().to_owned().concat(side.to_string()),
        }
    }
}

fn char_seq_eq_str(v: &Vec<char>, s: &str) -> (r: bool)
    ensures
        r == (v@ == s@),
{
    let n = s.unicode_len();
    if v.len() != n {
        return false;
    }
    let mut i: usize = 0;
    while i < n
        invariant
            n == s@.len(),
            n == v@.len(),
            i <= n,
            forall|j: int| 0 <= j < i ==> v@[j] == s@[j],
        decreases n - i,
    {
        if v[i] != s.get_char(i) {
            return false;
        }
        i += 1;
    }
    proof {
        assert(v@ =~= s@);
    }
    true
}

fn side_of_char(ch: char) -> (r: Result<Side, LevelsError>)
    ensures
        r == spec_side_of_char(ch),
{
    if ch == 'A' {
        Ok(Side::A)
    } else if ch == 'B' {
        Ok(Side::B)
    } else if ch == 'C' {
        Ok(Side::C)
    } else {
        Err(LevelsError::InvalidEncoding)
    }
}

fn sided_of_digit(d: char, side: Side) -> (r: Result<Chapter, LevelsError>)
    ensures
        r == spec_sided_of_digit(d, side),
{
    if d == '1' {
        Ok(Chapter::City(side))
    } else if d == '2' {
        Ok(Chapter::Site(side))
    } else if d == '3' {
        Ok(Chapter::Resort(side))
    } else if d == '4' {
        Ok(Chapter::Ridge(side))
    } else if d == '5' {
        Ok(Chapter::Temple(side))
    } else if d == '6' {
        Ok(Chapter::Reflection(side))
    } else if d == '7' {
        Ok(Chapter::Summit(side))
    } else if d == '8' {
        Ok(Chapter::Core(side))
    } else {
        Err(LevelsError::InvalidEncoding)
    }
}

impl Chapter {
    /// Decode the external string encoding, given as a character sequence.
    pub fn from_chars(chars: &Vec<char>) -> (r: Result<Chapter, LevelsError>)
        ensures
            r == spec_decode(chars@),
    {
        if char_seq_eq_str(chars, "Prologue") {
            return Ok(Chapter::Prologue);
        }
        if char_seq_eq_str(chars, "Epilogue") {
            return Ok(Chapter::Epilogue);
        }
        if char_seq_eq_str(chars, "Farewell") {
            return Ok(Chapter::Farewell);
        }
        if chars.len() != 2 {
            return Err(LevelsError::InvalidEncoding);
        }
        let side = match side_of_char(chars[1]) {
            Ok(s) => s,
            Err(e) => {
                return Err(e);
            }
        };
        sided_of_digit(chars[0], side)
    }

    /// Decode the external string encoding.
    pub fn from_string(s: &str) -> (r: Result<Chapter, LevelsError>)
        ensures
            r == spec_decode(s@),
    {
        let n = s.unicode_len();
        let mut v: Vec<char> = Vec::new();
        let mut i: usize = 0;
        while i < n
            invariant
                n == s@.len(),
                i <= n,
                v@ =~= s@.take(i as int),
            decreases n - i,
        {
            v.push(s.get_char(i));
            proof {
                assert(v@ =~= s@.take(i + 1));
            }
            i += 1;
        }
        proof {
            assert(v@ =~= s@);
        }
        Chapter::from_chars(&v)
    }
}

/// Law: decoding the external encoding of any chapter yields that chapter back.
pub proof fn lemma_encode_decode_round_trip(c: Chapter)
    ensures
        spec_decode(spec_encode(c)) == Ok::<Chapter, LevelsError>(c),
{
    reveal_strlit("Prologue");
    reveal_strlit("Epilogue");
    reveal_strlit("Farewell");
    reveal_strlit("1");
    reveal_strlit("2");
    reveal_strlit("3");
    reveal_strlit("4");
    reveal_strlit("5");
    reveal_strlit("6");
    reveal_strlit("7");
    reveal_strlit("8");
    reveal_strlit("A");
    reveal_strlit("B");
    reveal_strlit("C");
    let e = spec_encode(c);
    match c {
        Chapter::Prologue => {}
        Chapter::Epilogue => {
            assert(e != spec_long_name(Chapter::Prologue));
        }
        Chapter::Farewell => {
            assert(e != spec_long_name(Chapter::Prologue));
            assert(e != spec_long_name(Chapter::Epilogue));
        }
        _ => {
            assert(e.len() == 2);
            assert(e != spec_long_name(Chapter::Prologue));
            assert(e != spec_long_name(Chapter::Epilogue));
            assert(e != spec_long_name(Chapter::Farewell));
        }
    }
}

pub open spec fn spec_any_percent_route() -> Seq<Chapter> {
    seq![
        Chapter::Prologue,
        Chapter::City(Side::A),
        Chapter::Site(Side::A),
        Chapter::Resort(Side::A),
        Chapter::Ridge(Side::A),
        Chapter::Temple(Side::A),
        Chapter::Reflection(Side::A),
        Chapter::Summit(Side::A),
    ]
}

/// The default 8-segment route, in display and traversal order.
pub fn any_percent_route() -> (r: Vec<Chapter>)
    ensures
        r@ == spec_any_percent_route(),
{
    let mut v: Vec<Chapter> = Vec::new();
    v.push(Chapter::Prologue);
    v.push(Chapter::City(Side::A));
    v.push(Chapter::Site(Side::A));
    v.push(Chapter::Resort(Side::A));
    v.push(Chapter::Ridge(Side::A));
    v.push(Chapter::Temple(Side::A));
    v.push(Chapter::Reflection(Side::A));
    v.push(Chapter::Summit(Side::A));
    proof {
        assert(v@ =~= spec_any_percent_route());
    }
    v
}

} // verus!
