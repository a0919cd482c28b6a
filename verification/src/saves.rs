//! The save-state document: per-segment statistics and the streaming parser
//! that extracts them from the raw bytes of a save document.
//!
//! The parser reads the tag structure the save schema uses: start, end and
//! self-closing tags with quoted attributes. A self-closing tag counts as
//! entering and at once leaving its record; declarations and comments are
//! skipped to their first `>`; character data between tags is ignored.
use vstd::prelude::*;

use crate::chapter_map::ChapterMap;
use crate::levels::Chapter;
use crate::levels::Side;
use crate::levels::spec_chapter_from_index;
use crate::levels::spec_side_from_index;

verus! {

/// A duration held as a whole number of microseconds.
#[derive(Clone, Copy, PartialEq, Eq, Structural, Debug)]
pub struct Duration {
    pub micros: u64,
}

/// The recorded statistics of one segment: total time played and best time,
/// both derived from the save document's hundred-nanosecond tick counts.
#[derive(Clone, Copy, PartialEq, Eq, Structural, Debug)]
pub struct AreaModeStats {
    pub time_played: Duration,
    pub best_time: Duration,
}

/// A snapshot of the save document: statistics per completed segment.
pub type TimeMap = ChapterMap<AreaModeStats>;

pub open spec fn spec_stats_from_u64(time_played: u64, best_time: u64) -> AreaModeStats {
    AreaModeStats {
        time_played: Duration { micros: (time_played / 10) as u64 },
        best_time: Duration { micros: (best_time / 10) as u64 },
    }
}

impl AreaModeStats {
    /// Statistics from the raw tick counts: a tick is a tenth of a
    /// microsecond, so the raw values are divided by ten.
    pub fn from_u64(time_played: u64, best_time: u64) -> (r: AreaModeStats)
        ensures
            r == spec_stats_from_u64(time_played, best_time),
    {
        AreaModeStats {
            time_played: Duration { micros: time_played / 10 },
            best_time: Duration { micros: best_time / 10 },
        }
    }
}

/// Failures of the save-state parser.
#[derive(Clone, Copy, PartialEq, Eq, Structural, Debug)]
pub enum SaveError {
    /// The document's tag structure itself is broken.
    MalformedSave,
    /// A mode-record appeared before any area record gave a chapter index.
    MissingChapterContext,
    /// A required attribute is absent from its tag.
    MissingAttribute,
    /// A required attribute is not an unsigned integer in range.
    MalformedAttribute,
    /// A chapter or side index is outside its valid range.
    InvalidIndex,
}

pub open spec fn is_digit_byte(b: u8) -> bool {
    ('0' as u8) <= b && b <= ('9' as u8)
}

pub open spec fn all_digit_bytes(s: Seq<u8>) -> bool {
    forall|i: int| 0 <= i < s.len() ==> is_digit_byte(s[i])
}

/// The number written by a digit string, most significant digit first.
pub open spec fn digits_val(s: Seq<u8>) -> int
    decreases s.len(),
{
    if s.len() == 0 {
        0
    } else {
        digits_val(s.drop_last()) * 10 + (s.last() - ('0' as u8))
    }
}

/// What parsing an unsigned 64-bit integer from a byte string yields:
/// defined for a nonempty all-digit string whose value fits.
pub open spec fn spec_parse_u64_bytes(s: Seq<u8>) -> Option<u64> {
    if s.len() > 0 && all_digit_bytes(s) && digits_val(s) <= u64::MAX {
        Some(digits_val(s) as u64)
    } else {
        None
    }
}

/// What parsing an unsigned 8-bit integer from a byte string yields.
pub open spec fn spec_parse_u8_bytes(s: Seq<u8>) -> Option<u8> {
    if s.len() > 0 && all_digit_bytes(s) && digits_val(s) <= u8::MAX {
        Some(digits_val(s) as u8)
    } else {
        None
    }
}

proof fn lemma_digits_val_nonneg(s: Seq<u8>)
    requires
        all_digit_bytes(s),
    ensures
        digits_val(s) >= 0,
    decreases s.len(),
{
    if s.len() > 0 {
        assert(forall|i: int| 0 <= i < s.drop_last().len() ==> is_digit_byte(
            #[trigger] s.drop_last()[i],
        ));
        lemma_digits_val_nonneg(s.drop_last());
    }
}

fn parse_u64_bytes(s: &Vec<u8>) -> (r: Option<u64>)
    ensures
        r == spec_parse_u64_bytes(s@),
{
    let n = s.len();
    if n == 0 {
        return None;
    }
    let mut acc: u64 = 0;
    let mut overflow = false;
    let mut i: usize = 0;
    while i < n
        invariant
            0 < n == s@.len(),
            i <= n,
            all_digit_bytes(s@.take(i as int)),
            !overflow ==> acc == digits_val(s@.take(i as int)),
            overflow ==> digits_val(s@.take(i as int)) > u64::MAX,
        decreases n - i,
    {
        let b = s[i];
        proof {
            assert(s@.take(i + 1).drop_last() =~= s@.take(i as int));
            assert(s@.take(i + 1).last() == s@[i as int]);
        }
        if b < ('0' as u8) || b > ('9' as u8) {
            proof {
                assert(!is_digit_byte(s@[i as int]));
            }
            return None;
        }
        let d: u64 = (b - ('0' as u8)) as u64;
        proof {
            if !overflow {
                lemma_digits_val_nonneg(s@.take(i as int));
            } else {
                lemma_mul_overflow_stays(digits_val(s@.take(i as int)), d as int);
            }
            assert(digits_val(s@.take(i + 1)) == digits_val(s@.take(i as int)) * 10 + d);
        }
        if !overflow {
            if acc > (u64::MAX - d) / 10 {
                overflow = true;
                proof {
                    assert(acc * 10 + d > u64::MAX) by (nonlinear_arith)
                        requires
                            acc > (u64::MAX - d) / 10,
                            d <= 9,
                    ;
                }
            } else {
                proof {
                    assert(acc * 10 + d <= u64::MAX) by (nonlinear_arith)
                        requires
                            acc <= (u64::MAX - d) / 10,
                            d <= 9,
                    ;
                }
                acc = acc * 10 + d;
            }
        }
        i += 1;
    }
    proof {
        assert(s@.take(n as int) =~= s@);
    }
    if overflow {
        None
    } else {
        Some(acc)
    }
}

proof fn lemma_mul_overflow_stays(v: int, d: int)
    requires
        v > u64::MAX,
        d >= 0,
    ensures
        v * 10 + d > u64::MAX,
{
    assert(v * 10 > u64::MAX) by (nonlinear_arith)
        requires
            v > u64::MAX,
    ;
}

fn parse_u8_bytes(s: &Vec<u8>) -> (r: Option<u8>)
    ensures
        r == spec_parse_u8_bytes(s@),
{
    proof {
        if s@.len() > 0 && all_digit_bytes(s@) {
            lemma_digits_val_nonneg(s@);
        }
    }
    match parse_u64_bytes(s) {
        Some(x) => {
            if x <= 255 {
                Some(x as u8)
            } else {
                None
            }
        }
        None => None,
    }
}

pub open spec fn is_ws(b: u8) -> bool {
    b == (' ' as u8) || b == ('\t' as u8) || b == ('\n' as u8) || b == ('\r' as u8)
}

pub open spec fn is_name_byte(b: u8) -> bool {
    !is_ws(b) && b != ('<' as u8) && b != ('>' as u8) && b != ('/' as u8) && b != ('=' as u8) && b
        != ('"' as u8) && b != ('\'' as u8) && b != ('?' as u8) && b != ('!' as u8)
}

pub open spec fn areas_tag_name() -> Seq<u8> {
    seq!['A' as u8, 'r' as u8, 'e' as u8, 'a' as u8, 's' as u8]
}

pub open spec fn area_stats_tag_name() -> Seq<u8> {
    seq![
        'A' as u8,
        'r' as u8,
        'e' as u8,
        'a' as u8,
        'S' as u8,
        't' as u8,
        'a' as u8,
        't' as u8,
        's' as u8,
    ]
}

pub open spec fn area_mode_stats_tag_name() -> Seq<u8> {
    seq![
        'A' as u8,
        'r' as u8,
        'e' as u8,
        'a' as u8,
        'M' as u8,
        'o' as u8,
        'd' as u8,
        'e' as u8,
        'S' as u8,
        't' as u8,
        'a' as u8,
        't' as u8,
        's' as u8,
    ]
}

pub open spec fn id_attr_name() -> Seq<u8> {
    seq!['I' as u8, 'D' as u8]
}

pub open spec fn time_played_attr_name() -> Seq<u8> {
    seq![
        'T' as u8,
        'i' as u8,
        'm' as u8,
        'e' as u8,
        'P' as u8,
        'l' as u8,
        'a' as u8,
        'y' as u8,
        'e' as u8,
        'd' as u8,
    ]
}

pub open spec fn best_time_attr_name() -> Seq<u8> {
    seq!['B' as u8, 'e' as u8, 's' as u8, 't' as u8, 'T' as u8, 'i' as u8, 'm' as u8, 'e' as u8]
}

/// The first attribute value recorded under the given name, if any.
pub open spec fn spec_find_attr(attrs: Seq<(Seq<u8>, Seq<u8>)>, name: Seq<u8>) -> Option<Seq<u8>>
    decreases attrs.len(),
{
    if attrs.len() == 0 {
        None
    } else if attrs.first().0 == name {
        Some(attrs.first().1)
    } else {
        spec_find_attr(attrs.drop_first(), name)
    }
}

/// The lexer's position inside the document's tag structure.
#[derive(Clone, Copy, PartialEq, Eq, Structural, Debug)]
pub enum LexMode {
    /// Between tags; character data is ignored.
    Text,
    /// Just after `<`.
    TagOpen,
    /// Inside a declaration or comment; skipped to the next `>`.
    Special,
    /// Reading a tag name.
    Name,
    /// After an end tag's name, waiting for `>`.
    EndTail,
    /// Between attributes of a start tag.
    AttrSpace,
    /// Reading an attribute name.
    AttrName,
    /// After an attribute name, waiting for `=`.
    AttrAfterName,
    /// After `=`, waiting for the opening quote.
    AttrEq,
    /// Reading a quoted attribute value.
    AttrVal,
    /// After `/` in a start tag, waiting for `>`.
    SelfClose,
}

/// The full parser state: the lexer's fields plus the semantic walk over
/// area and mode records.
#[verifier::ext_equal]
pub ghost struct LexState {
    pub mode: LexMode,
    pub closing: bool,
    pub quote: u8,
    pub name: Seq<u8>,
    pub attr_name: Seq<u8>,
    pub attr_val: Seq<u8>,
    pub attrs: Seq<(Seq<u8>, Seq<u8>)>,
    pub in_areas: bool,
    pub chapter: Option<u8>,
    pub side: u8,
    pub entries: Map<Chapter, AreaModeStats>,
    pub error: Option<SaveError>,
}

pub open spec fn spec_init_state() -> LexState {
    LexState {
        mode: LexMode::Text,
        closing: false,
        quote: 0,
        name: Seq::empty(),
        attr_name: Seq::empty(),
        attr_val: Seq::empty(),
        attrs: Seq::empty(),
        in_areas: false,
        chapter: None,
        side: 0,
        entries: Map::empty(),
        error: None,
    }
}

/// The semantic effect of a completed start tag (or self-closing tag).
pub open spec fn spec_apply_start(st: LexState, self_closing: bool) -> LexState {
    if st.name == areas_tag_name() {
        LexState { in_areas: !self_closing, ..st }
    } else if st.in_areas && st.name == area_stats_tag_name() {
        let st1 = LexState { side: 0, ..st };
        match spec_find_attr(st.attrs, id_attr_name()) {
            None => LexState { error: Some(SaveError::MissingAttribute), ..st1 },
            Some(v) => match spec_parse_u8_bytes(v) {
                None => LexState { error: Some(SaveError::MalformedAttribute), ..st1 },
                Some(ci) => LexState { chapter: Some(ci), ..st1 },
            },
        }
    } else if st.in_areas && st.name == area_mode_stats_tag_name() {
        match st.chapter {
            None => LexState { error: Some(SaveError::MissingChapterContext), ..st },
            Some(ci) => match spec_side_from_index(st.side) {
                Err(_) => LexState { error: Some(SaveError::InvalidIndex), ..st },
                Ok(side) => match spec_chapter_from_index(ci, side) {
                    Err(_) => LexState { error: Some(SaveError::InvalidIndex), ..st },
                    Ok(ch) => {
                        let st1 = LexState { side: (st.side + 1) as u8, ..st };
                        match spec_find_attr(st.attrs, time_played_attr_name()) {
                            None => LexState { error: Some(SaveError::MissingAttribute), ..st1 },
                            Some(tpv) => match spec_parse_u64_bytes(tpv) {
                                None => LexState {
                                    error: Some(SaveError::MalformedAttribute),
                                    ..st1
                                },
                                Some(tp) => if tp == 0 {
                                    st1
                                } else {
                                    match spec_find_attr(st.attrs, best_time_attr_name()) {
                                        None => LexState {
                                            error: Some(SaveError::MissingAttribute),
                                            ..st1
                                        },
                                        Some(btv) => match spec_parse_u64_bytes(btv) {
                                            None => LexState {
                                                error: Some(SaveError::MalformedAttribute),
                                                ..st1
                                            },
                                            Some(bt) => LexState {
                                                entries: st1.entries.insert(
                                                    ch,
                                                    spec_stats_from_u64(tp, bt),
                                                ),
                                                ..st1
                                            },
                                        },
                                    }
                                },
                            },
                        }
                    },
                },
            },
        }
    } else {
        st
    }
}

/// The semantic effect of a completed end tag.
pub open spec fn spec_apply_end(st: LexState) -> LexState {
    if st.name == areas_tag_name() {
        LexState { in_areas: false, ..st }
    } else {
        st
    }
}

/// One byte of input advances the parser state.
pub open spec fn spec_step(st: LexState, b: u8) -> LexState {
    if st.error is Some {
        st
    } else {
        match st.mode {
            LexMode::Text => if b == ('<' as u8) {
                LexState { mode: LexMode::TagOpen, ..st }
            } else {
                st
            },
            LexMode::TagOpen => if b == ('/' as u8) {
                LexState { mode: LexMode::Name, closing: true, name: Seq::empty(), ..st }
            } else if b == ('?' as u8) || b == ('!' as u8) {
                LexState { mode: LexMode::Special, ..st }
            } else if is_name_byte(b) {
                LexState {
                    mode: LexMode::Name,
                    closing: false,
                    name: seq![b],
                    attrs: Seq::empty(),
                    ..st
                }
            } else {
                LexState { error: Some(SaveError::MalformedSave), ..st }
            },
            LexMode::Special => if b == ('>' as u8) {
                LexState { mode: LexMode::Text, ..st }
            } else {
                st
            },
            LexMode::Name => if is_name_byte(b) {
                LexState { name: st.name.push(b), ..st }
            } else if b == ('>' as u8) {
                if st.closing {
                    LexState { mode: LexMode::Text, ..spec_apply_end(st) }
                } else {
                    LexState { mode: LexMode::Text, ..spec_apply_start(st, false) }
                }
            } else if is_ws(b) {
                if st.closing {
                    LexState { mode: LexMode::EndTail, ..st }
                } else {
                    LexState { mode: LexMode::AttrSpace, ..st }
                }
            } else if b == ('/' as u8) && !st.closing {
                LexState { mode: LexMode::SelfClose, ..st }
            } else {
                LexState { error: Some(SaveError::MalformedSave), ..st }
            },
            LexMode::EndTail => if b == ('>' as u8) {
                LexState { mode: LexMode::Text, ..spec_apply_end(st) }
            } else if is_ws(b) {
                st
            } else {
                LexState { error: Some(SaveError::MalformedSave), ..st }
            },
            LexMode::AttrSpace => if is_ws(b) {
                st
            } else if b == ('>' as u8) {
                LexState { mode: LexMode::Text, ..spec_apply_start(st, false) }
            } else if b == ('/' as u8) {
                LexState { mode: LexMode::SelfClose, ..st }
            } else if is_name_byte(b) {
                LexState { mode: LexMode::AttrName, attr_name: seq![b], ..st }
            } else {
                LexState { error: Some(SaveError::MalformedSave), ..st }
            },
            LexMode::AttrName => if is_name_byte(b) {
                LexState { attr_name: st.attr_name.push(b), ..st }
            } else if b == ('=' as u8) {
                LexState { mode: LexMode::AttrEq, ..st }
            } else if is_ws(b) {
                LexState { mode: LexMode::AttrAfterName, ..st }
            } else {
                LexState { error: Some(SaveError::MalformedSave), ..st }
            },
            LexMode::AttrAfterName => if is_ws(b) {
                st
            } else if b == ('=' as u8) {
                LexState { mode: LexMode::AttrEq, ..st }
            } else {
                LexState { error: Some(SaveError::MalformedSave), ..st }
            },
            LexMode::AttrEq => if is_ws(b) {
                st
            } else if b == ('"' as u8) || b == ('\'' as u8) {
                LexState { mode: LexMode::AttrVal, quote: b, attr_val: Seq::empty(), ..st }
            } else {
                LexState { error: Some(SaveError::MalformedSave), ..st }
            },
            LexMode::AttrVal => if b == st.quote {
                LexState {
                    mode: LexMode::AttrSpace,
                    attrs: st.attrs.push((st.attr_name, st.attr_val)),
                    attr_name: Seq::empty(),
                    attr_val: Seq::empty(),
                    ..st
                }
            } else {
                LexState { attr_val: st.attr_val.push(b), ..st }
            },
            LexMode::SelfClose => if b == ('>' as u8) {
                LexState { mode: LexMode::Text, ..spec_apply_start(st, true) }
            } else {
                LexState { error: Some(SaveError::MalformedSave), ..st }
            },
        }
    }
}

/// The parser state after the first `n` bytes of the document.
pub open spec fn spec_scan(doc: Seq<u8>, n: int) -> LexState
    decreases n,
{
    if n <= 0 {
        spec_init_state()
    } else {
        spec_step(spec_scan(doc, n - 1), doc[n - 1])
    }
}

/// What parsing a whole save document yields: the mapping from completed
/// segments to their statistics, or the first error the walk hits.
pub open spec fn spec_parse_save(doc: Seq<u8>) -> Result<Map<Chapter, AreaModeStats>, SaveError> {
    let fin = spec_scan(doc, doc.len() as int);
    match fin.error {
        Some(e) => Err(e),
        None => if fin.mode != LexMode::Text {
            Err(SaveError::MalformedSave)
        } else {
            Ok(fin.entries)
        },
    }
}

fn is_ws_exec(b: u8) -> (r: bool)
    ensures
        r == is_ws(b),
{
    b == (' ' as u8) || b == ('\t' as u8) || b == ('\n' as u8) || b == ('\r' as u8)
}

fn is_name_byte_exec(b: u8) -> (r: bool)
    ensures
        r == is_name_byte(b),
{
    !(is_ws_exec(b) || b == ('<' as u8) || b == ('>' as u8) || b == ('/' as u8) || b == ('='
        as u8) || b == ('"' as u8) || b == ('\'' as u8) || b == ('?' as u8) || b == ('!' as u8))
}

fn bytes_eq(a: &Vec<u8>, b: &Vec<u8>) -> (r: bool)
    ensures
        r == (a@ == b@),
{
    let n = a.len();
    if n != b.len() {
        return false;
    }
    let mut i: usize = 0;
    while i < n
        invariant
            n == a@.len() == b@.len(),
            i <= n,
            forall|j: int| 0 <= j < i ==> a@[j] == b@[j],
        decreases n - i,
    {
        if a[i] != b[i] {
            return false;
        }
        i += 1;
    }
    proof {
        assert(a@ =~= b@);
    }
    true
}

fn tag_areas() -> (r: Vec<u8>)
    ensures
        r@ == areas_tag_name(),
{
    let mut v: Vec<u8> = Vec::new();
    v.push('A' as u8);
    v.push('r' as u8);
    v.push('e' as u8);
    v.push('a' as u8);
    v.push('s' as u8);
    proof {
        assert(v@ =~= areas_tag_name());
    }
    v
}

fn tag_area_stats() -> (r: Vec<u8>)
    ensures
        r@ == area_stats_tag_name(),
{
    let mut v = tag_areas();
    v.pop();
    v.push('S' as u8);
    v.push('t' as u8);
    v.push('a' as u8);
    v.push('t' as u8);
    v.push('s' as u8);
    proof {
        assert(v@ =~= area_stats_tag_name());
    }
    v
}

fn tag_area_mode_stats() -> (r: Vec<u8>)
    ensures
        r@ == area_mode_stats_tag_name(),
{
    let mut v = tag_areas();
    v.pop();
    v.push('M' as u8);
    v.push('o' as u8);
    v.push('d' as u8);
    v.push('e' as u8);
    v.push('S' as u8);
    v.push('t' as u8);
    v.push('a' as u8);
    v.push('t' as u8);
    v.push('s' as u8);
    proof {
        assert(v@ =~= area_mode_stats_tag_name());
    }
    v
}

fn attr_id() -> (r: Vec<u8>)
    ensures
        r@ == id_attr_name(),
{
    let mut v: Vec<u8> = Vec::new();
    v.push('I' as u8);
    v.push('D' as u8);
    proof {
        assert(v@ =~= id_attr_name());
    }
    v
}

fn attr_time_played() -> (r: Vec<u8>)
    ensures
        r@ == time_played_attr_name(),
{
    let mut v: Vec<u8> = Vec::new();
    v.push('T' as u8);
    v.push('i' as u8);
    v.push('m' as u8);
    v.push('e' as u8);
    v.push('P' as u8);
    v.push('l' as u8);
    v.push('a' as u8);
    v.push('y' as u8);
    v.push('e' as u8);
    v.push('d' as u8);
    proof {
        assert(v@ =~= time_played_attr_name());
    }
    v
}

fn attr_best_time() -> (r: Vec<u8>)
    ensures
        r@ == best_time_attr_name(),
{
    let mut v: Vec<u8> = Vec::new();
    v.push('B' as u8);
    v.push('e' as u8);
    v.push('s' as u8);
    v.push('t' as u8);
    v.push('T' as u8);
    v.push('i' as u8);
    v.push('m' as u8);
    v.push('e' as u8);
    proof {
        assert(v@ =~= best_time_attr_name());
    }
    v
}

/// The collected attributes as pairs of byte strings.
pub open spec fn attrs_view(s: Seq<(Vec<u8>, Vec<u8>)>) -> Seq<(Seq<u8>, Seq<u8>)> {
    s.map_values(|p: (Vec<u8>, Vec<u8>)| (p.0@, p.1@))
}

proof fn lemma_find_attr_at(attrs: Seq<(Seq<u8>, Seq<u8>)>, name: Seq<u8>, i: int)
    requires
        0 <= i < attrs.len(),
        attrs[i].0 == name,
        forall|j: int| 0 <= j < i ==> attrs[j].0 != name,
    ensures
        spec_find_attr(attrs, name) == Some(attrs[i].1),
    decreases i,
{
    if i == 0 {
    } else {
        assert(attrs[0].0 != name);
        assert forall|j: int| 0 <= j < i - 1 implies attrs.drop_first()[j].0 != name by {
            assert(attrs.drop_first()[j] == attrs[j + 1]);
        }
        assert(attrs.drop_first()[i - 1] == attrs[i]);
        lemma_find_attr_at(attrs.drop_first(), name, i - 1);
    }
}

proof fn lemma_find_attr_none(attrs: Seq<(Seq<u8>, Seq<u8>)>, name: Seq<u8>)
    requires
        forall|j: int| 0 <= j < attrs.len() ==> attrs[j].0 != name,
    ensures
        spec_find_attr(attrs, name) is None,
    decreases attrs.len(),
{
    if attrs.len() > 0 {
        assert forall|j: int| 0 <= j < attrs.drop_first().len() implies attrs.drop_first()[j].0
            != name by {
            assert(attrs.drop_first()[j] == attrs[j + 1]);
        }
        lemma_find_attr_none(attrs.drop_first(), name);
    }
}

fn find_attr<'a>(attrs: &'a Vec<(Vec<u8>, Vec<u8>)>, name: &Vec<u8>) -> (r: Option<&'a Vec<u8>>)
    ensures
        match r {
            Some(v) => spec_find_attr(attrs_view(attrs@), name@) == Some(v@),
            None => spec_find_attr(attrs_view(attrs@), name@) is None,
        },
{
    let n = attrs.len();
    let mut i: usize = 0;
    while i < n
        invariant
            n == attrs@.len(),
            i <= n,
            forall|j: int| 0 <= j < i ==> attrs_view(attrs@)[j].0 != name@,
        decreases n - i,
    {
        if bytes_eq(&attrs[i].0, name) {
            proof {
                lemma_find_attr_at(attrs_view(attrs@), name@, i as int);
            }
            return Some(&attrs[i].1);
        }
        proof {
            assert(attrs_view(attrs@)[i as int].0 == attrs@[i as int].0@);
        }
        i += 1;
    }
    proof {
        lemma_find_attr_none(attrs_view(attrs@), name@);
    }
    None
}

/// The streaming save-document parser, one byte at a time.
struct SaveParser {
    mode: LexMode,
    closing: bool,
    quote: u8,
    name: Vec<u8>,
    attr_name: Vec<u8>,
    attr_val: Vec<u8>,
    attrs: Vec<(Vec<u8>, Vec<u8>)>,
    in_areas: bool,
    chapter: Option<u8>,
    side: u8,
    entries: TimeMap,
    error: Option<SaveError>,
}

impl View for SaveParser {
    type V = LexState;

    closed spec fn view(&self) -> LexState {
        LexState {
            mode: self.mode,
            closing: self.closing,
            quote: self.quote,
            name: self.name@,
            attr_name: self.attr_name@,
            attr_val: self.attr_val@,
            attrs: attrs_view(self.attrs@),
            in_areas: self.in_areas,
            chapter: self.chapter,
            side: self.side,
            entries: self.entries@,
            error: self.error,
        }
    }
}

impl SaveParser {
    fn new() -> (r: SaveParser)
        ensures
            r@ == spec_init_state(),
    {
        let r = SaveParser {
            mode: LexMode::Text,
            closing: false,
            quote: 0,
            name: Vec::new(),
            attr_name: Vec::new(),
            attr_val: Vec::new(),
            attrs: Vec::new(),
            in_areas: false,
            chapter: None,
            side: 0,
            entries: ChapterMap::new(),
            error: None,
        };
        proof {
            assert(r@ =~= spec_init_state());
        }
        r
    }

    fn apply_start(&mut self, self_closing: bool)
        requires
            old(self)@.error is None,
        ensures
            final(self)@ == spec_apply_start(old(self)@, self_closing),
    {
        let t_areas = tag_areas();
        if bytes_eq(&self.name, &t_areas) {
            self.in_areas = !self_closing;
            proof {
                assert(self@ =~= spec_apply_start(old(self)@, self_closing));
            }
            return ;
        }
        let t_as = tag_area_stats();
        if self.in_areas && bytes_eq(&self.name, &t_as) {
            self.side = 0;
            let a_id = attr_id();
            match find_attr(&self.attrs, &a_id) {
                None => {
                    self.error = Some(SaveError::MissingAttribute);
                }
                Some(v) => {
                    match parse_u8_bytes(v) {
                        None => {
                            self.error = Some(SaveError::MalformedAttribute);
                        }
                        Some(ci) => {
                            self.chapter = Some(ci);
                        }
                    }
                }
            }
            proof {
                assert(self@ =~= spec_apply_start(old(self)@, self_closing));
            }
            return ;
        }
        let t_ams = tag_area_mode_stats();
        if self.in_areas && bytes_eq(&self.name, &t_ams) {
            let ci = match self.chapter {
                None => {
                    self.error = Some(SaveError::MissingChapterContext);
                    proof {
                        assert(self@ =~= spec_apply_start(old(self)@, self_closing));
                    }
                    return ;
                }
                Some(ci) => ci,
            };
            let side = match Side::from_index(self.side) {
                Err(_) => {
                    self.error = Some(SaveError::InvalidIndex);
                    proof {
                        assert(self@ =~= spec_apply_start(old(self)@, self_closing));
                    }
                    return ;
                }
                Ok(s) => s,
            };
            let ch = match Chapter::from_index(ci, side) {
                Err(_) => {
                    self.error = Some(SaveError::InvalidIndex);
                    proof {
                        assert(self@ =~= spec_apply_start(old(self)@, self_closing));
                    }
                    return ;
                }
                Ok(c) => c,
            };
            self.side = self.side + 1;
            let a_tp = attr_time_played();
            let tp = match find_attr(&self.attrs, &a_tp) {
                None => {
                    self.error = Some(SaveError::MissingAttribute);
                    proof {
                        assert(self@ =~= spec_apply_start(old(self)@, self_closing));
                    }
                    return ;
                }
                Some(v) => {
                    match parse_u64_bytes(v) {
                        None => {
                            self.error = Some(SaveError::MalformedAttribute);
                            proof {
                                assert(self@ =~= spec_apply_start(old(self)@, self_closing));
                            }
                            return ;
                        }
                        Some(tp) => tp,
                    }
                }
            };
            if tp == 0 {
                proof {
                    assert(self@ =~= spec_apply_start(old(self)@, self_closing));
                }
                return ;
            }
            let a_bt = attr_best_time();
            let bt = match find_attr(&self.attrs, &a_bt) {
                None => {
                    self.error = Some(SaveError::MissingAttribute);
                    proof {
                        assert(self@ =~= spec_apply_start(old(self)@, self_closing));
                    }
                    return ;
                }
                Some(v) => {
                    match parse_u64_bytes(v) {
                        None => {
                            self.error = Some(SaveError::MalformedAttribute);
                            proof {
                                assert(self@ =~= spec_apply_start(old(self)@, self_closing));
                            }
                            return ;
                        }
                        Some(bt) => bt,
                    }
                }
            };
            self.entries.insert(ch, AreaModeStats::from_u64(tp, bt));
            proof {
                assert(self@ =~= spec_apply_start(old(self)@, self_closing));
            }
            return ;
        }
        proof {
            assert(self@ =~= spec_apply_start(old(self)@, self_closing));
        }
    }

    fn apply_end(&mut self)
        requires
            old(self)@.error is None,
        ensures
            final(self)@ == spec_apply_end(old(self)@),
    {
        let t_areas = tag_areas();
        if bytes_eq(&self.name, &t_areas) {
            self.in_areas = false;
        }
        proof {
            assert(self@ =~= spec_apply_end(old(self)@));
        }
    }

    fn step(&mut self, b: u8)
        ensures
            final(self)@ == spec_step(old(self)@, b),
    {
        if self.error.is_some() {
            return ;
        }
        match self.mode {
            LexMode::Text => {
                if b == ('<' as u8) {
                    self.mode = LexMode::TagOpen;
                }
            }
            LexMode::TagOpen => {
                if b == ('/' as u8) {
                    self.closing = true;
                    self.name.clear();
                    self.mode = LexMode::Name;
                } else if b == ('?' as u8) || b == ('!' as u8) {
                    self.mode = LexMode::Special;
                } else if is_name_byte_exec(b) {
                    self.closing = false;
                    self.name.clear();
                    self.name.push(b);
                    self.attrs.clear();
                    self.mode = LexMode::Name;
                } else {
                    self.error = Some(SaveError::MalformedSave);
                }
            }
            LexMode::Special => {
                if b == ('>' as u8) {
                    self.mode = LexMode::Text;
                }
            }
            LexMode::Name => {
                if is_name_byte_exec(b) {
                    self.name.push(b);
                } else if b == ('>' as u8) {
                    if self.closing {
                        self.apply_end();
                    } else {
                        self.apply_start(false);
                    }
                    self.mode = LexMode::Text;
                } else if is_ws_exec(b) {
                    if self.closing {
                        self.mode = LexMode::EndTail;
                    } else {
                        self.mode = LexMode::AttrSpace;
                    }
                } else if b == ('/' as u8) && !self.closing {
                    self.mode = LexMode::SelfClose;
                } else {
                    self.error = Some(SaveError::MalformedSave);
                }
            }
            LexMode::EndTail => {
                if b == ('>' as u8) {
                    self.apply_end();
                    self.mode = LexMode::Text;
                } else if is_ws_exec(b) {
                } else {
                    self.error = Some(SaveError::MalformedSave);
                }
            }
            LexMode::AttrSpace => {
                if is_ws_exec(b) {
                } else if b == ('>' as u8) {
                    self.apply_start(false);
                    self.mode = LexMode::Text;
                } else if b == ('/' as u8) {
                    self.mode = LexMode::SelfClose;
                } else if is_name_byte_exec(b) {
                    self.attr_name.clear();
                    self.attr_name.push(b);
                    self.mode = LexMode::AttrName;
                } else {
                    self.error = Some(SaveError::MalformedSave);
                }
            }
            LexMode::AttrName => {
                if is_name_byte_exec(b) {
                    self.attr_name.push(b);
                } else if b == ('=' as u8) {
                    self.mode = LexMode::AttrEq;
                } else if is_ws_exec(b) {
                    self.mode = LexMode::AttrAfterName;
                } else {
                    self.error = Some(SaveError::MalformedSave);
                }
            }
            LexMode::AttrAfterName => {
                if is_ws_exec(b) {
                } else if b == ('=' as u8) {
                    self.mode = LexMode::AttrEq;
                } else {
                    self.error = Some(SaveError::MalformedSave);
                }
            }
            LexMode::AttrEq => {
                if is_ws_exec(b) {
                } else if b == ('"' as u8) || b == ('\'' as u8) {
                    self.quote = b;
                    self.attr_val.clear();
                    self.mode = LexMode::AttrVal;
                } else {
                    self.error = Some(SaveError::MalformedSave);
                }
            }
            LexMode::AttrVal => {
                if b == self.quote {
                    let mut an: Vec<u8> = Vec::new();
                    let mut av: Vec<u8> = Vec::new();
                    core::mem::swap(&mut an, &mut self.attr_name);
                    core::mem::swap(&mut av, &mut self.attr_val);
                    self.attrs.push((an, av));
                    self.mode = LexMode::AttrSpace;
                } else {
                    self.attr_val.push(b);
                }
            }
            LexMode::SelfClose => {
                if b == ('>' as u8) {
                    self.apply_start(true);
                    self.mode = LexMode::Text;
                } else {
                    self.error = Some(SaveError::MalformedSave);
                }
            }
        }
        proof {
            assert(self@ =~= spec_step(old(self)@, b));
        }
    }
}

/// Parse a whole save document given as raw bytes.
pub fn parse_save(doc: &Vec<u8>) -> (r: Result<TimeMap, SaveError>)
    ensures
        match r {
            Ok(m) => spec_parse_save(doc@) == Ok::<Map<Chapter, AreaModeStats>, SaveError>(m@),
            Err(e) => spec_parse_save(doc@) == Err::<Map<Chapter, AreaModeStats>, SaveError>(e),
        },
{
    let mut p = SaveParser::new();
    let n = doc.len();
    let mut i: usize = 0;
    while i < n
        invariant
            n == doc@.len(),
            i <= n,
            p@ == spec_scan(doc@, i as int),
        decreases n - i,
    {
        p.step(doc[i]);
        i += 1;
    }
    match p.error {
        Some(e) => Err(e),
        None => {
            if p.mode != LexMode::Text {
                Err(SaveError::MalformedSave)
            } else {
                Ok(p.entries)
            }
        }
    }
}

/// Law: the parser is a pure function of the document bytes; equal
/// documents always parse to equal results.
pub proof fn lemma_parse_deterministic(d1: Seq<u8>, d2: Seq<u8>)
    requires
        d1 == d2,
    ensures
        spec_parse_save(d1) == spec_parse_save(d2),
{
}

/// Law: a mode-record whose TimePlayed attribute parses to zero never adds
/// an entry, whatever the rest of the record holds.
pub proof fn lemma_zero_time_omitted(st: LexState, self_closing: bool)
    requires
        spec_find_attr(st.attrs, time_played_attr_name()) matches Some(v) && spec_parse_u64_bytes(
            v,
        ) == Some(0u64),
    ensures
        spec_apply_start(st, self_closing).entries == st.entries,
{
}

} // verus!
