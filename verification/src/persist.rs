//! Persistence of the personal-best and best-splits records: a flat document
//! keyed by the external segment encoding, each value the duration's
//! microsecond count, and the independent loading of the two records.
use vstd::prelude::*;

use crate::chapter_map::ChapterMap;
use crate::chapter_map::map_of;
use crate::levels::Chapter;
use crate::levels::spec_decode;
use crate::levels::spec_encode;
use crate::saves::Duration;
use crate::saves::TimeMap;
use crate::table::digits_string;
use crate::table::spec_digits;
use crate::timer::SessionState;
use crate::timer::SplitMap;

verus! {

/// Failures when decoding a record document.
#[derive(Clone, Copy, PartialEq, Eq, Structural, Debug)]
pub enum RecordError {
    /// The document's structure is broken.
    MalformedRecord,
    /// A key is not a segment encoding.
    InvalidKey,
    /// A value is not an unsigned 64-bit integer.
    InvalidValue,
}

pub open spec fn is_digit_char(c: char) -> bool {
    48 <= (c as u32) && (c as u32) <= 57
}

pub open spec fn all_digit_chars(s: Seq<char>) -> bool {
    forall|i: int| 0 <= i < s.len() ==> is_digit_char(s[i])
}

/// The number written by a digit string, most significant digit first.
pub open spec fn digits_val_chars(s: Seq<char>) -> int
    decreases s.len(),
{
    if s.len() == 0 {
        0
    } else {
        digits_val_chars(s.drop_last()) * 10 + (s.last() as u32 - 48)
    }
}

/// What parsing an unsigned 64-bit integer from a character string yields.
pub open spec fn spec_parse_u64_chars(s: Seq<char>) -> Option<u64> {
    if s.len() > 0 && all_digit_chars(s) && digits_val_chars(s) <= u64::MAX {
        Some(digits_val_chars(s) as u64)
    } else {
        None
    }
}

proof fn lemma_digits_val_chars_nonneg(s: Seq<char>)
    requires
        all_digit_chars(s),
    ensures
        digits_val_chars(s) >= 0,
    decreases s.len(),
{
    if s.len() > 0 {
        assert(forall|i: int| 0 <= i < s.drop_last().len() ==> is_digit_char(
            #[trigger] s.drop_last()[i],
        ));
        lemma_digits_val_chars_nonneg(s.drop_last());
    }
}

fn parse_u64_chars(s: &Vec<char>) -> (r: Option<u64>)
    ensures
        r == spec_parse_u64_chars(s@),
{
    let n = s.len();
    if n == 0 {
        return None;
    }
    let mut acc: u64 = 0;
    let mut overflow = false;
    let mut i: usize = 0;
    while i < n
        invariant
            0 < n == s@.len(),
            i <= n,
            all_digit_chars(s@.take(i as int)),
            !overflow ==> acc == digits_val_chars(s@.take(i as int)),
            overflow ==> digits_val_chars(s@.take(i as int)) > u64::MAX,
        decreases n - i,
    {
        let x: u32 = s[i] as u32;
        proof {
            assert(s@.take(i + 1).drop_last() =~= s@.take(i as int));
            assert(s@.take(i + 1).last() == s@[i as int]);
        }
        if x < 48 || x > 57 {
            proof {
                assert(!is_digit_char(s@[i as int]));
            }
            return None;
        }
        let d: u64 = (x - 48) as u64;
        proof {
            if !overflow {
                lemma_digits_val_chars_nonneg(s@.take(i as int));
            } else {
                assert(digits_val_chars(s@.take(i as int)) * 10 > u64::MAX) by (nonlinear_arith)
                    requires
                        digits_val_chars(s@.take(i as int)) > u64::MAX,
                ;
            }
            assert(digits_val_chars(s@.take(i + 1)) == digits_val_chars(s@.take(i as int)) * 10
                + d);
        }
        if !overflow {
            if acc > (u64::MAX - d) / 10 {
                overflow = true;
                proof {
                    assert(acc * 10 + d > u64::MAX) by (nonlinear_arith)
                        requires
                            acc > (u64::MAX - d) / 10,
                            d <= 9,
                    ;
                }
            } else {
                proof {
                    assert(acc * 10 + d <= u64::MAX) by (nonlinear_arith)
                        requires
                            acc <= (u64::MAX - d) / 10,
                            d <= 9,
                    ;
                }
                acc = acc * 10 + d;
            }
        }
        i += 1;
    }
    proof {
        assert(s@.take(n as int) =~= s@);
    }
    if overflow {
        None
    } else {
        Some(acc)
    }
}

/// One record entry as document text: the quoted segment encoding, a colon,
/// and the duration's microsecond count.
pub open spec fn spec_pair_text(c: Chapter, d: Duration) -> Seq<char> {
    seq!['"'] + spec_encode(c) + seq!['"', ':'] + spec_digits(d.micros as int)
}

/// The entries of a record document, comma-separated, in storage order.
pub open spec fn spec_record_body(pairs: Seq<(Chapter, Duration)>) -> Seq<char>
    decreases pairs.len(),
{
    if pairs.len() == 0 {
        Seq::empty()
    } else if pairs.len() == 1 {
        spec_pair_text(pairs[0].0, pairs[0].1)
    } else {
        spec_record_body(pairs.drop_last()) + seq![','] + spec_pair_text(
            pairs.last().0,
            pairs.last().1,
        )
    }
}

/// A whole record document.
pub open spec fn spec_encode_record(pairs: Seq<(Chapter, Duration)>) -> Seq<char> {
    seq!['{'] + spec_record_body(pairs) + seq!['}']
}

/// Write a record as a document.
pub fn encode_record(m: &SplitMap) -> (r: String)
    ensures
        r@ == spec_encode_record(m.pairs()),
{
    proof {
        reveal_strlit("{");
        reveal_strlit("}");
    }
    let n = m.pair_count();
    let mut s = String::from_str("{");
    let mut i: usize = 0;
    while i < n
        invariant
            n == m.pairs().len(),
            i <= n,
            s@ == seq!['{'] + spec_record_body(m.pairs().take(i as int)),
        decreases n - i,
    {
        if i > 0 {
            s.append(",");
        }
        s.append("\"");
        let p = m.pair_at(i);
        let name = p.0.to_string();
        s.append(name.as_str());
        s.append("\":");
        let digits = digits_string(p.1.micros as u128);
        s.append(digits.as_str());
        proof {
            reveal_strlit(",");
            reveal_strlit("\"");
            reveal_strlit("\":");
            assert(m.pairs().take(i + 1).drop_last() =~= m.pairs().take(i as int));
            assert(m.pairs().take(i + 1).last() == m.pairs()[i as int]);
            assert(s@ =~= seq!['{'] + spec_record_body(m.pairs().take(i + 1)));
        }
        i += 1;
    }
    proof {
        assert(m.pairs().take(n as int) =~= m.pairs());
    }
    s.append("}");
    proof {
        assert(s@ =~= spec_encode_record(m.pairs()));
    }
    s
}

pub open spec fn is_ws_char(c: char) -> bool {
    c == ' ' || c == '\t' || c == '\n' || c == '\r'
}

/// The decoder's position inside the record document.
#[derive(Clone, Copy, PartialEq, Eq, Structural, Debug)]
pub enum RecMode {
    /// Before the opening brace.
    Pre,
    /// After the opening brace: a key or the closing brace.
    ItemOrEnd,
    /// Inside a quoted key.
    Key,
    /// After a key, waiting for the colon.
    PostKey,
    /// After the colon, waiting for the first digit.
    PreVal,
    /// Inside a value's digits.
    Val,
    /// After a value, waiting for a comma or the closing brace.
    PostVal,
    /// After a comma, waiting for the next key.
    NextKey,
    /// After the closing brace: only whitespace may follow.
    End,
}

/// The record decoder's full state.
#[verifier::ext_equal]
pub ghost struct RecState {
    pub mode: RecMode,
    pub key: Seq<char>,
    pub val: Seq<char>,
    pub entries: Map<Chapter, Duration>,
    pub error: Option<RecordError>,
}

pub open spec fn spec_rec_init() -> RecState {
    RecState {
        mode: RecMode::Pre,
        key: Seq::empty(),
        val: Seq::empty(),
        entries: Map::empty(),
        error: None,
    }
}

/// The semantic effect of a completed key/value pair.
pub open spec fn spec_rec_finish_pair(st: RecState) -> RecState {
    match spec_decode(st.key) {
        Err(_) => RecState { error: Some(RecordError::InvalidKey), ..st },
        Ok(c) => match spec_parse_u64_chars(st.val) {
            None => RecState { error: Some(RecordError::InvalidValue), ..st },
            Some(v) => RecState { entries: st.entries.insert(c, Duration { micros: v }), ..st },
        },
    }
}

/// One character of input advances the record decoder.
pub open spec fn spec_rec_step(st: RecState, c: char) -> RecState {
    if st.error is Some {
        st
    } else {
        match st.mode {
            RecMode::Pre => if is_ws_char(c) {
                st
            } else if c == '{' {
                RecState { mode: RecMode::ItemOrEnd, ..st }
            } else {
                RecState { error: Some(RecordError::MalformedRecord), ..st }
            },
            RecMode::ItemOrEnd => if is_ws_char(c) {
                st
            } else if c == '"' {
                RecState { mode: RecMode::Key, key: Seq::empty(), ..st }
            } else if c == '}' {
                RecState { mode: RecMode::End, ..st }
            } else {
                RecState { error: Some(RecordError::MalformedRecord), ..st }
            },
            RecMode::Key => if c == '"' {
                RecState { mode: RecMode::PostKey, ..st }
            } else {
                RecState { key: st.key.push(c), ..st }
            },
            RecMode::PostKey => if is_ws_char(c) {
                st
            } else if c == ':' {
                RecState { mode: RecMode::PreVal, ..st }
            } else {
                RecState { error: Some(RecordError::MalformedRecord), ..st }
            },
            RecMode::PreVal => if is_ws_char(c) {
                st
            } else if is_digit_char(c) {
                RecState { mode: RecMode::Val, val: seq![c], ..st }
            } else {
                RecState { error: Some(RecordError::MalformedRecord), ..st }
            },
            RecMode::Val => if is_digit_char(c) {
                RecState { val: st.val.push(c), ..st }
            } else {
                let done = spec_rec_finish_pair(st);
                if is_ws_char(c) {
                    RecState { mode: RecMode::PostVal, ..done }
                } else if c == ',' {
                    RecState { mode: RecMode::NextKey, ..done }
                } else if c == '}' {
                    RecState { mode: RecMode::End, ..done }
                } else {
                    RecState { error: Some(RecordError::MalformedRecord), ..done }
                }
            },
            RecMode::PostVal => if is_ws_char(c) {
                st
            } else if c == ',' {
                RecState { mode: RecMode::NextKey, ..st }
            } else if c == '}' {
                RecState { mode: RecMode::End, ..st }
            } else {
                RecState { error: Some(RecordError::MalformedRecord), ..st }
            },
            RecMode::NextKey => if is_ws_char(c) {
                st
            } else if c == '"' {
                RecState { mode: RecMode::Key, key: Seq::empty(), ..st }
            } else {
                RecState { error: Some(RecordError::MalformedRecord), ..st }
            },
            RecMode::End => if is_ws_char(c) {
                st
            } else {
                RecState { error: Some(RecordError::MalformedRecord), ..st }
            },
        }
    }
}

/// The decoder state after the first `n` characters of the document.
pub open spec fn spec_rec_scan(doc: Seq<char>, n: int) -> RecState
    decreases n,
{
    if n <= 0 {
        spec_rec_init()
    } else {
        spec_rec_step(spec_rec_scan(doc, n - 1), doc[n - 1])
    }
}

/// What decoding a record document yields.
pub open spec fn spec_decode_record(doc: Seq<char>) -> Result<Map<Chapter, Duration>, RecordError> {
    let fin = spec_rec_scan(doc, doc.len() as int);
    match fin.error {
        Some(e) => Err(e),
        None => if fin.mode != RecMode::End {
            Err(RecordError::MalformedRecord)
        } else {
            Ok(fin.entries)
        },
    }
}

struct RecordParser {
    mode: RecMode,
    key: Vec<char>,
    val: Vec<char>,
    entries: SplitMap,
    error: Option<RecordError>,
}

impl View for RecordParser {
    type V = RecState;

    closed spec fn view(&self) -> RecState {
        RecState {
            mode: self.mode,
            key: self.key@,
            val: self.val@,
            entries: self.entries@,
            error: self.error,
        }
    }
}

fn is_ws_char_exec(c: char) -> (r: bool)
    ensures
        r == is_ws_char(c),
{
    c == ' ' || c == '\t' || c == '\n' || c == '\r'
}

fn is_digit_char_exec(c: char) -> (r: bool)
    ensures
        r == is_digit_char(c),
{
    let x = c as u32;
    48 <= x && x <= 57
}

impl RecordParser {
    fn new() -> (r: RecordParser)
        ensures
            r@ == spec_rec_init(),
    {
        let r = RecordParser {
            mode: RecMode::Pre,
            key: Vec::new(),
            val: Vec::new(),
            entries: ChapterMap::new(),
            error: None,
        };
        proof {
            assert(r@ =~= spec_rec_init());
        }
        r
    }

    fn finish_pair(&mut self)
        requires
            old(self)@.error is None,
        ensures
            final (self)@ == spec_rec_finish_pair(old(self)@),
    {
        let c = match Chapter::from_chars(&self.key) {
            Err(_) => {
                self.error = Some(RecordError::InvalidKey);
                proof {
                    assert(self@ =~= spec_rec_finish_pair(old(self)@));
                }
                return ;
            }
            Ok(c) => c,
        };
        let v = match parse_u64_chars(&self.val) {
            None => {
                self.error = Some(RecordError::InvalidValue);
                proof {
                    assert(self@ =~= spec_rec_finish_pair(old(self)@));
                }
                return ;
            }
            Some(v) => v,
        };
        self.entries.insert(c, Duration { micros: v });
        proof {
            assert(self@ =~= spec_rec_finish_pair(old(self)@));
        }
    }

    fn step(&mut self, c: char)
        ensures
            final (self)@ == spec_rec_step(old(self)@, c),
    {
        if self.error.is_some() {
            return ;
        }
        match self.mode {
            RecMode::Pre => {
                if is_ws_char_exec(c) {
                } else if c == '{' {
                    self.mode = RecMode::ItemOrEnd;
                } else {
                    self.error = Some(RecordError::MalformedRecord);
                }
            }
            RecMode::ItemOrEnd => {
                if is_ws_char_exec(c) {
                } else if c == '"' {
                    self.key.clear();
                    self.mode = RecMode::Key;
                } else if c == '}' {
                    self.mode = RecMode::End;
                } else {
                    self.error = Some(RecordError::MalformedRecord);
                }
            }
            RecMode::Key => {
                if c == '"' {
                    self.mode = RecMode::PostKey;
                } else {
                    self.key.push(c);
                }
            }
            RecMode::PostKey => {
                if is_ws_char_exec(c) {
                } else if c == ':' {
                    self.mode = RecMode::PreVal;
                } else {
                    self.error = Some(RecordError::MalformedRecord);
                }
            }
            RecMode::PreVal => {
                if is_ws_char_exec(c) {
                } else if is_digit_char_exec(c) {
                    self.val.clear();
                    self.val.push(c);
                    self.mode = RecMode::Val;
                } else {
                    self.error = Some(RecordError::MalformedRecord);
                }
            }
            RecMode::Val => {
                if is_digit_char_exec(c) {
                    self.val.push(c);
                } else {
                    self.finish_pair();
                    if is_ws_char_exec(c) {
                        self.mode = RecMode::PostVal;
                    } else if c == ',' {
                        self.mode = RecMode::NextKey;
                    } else if c == '}' {
                        self.mode = RecMode::End;
                    } else {
                        self.error = Some(RecordError::MalformedRecord);
                    }
                }
            }
            RecMode::PostVal => {
                if is_ws_char_exec(c) {
                } else if c == ',' {
                    self.mode = RecMode::NextKey;
                } else if c == '}' {
                    self.mode = RecMode::End;
                } else {
                    self.error = Some(RecordError::MalformedRecord);
                }
            }
            RecMode::NextKey => {
                if is_ws_char_exec(c) {
                } else if c == '"' {
                    self.key.clear();
                    self.mode = RecMode::Key;
                } else {
                    self.error = Some(RecordError::MalformedRecord);
                }
            }
            RecMode::End => {
                if is_ws_char_exec(c) {
                } else {
                    self.error = Some(RecordError::MalformedRecord);
                }
            }
        }
        proof {
            assert(self@ =~= spec_rec_step(old(self)@, c));
        }
    }
}

/// Decode a record document.
pub fn decode_record(doc: &str) -> (r: Result<SplitMap, RecordError>)
    ensures
        match r {
            Ok(m) => spec_decode_record(doc@) == Ok::<Map<Chapter, Duration>, RecordError>(m@),
            Err(e) => spec_decode_record(doc@) == Err::<Map<Chapter, Duration>, RecordError>(e),
        },
{
    let mut p = RecordParser::new();
    let n = doc.unicode_len();
    let mut i: usize = 0;
    while i < n
        invariant
            n == doc@.len(),
            i <= n,
            p@ == spec_rec_scan(doc@, i as int),
        decreases n - i,
    {
        p.step(doc.get_char(i));
        i += 1;
    }
    match p.error {
        Some(e) => Err(e),
        None => {
            if p.mode != RecMode::End {
                Err(RecordError::MalformedRecord)
            } else {
                Ok(p.entries)
            }
        }
    }
}

/// The decoder state after running a whole character string from a given
/// state.
pub open spec fn spec_rec_run(st: RecState, s: Seq<char>) -> RecState
    decreases s.len(),
{
    if s.len() == 0 {
        st
    } else {
        spec_rec_step(spec_rec_run(st, s.drop_last()), s.last())
    }
}

proof fn lemma_scan_is_run(doc: Seq<char>, n: int)
    requires
        0 <= n <= doc.len(),
    ensures
        spec_rec_scan(doc, n) == spec_rec_run(spec_rec_init(), doc.take(n)),
    decreases n,
{
    if n > 0 {
        lemma_scan_is_run(doc, n - 1);
        assert(doc.take(n).drop_last() =~= doc.take(n - 1));
        assert(doc.take(n).last() == doc[n - 1]);
    }
}

proof fn lemma_run_concat(st: RecState, s1: Seq<char>, s2: Seq<char>)
    ensures
        spec_rec_run(st, s1 + s2) == spec_rec_run(spec_rec_run(st, s1), s2),
    decreases s2.len(),
{
    if s2.len() == 0 {
        assert(s1 + s2 =~= s1);
    } else {
        assert((s1 + s2).drop_last() =~= s1 + s2.drop_last());
        assert((s1 + s2).last() == s2.last());
        lemma_run_concat(st, s1, s2.drop_last());
    }
}

proof fn lemma_digits_are_digit_chars(n: int)
    requires
        n >= 0,
    ensures
        spec_digits(n).len() >= 1,
        all_digit_chars(spec_digits(n)),
        digits_val_chars(spec_digits(n)) == n,
    decreases n,
{
    if n < 10 {
        assert(spec_digits(n) =~= seq![crate::table::spec_digit_char(n)]);
        assert(is_digit_char(crate::table::spec_digit_char(n)));
        assert(spec_digits(n).drop_last() =~= Seq::<char>::empty());
        assert(digits_val_chars(Seq::<char>::empty()) == 0);
        assert(digits_val_chars(spec_digits(n).drop_last()) == 0);
        assert((crate::table::spec_digit_char(n) as u32 - 48) == n);
        assert(digits_val_chars(spec_digits(n)) == n);
    } else {
        lemma_digits_are_digit_chars(n / 10);
        let s = spec_digits(n);
        assert(s == spec_digits(n / 10).push(crate::table::spec_digit_char(n % 10)));
        assert(s.drop_last() =~= spec_digits(n / 10));
        assert(is_digit_char(crate::table::spec_digit_char(n % 10)));
        assert forall|i: int| 0 <= i < s.len() implies is_digit_char(s[i]) by {
            if i < s.len() - 1 {
                assert(s[i] == spec_digits(n / 10)[i]);
            }
        }
        assert((crate::table::spec_digit_char(n % 10) as u32 - 48) == n % 10);
        assert(digits_val_chars(s) == (n / 10) * 10 + n % 10);
    }
}

/// The external chapter encoding never contains a quote, so a key written
/// between quotes reads back whole.
proof fn lemma_encode_has_no_quote(c: Chapter)
    ensures
        forall|i: int| 0 <= i < spec_encode(c).len() ==> spec_encode(c)[i] != '"',
{
    reveal_strlit("Prologue");
    reveal_strlit("Epilogue");
    reveal_strlit("Farewell");
    reveal_strlit("1");
    reveal_strlit("2");
    reveal_strlit("3");
    reveal_strlit("4");
    reveal_strlit("5");
    reveal_strlit("6");
    reveal_strlit("7");
    reveal_strlit("8");
    reveal_strlit("A");
    reveal_strlit("B");
    reveal_strlit("C");
}

proof fn lemma_run_key(st: RecState, s: Seq<char>)
    requires
        st.mode == RecMode::Key,
        st.error is None,
        forall|i: int| 0 <= i < s.len() ==> s[i] != '"',
    ensures
        spec_rec_run(st, s) == (RecState { key: st.key + s, ..st }),
    decreases s.len(),
{
    if s.len() == 0 {
        assert(st.key + s =~= st.key);
        assert(spec_rec_run(st, s) =~= (RecState { key: st.key + s, ..st }));
    } else {
        assert(forall|i: int| 0 <= i < s.drop_last().len() ==> #[trigger] s.drop_last()[i] != '"')
            by {
            assert(forall|i: int|
                0 <= i < s.drop_last().len() ==> #[trigger] s.drop_last()[i] == s[i]);
        }
        lemma_run_key(st, s.drop_last());
        assert((st.key + s.drop_last()).push(s.last()) =~= st.key + s);
        assert(spec_rec_run(st, s) =~= (RecState { key: st.key + s, ..st }));
    }
}

proof fn lemma_run_digits(st: RecState, s: Seq<char>)
    requires
        st.mode == RecMode::PreVal,
        st.error is None,
        s.len() >= 1,
        all_digit_chars(s),
    ensures
        spec_rec_run(st, s) == (RecState { mode: RecMode::Val, val: s, ..st }),
    decreases s.len(),
{
    if s.len() == 1 {
        assert(is_digit_char(s[0]));
        assert(!is_ws_char(s[0]));
        assert(spec_rec_run(st, s) =~= (RecState { mode: RecMode::Val, val: s, ..st }));
    } else {
        assert(all_digit_chars(s.drop_last())) by {
            assert(forall|i: int|
                0 <= i < s.drop_last().len() ==> #[trigger] s.drop_last()[i] == s[i]);
        }
        lemma_run_digits(st, s.drop_last());
        assert(is_digit_char(s.last()));
        assert(s.drop_last().push(s.last()) =~= s);
        assert(spec_rec_run(st, s) =~= (RecState { mode: RecMode::Val, val: s, ..st }));
    }
}

proof fn lemma_run_one(st: RecState, c: char)
    ensures
        spec_rec_run(st, seq![c]) == spec_rec_step(st, c),
{
    assert(seq![c].drop_last() =~= Seq::<char>::empty());
    assert(spec_rec_run(st, seq![c].drop_last()) == st);
    assert(seq![c].last() == c);
}

proof fn lemma_run_two(st: RecState, c1: char, c2: char)
    ensures
        spec_rec_run(st, seq![c1, c2]) == spec_rec_step(spec_rec_step(st, c1), c2),
{
    assert(seq![c1, c2].drop_last() =~= seq![c1]);
    lemma_run_one(st, c1);
    assert(seq![c1, c2].last() == c2);
}

proof fn lemma_run_pair(st: RecState, c: Chapter, d: Duration)
    requires
        st.mode == RecMode::ItemOrEnd || st.mode == RecMode::NextKey,
        st.error is None,
    ensures
        spec_rec_run(st, spec_pair_text(c, d)) == (RecState {
            mode: RecMode::Val,
            key: spec_encode(c),
            val: spec_digits(d.micros as int),
            ..st
        }),
{
    let enc = spec_encode(c);
    let digs = spec_digits(d.micros as int);
    let p1 = seq!['"'];
    let p2 = seq!['"', ':'];
    lemma_run_one(st, '"');
    let st1 = spec_rec_run(st, p1);
    assert(st1 == (RecState { mode: RecMode::Key, key: Seq::empty(), ..st }));
    lemma_run_concat(st, p1, enc);
    lemma_encode_has_no_quote(c);
    lemma_run_key(st1, enc);
    let st2 = spec_rec_run(st, p1 + enc);
    assert(st2 == (RecState { mode: RecMode::Key, key: Seq::empty() + enc, ..st }));
    assert(Seq::empty() + enc =~= enc);
    lemma_run_concat(st, p1 + enc, p2);
    lemma_run_two(st2, '"', ':');
    let st3 = spec_rec_run(st2, p2);
    assert(st3 == (RecState { mode: RecMode::PreVal, key: enc, ..st }));
    lemma_digits_are_digit_chars(d.micros as int);
    lemma_run_digits(st3, digs);
    lemma_run_concat(st, (p1 + enc) + p2, digs);
    assert(spec_pair_text(c, d) =~= ((p1 + enc) + p2) + digs);
    assert(spec_rec_run(st, spec_pair_text(c, d)) =~= (RecState {
        mode: RecMode::Val,
        key: enc,
        val: digs,
        ..st
    }));
}

/// The finishing step of a pair written by the encoder always succeeds and
/// inserts exactly that pair.
proof fn lemma_finish_written_pair(st: RecState, c: Chapter, d: Duration)
    requires
        st.error is None,
        st.key == spec_encode(c),
        st.val == spec_digits(d.micros as int),
    ensures
        spec_rec_finish_pair(st) == (RecState { entries: st.entries.insert(c, d), ..st }),
{
    crate::levels::lemma_encode_decode_round_trip(c);
    lemma_digits_are_digit_chars(d.micros as int);
    assert(spec_parse_u64_chars(st.val) == Some(d.micros));
    assert(Duration { micros: d.micros } == d);
}

proof fn lemma_run_body(st0: RecState, pairs: Seq<(Chapter, Duration)>)
    requires
        st0.mode == RecMode::ItemOrEnd,
        st0.error is None,
        st0.entries == Map::<Chapter, Duration>::empty(),
        pairs.len() >= 1,
    ensures
        spec_rec_run(st0, spec_record_body(pairs)) == (RecState {
            mode: RecMode::Val,
            key: spec_encode(pairs.last().0),
            val: spec_digits(pairs.last().1.micros as int),
            entries: map_of(pairs.drop_last()),
            ..st0
        }),
    decreases pairs.len(),
{
    if pairs.len() == 1 {
        lemma_run_pair(st0, pairs[0].0, pairs[0].1);
        assert(pairs.drop_last().len() == 0);
        assert(map_of(pairs.drop_last()) == st0.entries);
    } else {
        let dl = pairs.drop_last();
        let comma = seq![','];
        lemma_run_body(st0, dl);
        let stv = spec_rec_run(st0, spec_record_body(dl));
        lemma_run_concat(st0, spec_record_body(dl), comma);
        lemma_run_one(stv, ',');
        assert(!is_digit_char(','));
        assert(!is_ws_char(','));
        lemma_finish_written_pair(stv, dl.last().0, dl.last().1);
        let stn = spec_rec_run(st0, spec_record_body(dl) + comma);
        assert(stn == (RecState {
            mode: RecMode::NextKey,
            entries: map_of(dl.drop_last()).insert(dl.last().0, dl.last().1),
            ..stv
        }));
        assert(map_of(dl.drop_last()).insert(dl.last().0, dl.last().1) == map_of(dl));
        lemma_run_pair(stn, pairs.last().0, pairs.last().1);
        lemma_run_concat(st0, spec_record_body(dl) + comma, spec_pair_text(
            pairs.last().0,
            pairs.last().1,
        ));
        assert(spec_record_body(pairs) =~= (spec_record_body(dl) + comma) + spec_pair_text(
            pairs.last().0,
            pairs.last().1,
        ));
        assert(spec_rec_run(st0, spec_record_body(pairs)) =~= (RecState {
            mode: RecMode::Val,
            key: spec_encode(pairs.last().0),
            val: spec_digits(pairs.last().1.micros as int),
            entries: map_of(pairs.drop_last()),
            ..st0
        }));
    }
}

/// Law: a record document written by the encoder decodes back to exactly
/// the map it was written from.
pub proof fn lemma_record_round_trip(pairs: Seq<(Chapter, Duration)>)
    ensures
        spec_decode_record(spec_encode_record(pairs)) == Ok::<Map<Chapter, Duration>, RecordError>(
            map_of(pairs),
        ),
{
    let doc = spec_encode_record(pairs);
    lemma_scan_is_run(doc, doc.len() as int);
    assert(doc.take(doc.len() as int) =~= doc);
    let init = spec_rec_init();
    let open = seq!['{'];
    let close = seq!['}'];
    lemma_run_one(init, '{');
    assert(!is_ws_char('{'));
    let st1 = spec_rec_run(init, open);
    assert(st1 == (RecState { mode: RecMode::ItemOrEnd, ..init }));
    if pairs.len() == 0 {
        assert(doc =~= open + close);
        lemma_run_concat(init, open, close);
        lemma_run_one(st1, '}');
        assert(!is_ws_char('}'));
        let fin = spec_rec_run(init, doc);
        assert(fin == (RecState { mode: RecMode::End, ..st1 }));
        assert(map_of(pairs) == Map::<Chapter, Duration>::empty());
    } else {
        assert(doc =~= (open + spec_record_body(pairs)) + close);
        lemma_run_concat(init, open, spec_record_body(pairs));
        lemma_run_body(st1, pairs);
        let stv = spec_rec_run(init, open + spec_record_body(pairs));
        lemma_run_concat(init, open + spec_record_body(pairs), close);
        lemma_run_one(stv, '}');
        assert(!is_digit_char('}'));
        assert(!is_ws_char('}'));
        lemma_finish_written_pair(stv, pairs.last().0, pairs.last().1);
        let fin = spec_rec_run(init, doc);
        assert(fin == (RecState {
            mode: RecMode::End,
            entries: map_of(pairs.drop_last()).insert(pairs.last().0, pairs.last().1),
            ..stv
        }));
        assert(map_of(pairs.drop_last()).insert(pairs.last().0, pairs.last().1) == map_of(pairs));
    }
}

/// A record as loaded at startup: the decoded document, or empty when the
/// document is missing or does not decode. Each record depends on its own
/// document alone, so a broken one never blocks the other.
pub open spec fn spec_loaded_record(doc: Option<Seq<char>>) -> Map<Chapter, Duration> {
    match doc {
        Some(d) => match spec_decode_record(d) {
            Ok(m) => m,
            Err(_) => Map::empty(),
        },
        None => Map::empty(),
    }
}

fn load_record(doc: Option<&str>) -> (r: (SplitMap, bool))
    ensures
        r.0@ == spec_loaded_record(match doc {
            Some(d) => Some(d@),
            None => None,
        }),
        r.1 == (doc matches Some(d) && spec_decode_record(d@) is Err),
{
    match doc {
        Some(d) => match decode_record(d) {
            Ok(m) => (m, false),
            Err(_) => (ChapterMap::new(), true),
        },
        None => (ChapterMap::new(), false),
    }
}

impl SessionState {
    /// The engine's state at startup: the initial snapshot as parsed (or
    /// absent), and the two records loaded independently from their
    /// documents, each defaulting to empty when missing or undecodable.
    /// The two returned flags report a personal-best and a best-splits
    /// document that was present but did not decode.
    pub fn new(
        current_save: Option<TimeMap>,
        pb_doc: Option<&str>,
        best_splits_doc: Option<&str>,
    ) -> (r: (SessionState, bool, bool))
        ensures
            r.0.current_save == current_save,
            r.0.pb@ == spec_loaded_record(match pb_doc {
                Some(d) => Some(d@),
                None => None,
            }),
            r.0.best_splits@ == spec_loaded_record(match best_splits_doc {
                Some(d) => Some(d@),
                None => None,
            }),
            r.1 == (pb_doc matches Some(d) && spec_decode_record(d@) is Err),
            r.2 == (best_splits_doc matches Some(d) && spec_decode_record(d@) is Err),
    {
        let (pb, pb_failed) = load_record(pb_doc);
        let (best_splits, splits_failed) = load_record(best_splits_doc);
        (SessionState { current_save, pb, best_splits }, pb_failed, splits_failed)
    }
}

} // verus!
