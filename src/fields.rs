//! The record field iterator: a byte-driven state machine that turns one log record
//! into `(key, value)` pairs.
//!
//! A record reads `time "-" duration "," event ("," misc)+ "," key=value ("," key=value)*`
//! and ends with LF, CR LF or the end of the input; the misc fields, which hold no `=`,
//! are read and dropped. Values are bare (up to the next
//! comma or line end) or quoted with `"` or `'`, where a doubled quote stands for one.
use vstd::prelude::*;

verus! {

pub open spec fn is_stop(x: u8, b: u8) -> bool {
    x == b || x == 44 || x == 13 || x == 10
}

/// First index at or after `i` that holds `b`, a comma or a line end (or the length).
pub open spec fn line_scan(s: Seq<u8>, i: int, b: u8) -> int
    decreases s.len() - i,
{
    if 0 <= i < s.len() && !is_stop(s[i], b) {
        line_scan(s, i + 1, b)
    } else {
        i
    }
}

pub open spec fn is_line_end(s: Seq<u8>, i: int) -> bool {
    i >= s.len() || s[i] == 13 || s[i] == 10
}

/// Index just past the line end that starts at `i`.
pub open spec fn after_line_end(s: Seq<u8>, i: int) -> int {
    if 0 <= i < s.len() && s[i] == 13 {
        if i + 1 < s.len() && s[i + 1] == 10 {
            i + 2
        } else {
            i + 1
        }
    } else if 0 <= i < s.len() && s[i] == 10 {
        i + 1
    } else {
        i
    }
}

/// Content of a value quoted with `q` whose text starts at `i`, with doubled quotes
/// read as one, and the index of its closing quote; `None` when it is never closed.
pub open spec fn quoted_value(s: Seq<u8>, i: int, q: u8) -> Option<(Seq<u8>, int)>
    decreases s.len() - i,
{
    if i < 0 || i >= s.len() {
        None
    } else if s[i] == q {
        if i + 1 < s.len() && s[i + 1] == q {
            match quoted_value(s, i + 2, q) {
                Some((c, e)) => Some((seq![q] + c, e)),
                None => None,
            }
        } else {
            Some((Seq::empty(), i))
        }
    } else {
        match quoted_value(s, i + 1, q) {
            Some((c, e)) => Some((seq![s[i]] + c, e)),
            None => None,
        }
    }
}

/// Content of the value that starts at `v` and the index just past it.
pub open spec fn value_at(s: Seq<u8>, v: int) -> Option<(Seq<u8>, int)> {
    if 0 <= v < s.len() && (s[v] == 34 || s[v] == 39) {
        match quoted_value(s, v + 1, s[v]) {
            Some((c, close)) => Some((c, close + 1)),
            None => None,
        }
    } else {
        let t = line_scan(s, v, 44);
        Some((s.subrange(v, t), t))
    }
}

pub open spec fn time_key() -> Seq<u8> {
    seq![116u8, 105u8, 109u8, 101u8]
}

pub open spec fn duration_key() -> Seq<u8> {
    seq![100u8, 117u8, 114u8, 97u8, 116u8, 105u8, 111u8, 110u8]
}

pub open spec fn event_key() -> Seq<u8> {
    seq![101u8, 118u8, 101u8, 110u8, 116u8]
}

/// Where the parser stands within a record.
#[derive(Clone, Copy, Debug, PartialEq, Eq, Structural)]
pub enum ParseState {
    StartLogLine,
    Duration,
    EventField,
    Undefined,
    Key,
    Finish,
    Malformed,
}

/// What one step of the parser yields.
pub enum FieldStep {
    Field(Seq<u8>, Seq<u8>),
    End,
    Bad,
}

/// Start of the first `key=value` pair after the misc field that starts at `pos`: misc
/// fields end with a comma, and a field holding `=` before its end is the first pair.
pub open spec fn first_pair_start(s: Seq<u8>, pos: int) -> Option<int>
    decreases s.len() - pos,
{
    let c = line_scan(s, pos, 44);
    if pos < 0 || !(c < s.len() && s[c] == 44) || c < pos {
        None
    } else {
        let e = line_scan(s, c + 1, 61);
        if e < s.len() && s[e] == 61 {
            Some(c + 1)
        } else {
            first_pair_start(s, c + 1)
        }
    }
}

/// One step from a `key=value` pair that starts at `pos`.
pub open spec fn key_step(s: Seq<u8>, pos: int) -> (FieldStep, ParseState, int) {
    if is_line_end(s, pos) {
        (FieldStep::End, ParseState::StartLogLine, after_line_end(s, pos))
    } else {
        let e = line_scan(s, pos, 61);
        if e < s.len() && s[e] == 61 {
            match value_at(s, e + 1) {
                Some((c, t)) => {
                    let f = FieldStep::Field(s.subrange(pos, e), c);
                    if t >= s.len() {
                        (f, ParseState::Finish, t)
                    } else if s[t] == 44 {
                        (f, ParseState::Key, t + 1)
                    } else if s[t] == 13 || s[t] == 10 {
                        (f, ParseState::Finish, after_line_end(s, t))
                    } else {
                        (FieldStep::Bad, ParseState::Malformed, pos)
                    }
                },
                None => (FieldStep::Bad, ParseState::Malformed, pos),
            }
        } else {
            (FieldStep::Bad, ParseState::Malformed, pos)
        }
    }
}

/// One step from a leading field that ends with `b`, reported under `key`.
pub open spec fn head_step(s: Seq<u8>, pos: int, b: u8, key: Seq<u8>, next: ParseState) -> (
    FieldStep,
    ParseState,
    int,
) {
    let t = line_scan(s, pos, b);
    if t < s.len() && s[t] == b {
        (FieldStep::Field(key, s.subrange(pos, t)), next, t + 1)
    } else {
        (FieldStep::Bad, ParseState::Malformed, pos)
    }
}

/// One call of the parser on input `s` in state `st` at `pos`: what it yields, its next
/// state and its next position.
pub open spec fn field_step(s: Seq<u8>, st: ParseState, pos: int) -> (FieldStep, ParseState, int) {
    match st {
        ParseState::StartLogLine => {
            if pos >= s.len() {
                (FieldStep::End, ParseState::StartLogLine, pos)
            } else {
                head_step(s, pos, 45, time_key(), ParseState::Duration)
            }
        },
        ParseState::Duration => head_step(s, pos, 44, duration_key(), ParseState::EventField),
        ParseState::EventField => head_step(s, pos, 44, event_key(), ParseState::Undefined),
        ParseState::Undefined => match first_pair_start(s, pos) {
            Some(k) => key_step(s, k),
            None => (FieldStep::Bad, ParseState::Malformed, pos),
        },
        ParseState::Key => key_step(s, pos),
        ParseState::Finish => (FieldStep::End, ParseState::StartLogLine, pos),
        ParseState::Malformed => (FieldStep::Bad, ParseState::Malformed, pos),
    }
}

/// The pairs that the parser yields from state `st` at `pos` up to the end of the record,
/// and the position after it; `None` for a malformed record.
pub open spec fn fields_run(s: Seq<u8>, st: ParseState, pos: int) -> Option<
    (Seq<(Seq<u8>, Seq<u8>)>, int),
>
    decreases s.len() - pos,
{
    let (step, st2, pos2) = field_step(s, st, pos);
    match step {
        FieldStep::Field(k, v) => {
            if pos < pos2 <= s.len() {
                match fields_run(s, st2, pos2) {
                    Some((rest, end)) => Some((seq![(k, v)] + rest, end)),
                    None => None,
                }
            } else {
                None
            }
        },
        FieldStep::End => Some((Seq::empty(), pos2)),
        FieldStep::Bad => None,
    }
}

/// The pairs of the record that starts at `pos`, and where the record ends.
pub open spec fn record_fields(s: Seq<u8>, pos: int) -> Option<(Seq<(Seq<u8>, Seq<u8>)>, int)> {
    fields_run(s, ParseState::StartLogLine, pos)
}

proof fn lemma_line_scan(s: Seq<u8>, i: int, b: u8)
    requires
        0 <= i <= s.len(),
    ensures
        i <= line_scan(s, i, b) <= s.len(),
        forall|k: int| i <= k < line_scan(s, i, b) ==> !is_stop(#[trigger] s[k], b),
    decreases s.len() - i,
{
    if i < s.len() && !is_stop(s[i], b) {
        lemma_line_scan(s, i + 1, b);
    }
}

proof fn lemma_quoted_value(s: Seq<u8>, i: int, q: u8)
    requires
        0 <= i,
    ensures
        quoted_value(s, i, q) matches Some((c, e)) ==> i <= e < s.len(),
    decreases s.len() - i,
{
    if 0 <= i < s.len() {
        if s[i] == q {
            if i + 1 < s.len() && s[i + 1] == q {
                lemma_quoted_value(s, i + 2, q);
            }
        } else {
            lemma_quoted_value(s, i + 1, q);
        }
    }
}

/// A step that yields a pair moves forward and stays within the input.
proof fn lemma_first_pair_start(s: Seq<u8>, pos: int)
    requires
        0 <= pos <= s.len(),
    ensures
        first_pair_start(s, pos) matches Some(k) ==> pos < k <= s.len() && line_scan(s, k, 61)
            < s.len(),
    decreases s.len() - pos,
{
    lemma_line_scan(s, pos, 44);
    let c = line_scan(s, pos, 44);
    if c < s.len() && s[c] == 44 {
        lemma_line_scan(s, c + 1, 61);
        let e = line_scan(s, c + 1, 61);
        if !(e < s.len() && s[e] == 61) {
            lemma_first_pair_start(s, c + 1);
        }
    }
}

proof fn lemma_key_step(s: Seq<u8>, pos: int)
    requires
        0 <= pos <= s.len(),
    ensures
        ({
            let (step, st2, pos2) = key_step(s, pos);
            &&& step is Field ==> pos < pos2 <= s.len()
            &&& pos <= pos2 <= s.len()
        }),
{
    lemma_line_scan(s, pos, 61);
    let e = line_scan(s, pos, 61);
    if e < s.len() {
        lemma_line_scan(s, e + 1, 44);
        lemma_quoted_value(s, e + 2, 34);
        lemma_quoted_value(s, e + 2, 39);
    }
}

/// A step that yields a pair moves forward and stays within the input.
pub proof fn lemma_step_advances(s: Seq<u8>, st: ParseState, pos: int)
    requires
        0 <= pos <= s.len(),
    ensures
        ({
            let (step, st2, pos2) = field_step(s, st, pos);
            &&& step is Field ==> pos < pos2 <= s.len()
            &&& pos <= pos2 <= s.len()
        }),
{
    lemma_line_scan(s, pos, 45);
    lemma_line_scan(s, pos, 44);
    lemma_first_pair_start(s, pos);
    if let Some(k) = first_pair_start(s, pos) {
        lemma_key_step(s, k);
    }
    lemma_key_step(s, pos);
}

/// Why a record could not be read.
#[derive(Clone, Copy, Debug, PartialEq, Eq, Structural)]
pub struct MalformedRecord {
    /// Where in the input the faulty field starts.
    pub at: usize,
}

/// The fields of one record, produced one pair per call.
pub struct Fields {
    reader: Vec<u8>,
    state: ParseState,
    index: usize,
}

fn scan_line(s: &Vec<u8>, i: usize, b: u8) -> (r: usize)
    requires
        i <= s@.len(),
    ensures
        r == line_scan(s@, i as int, b),
        i <= r <= s@.len(),
{
    proof {
        lemma_line_scan(s@, i as int, b);
    }
    let mut j = i;
    while j < s.len() && !(s[j] == b || s[j] == 44 || s[j] == 13 || s[j] == 10)
        invariant
            i <= j <= s@.len(),
            line_scan(s@, j as int, b) == line_scan(s@, i as int, b),
        decreases s@.len() - j,
    {
        j = j + 1;
    }
    j
}

fn find_pair_start(s: &Vec<u8>, pos: usize) -> (r: Option<usize>)
    requires
        pos <= s@.len(),
    ensures
        r matches Some(k) ==> first_pair_start(s@, pos as int) == Some(k as int) && k <= s@.len(),
        r is None ==> first_pair_start(s@, pos as int) is None,
{
    let mut p = pos;
    loop
        invariant
            pos <= p <= s@.len(),
            first_pair_start(s@, p as int) == first_pair_start(s@, pos as int),
        decreases s@.len() - p,
    {
        let c = scan_line(s, p, 44);
        if !(c < s.len() && s[c] == 44) {
            return None;
        }
        let e = scan_line(s, c + 1, 61);
        if e < s.len() && s[e] == 61 {
            return Some(c + 1);
        }
        p = c + 1;
    }
}

fn skip_line_end(s: &Vec<u8>, i: usize) -> (r: usize)
    requires
        i <= s@.len(),
    ensures
        r == after_line_end(s@, i as int),
        r <= s@.len(),
{
    if i < s.len() && s[i] == 13 {
        if i + 1 < s.len() && s[i + 1] == 10 {
            i + 2
        } else {
            i + 1
        }
    } else if i < s.len() && s[i] == 10 {
        i + 1
    } else {
        i
    }
}

fn slice_of(s: &Vec<u8>, from: usize, to: usize) -> (r: Vec<u8>)
    requires
        from <= to <= s@.len(),
    ensures
        r@ == s@.subrange(from as int, to as int),
{
    crate::bytes::copy_range(s.as_slice(), from, to)
}

fn read_quoted(s: &Vec<u8>, start: usize, q: u8) -> (r: Option<(Vec<u8>, usize)>)
    requires
        start <= s@.len(),
    ensures
        r matches Some((c, e)) ==> quoted_value(s@, start as int, q) == Some((c@, e as int)),
        r is None ==> quoted_value(s@, start as int, q) is None,
{
    let mut acc: Vec<u8> = Vec::new();
    let mut i = start;
    while i < s.len()
        invariant
            start <= i <= s@.len() + 1,
            quoted_value(s@, start as int, q) == match quoted_value(s@, i as int, q) {
                Some((c, e)) => Some((acc@ + c, e)),
                None => None,
            },
        decreases s@.len() + 1 - i,
    {
        if s[i] == q {
            if i + 1 < s.len() && s[i + 1] == q {
                proof {
                    match quoted_value(s@, i + 2, q) {
                        Some((c, e)) => {
                            assert(acc@ + (seq![q] + c) =~= acc@.push(q) + c);
                        },
                        None => {},
                    }
                }
                acc.push(q);
                i = i + 2;
            } else {
                assert(acc@ + Seq::<u8>::empty() =~= acc@);
                return Some((acc, i));
            }
        } else {
            proof {
                match quoted_value(s@, i + 1, q) {
                    Some((c, e)) => {
                        assert(acc@ + (seq![s@[i as int]] + c) =~= acc@.push(s@[i as int]) + c);
                    },
                    None => {},
                }
            }
            acc.push(s[i]);
            i = i + 1;
        }
    }
    None
}

fn read_value(s: &Vec<u8>, v: usize) -> (r: Option<(Vec<u8>, usize)>)
    requires
        v <= s@.len(),
    ensures
        r matches Some((c, t)) ==> value_at(s@, v as int) == Some((c@, t as int)),
        r is None ==> value_at(s@, v as int) is None,
{
    if v < s.len() && (s[v] == 34 || s[v] == 39) {
        proof {
            lemma_quoted_value(s@, v + 1, s@[v as int]);
        }
        match read_quoted(s, v + 1, s[v]) {
            Some((c, close)) => Some((c, close + 1)),
            None => None,
        }
    } else {
        let t = scan_line(s, v, 44);
        Some((slice_of(s, v, t), t))
    }
}

fn word(w: u8) -> (r: Vec<u8>)
    requires
        w <= 2,
    ensures
        w == 0 ==> r@ == time_key(),
        w == 1 ==> r@ == duration_key(),
        w == 2 ==> r@ == event_key(),
{
    let mut v: Vec<u8> = Vec::new();
    if w == 0 {
        v.push(116);
        v.push(105);
        v.push(109);
        v.push(101);
        assert(v@ =~= time_key());
    } else if w == 1 {
        v.push(100);
        v.push(117);
        v.push(114);
        v.push(97);
        v.push(116);
        v.push(105);
        v.push(111);
        v.push(110);
        assert(v@ =~= duration_key());
    } else {
        v.push(101);
        v.push(118);
        v.push(101);
        v.push(110);
        v.push(116);
        assert(v@ =~= event_key());
    }
    v
}

/// What a call of `parse_field` hands back for a step of the parser.
pub open spec fn step_result(
    step: FieldStep,
    r: Result<Option<(Vec<u8>, Vec<u8>)>, MalformedRecord>,
) -> bool {
    match step {
        FieldStep::Field(k, v) => r matches Ok(Some((rk, rv))) && rk@ == k && rv@ == v,
        FieldStep::End => r matches Ok(None),
        FieldStep::Bad => r is Err,
    }
}

impl Fields {
    pub closed spec fn input(&self) -> Seq<u8> {
        self.reader@
    }

    pub closed spec fn parse_state(&self) -> ParseState {
        self.state
    }

    pub closed spec fn position(&self) -> int {
        self.index as int
    }

    pub open spec fn wf(&self) -> bool {
        0 <= self.position() <= self.input().len()
    }

    /// A parser at the start of `reader`.
    pub fn new(reader: Vec<u8>) -> (r: Fields)
        ensures
            r.wf(),
            r.input() == reader@,
            r.parse_state() == ParseState::StartLogLine,
            r.position() == 0,
    {
        Fields { reader, state: ParseState::StartLogLine, index: 0 }
    }

    /// A parser at `pos` of `reader`, where a record starts.
    pub fn starting_at(reader: Vec<u8>, pos: usize) -> (r: Fields)
        requires
            pos <= reader@.len(),
        ensures
            r.wf(),
            r.input() == reader@,
            r.parse_state() == ParseState::StartLogLine,
            r.position() == pos,
    {
        Fields { reader, state: ParseState::StartLogLine, index: pos }
    }

    /// The position of the next byte to read.
    pub fn current(&self) -> (r: usize)
        ensures
            r == self.position(),
    {
        self.index
    }

    fn pair_step(&mut self, pos: usize) -> (r: Result<Option<(Vec<u8>, Vec<u8>)>, MalformedRecord>)
        requires
            old(self).wf(),
            pos <= old(self).input().len(),
        ensures
            final(self).wf(),
            final(self).input() == old(self).input(),
            ({
                let (step, st, p) = key_step(old(self).input(), pos as int);
                step_result(step, r) && final(self).parse_state() == st && final(self).position()
                    == p
            }),
    {
        let s = &self.reader;
        if pos >= s.len() || s[pos] == 13 || s[pos] == 10 {
            let p = skip_line_end(s, pos);
            self.state = ParseState::StartLogLine;
            self.index = p;
            return Ok(None);
        }
        let e = scan_line(s, pos, 61);
        if e < s.len() && s[e] == 61 {
            match read_value(s, e + 1) {
                Some((c, t)) => {
                    let key = slice_of(s, pos, e);
                    proof {
                        lemma_line_scan(s@, e + 1, 44);
                        if e + 1 < s@.len() {
                            lemma_quoted_value(s@, e + 2, s@[e + 1]);
                        }
                    }
                    if t >= s.len() {
                        self.state = ParseState::Finish;
                        self.index = t;
                        Ok(Some((key, c)))
                    } else if s[t] == 44 {
                        self.state = ParseState::Key;
                        self.index = t + 1;
                        Ok(Some((key, c)))
                    } else if s[t] == 13 || s[t] == 10 {
                        let p = skip_line_end(s, t);
                        self.state = ParseState::Finish;
                        self.index = p;
                        Ok(Some((key, c)))
                    } else {
                        self.state = ParseState::Malformed;
                        self.index = pos;
                        Err(MalformedRecord { at: pos })
                    }
                },
                None => {
                    self.state = ParseState::Malformed;
                    self.index = pos;
                    Err(MalformedRecord { at: pos })
                },
            }
        } else {
            self.state = ParseState::Malformed;
            self.index = pos;
            Err(MalformedRecord { at: pos })
        }
    }

    fn head(&mut self, b: u8, w: u8, next: ParseState) -> (r: Result<
        Option<(Vec<u8>, Vec<u8>)>,
        MalformedRecord,
    >)
        requires
            old(self).wf(),
            w <= 2,
        ensures
            final(self).wf(),
            final(self).input() == old(self).input(),
            ({
                let key = if w == 0 {
                    time_key()
                } else if w == 1 {
                    duration_key()
                } else {
                    event_key()
                };
                let (step, st, p) = head_step(old(self).input(), old(self).position(), b, key, next);
                step_result(step, r) && final(self).parse_state() == st && final(self).position()
                    == p
            }),
    {
        let pos = self.index;
        let t = scan_line(&self.reader, pos, b);
        if t < self.reader.len() && self.reader[t] == b {
            let v = slice_of(&self.reader, pos, t);
            self.state = next;
            self.index = t + 1;
            Ok(Some((word(w), v)))
        } else {
            self.state = ParseState::Malformed;
            Err(MalformedRecord { at: pos })
        }
    }

    /// The next `(key, value)` pair of the record; `Ok(None)` once the record (or the
    /// input) has ended, after which the next call starts on the following record.
    pub fn parse_field(&mut self) -> (r: Result<Option<(Vec<u8>, Vec<u8>)>, MalformedRecord>)
        requires
            old(self).wf(),
        ensures
            final(self).wf(),
            final(self).input() == old(self).input(),
            ({
                let (step, st, p) = field_step(
                    old(self).input(),
                    old(self).parse_state(),
                    old(self).position(),
                );
                step_result(step, r) && final(self).parse_state() == st && final(self).position()
                    == p
            }),
    {
        match self.state {
            ParseState::StartLogLine => {
                if self.index >= self.reader.len() {
                    Ok(None)
                } else {
                    self.head(45, 0, ParseState::Duration)
                }
            },
            ParseState::Duration => self.head(44, 1, ParseState::EventField),
            ParseState::EventField => self.head(44, 2, ParseState::Undefined),
            ParseState::Undefined => {
                let pos = self.index;
                match find_pair_start(&self.reader, pos) {
                    Some(k) => self.pair_step(k),
                    None => {
                        self.state = ParseState::Malformed;
                        Err(MalformedRecord { at: pos })
                    },
                }
            },
            ParseState::Key => {
                let pos = self.index;
                self.pair_step(pos)
            },
            ParseState::Finish => {
                self.state = ParseState::StartLogLine;
                Ok(None)
            },
            ParseState::Malformed => Err(MalformedRecord { at: self.index }),
        }
    }
}

impl Fields {
    /// The parser as an iterator-like handle over the pairs.
    pub fn iter(self) -> (r: Iter)
        ensures
            r.fields() == self,
    {
        Iter { inner: self }
    }
}

/// Hands out the pairs of a record, one per call of `next`.
pub struct Iter {
    inner: Fields,
}

impl Iter {
    pub closed spec fn fields(&self) -> Fields {
        self.inner
    }

    /// The next pair (see `Fields::parse_field`).
    pub fn next(&mut self) -> (r: Result<Option<(Vec<u8>, Vec<u8>)>, MalformedRecord>)
        requires
            old(self).fields().wf(),
        ensures
            final(self).fields().wf(),
            final(self).fields().input() == old(self).fields().input(),
            ({
                let (step, st, p) = field_step(
                    old(self).fields().input(),
                    old(self).fields().parse_state(),
                    old(self).fields().position(),
                );
                step_result(step, r) && final(self).fields().parse_state() == st
                    && final(self).fields().position() == p
            }),
    {
        self.inner.parse_field()
    }
}

} // verus!
