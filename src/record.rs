//! Records: their time stamp, their field map, and the handle kept for each of them.
use crate::bytes::{digit_run, digits_to_u64, digits_value, lemma_digit_run_bounds, lemma_digits_value_bound, lemma_pow10_monotonic, lemma_pow10_small, pow10, scan_digits};
use crate::datetime::DateTime;
use crate::fieldmap::{inserted, FieldMap};
use crate::fields::{fields_run, field_step, lemma_step_advances, record_fields, time_key, Fields, MalformedRecord};
use crate::value::{text_value, Value, ValueView};
use vstd::prelude::*;

verus! {

/// The nanoseconds that a fraction of `len` digits with value `v` stands for: the
/// digits count milliseconds up to three of them, microseconds up to six, else
/// nanoseconds.
pub open spec fn fraction_nanos(v: int, len: int) -> int {
    if len <= 3 {
        v * 1_000_000
    } else if len <= 6 {
        v * 1_000
    } else {
        v
    }
}

/// The time of a record whose time field reads `MM:SS.FRACT` in the hour `anchor`:
/// one or two digits of minutes and of seconds, each below 60, and up to nine digits of
/// fraction.
pub open spec fn record_time(anchor: DateTime, t: Seq<u8>) -> Option<DateTime> {
    let a = digit_run(t, 0);
    if !(1 <= a <= 2 && a < t.len() && t[a] == 58) {
        None
    } else {
        let b = digit_run(t, a + 1);
        if !(1 <= b - a - 1 <= 2 && b < t.len() && t[b] == 46) {
            None
        } else {
            let c = digit_run(t, b + 1);
            let minute = digits_value(t.subrange(0, a));
            let second = digits_value(t.subrange(a + 1, b));
            if c != t.len() || c - b - 1 > 9 || minute >= 60 || second >= 60 {
                None
            } else {
                Some(
                    DateTime {
                        minute: minute as u32,
                        second: second as u32,
                        nano: fraction_nanos(digits_value(t.subrange(b + 1, c)), c - b - 1) as u32,
                        ..anchor
                    },
                )
            }
        }
    }
}

/// The time of a record (see `record_time`); `None` for a malformed time field.
pub fn parse_time(anchor: &DateTime, t: &[u8]) -> (r: Option<DateTime>)
    requires
        anchor.valid(),
    ensures
        r == record_time(*anchor, t@),
        r matches Some(d) ==> d.valid() && d.hour == anchor.hour && d.day == anchor.day,
{
    let a = scan_digits(t, 0);
    proof {
        lemma_digit_run_bounds(t@, 0);
    }
    if !(1 <= a && a <= 2 && a < t.len() && t[a] == 58) {
        return None;
    }
    let b = scan_digits(t, a + 1);
    proof {
        lemma_digit_run_bounds(t@, a + 1);
    }
    if !(b - a - 1 >= 1 && b - a - 1 <= 2 && b < t.len() && t[b] == 46) {
        return None;
    }
    let c = scan_digits(t, b + 1);
    proof {
        lemma_digit_run_bounds(t@, b + 1);
    }
    let minute = digits_to_u64(t, 0, a);
    let second = digits_to_u64(t, a + 1, b);
    if c != t.len() || c - b - 1 > 9 || minute >= 60 || second >= 60 {
        return None;
    }
    let frac = digits_to_u64(t, b + 1, c);
    proof {
        lemma_digits_value_bound(t@.subrange(b + 1, c as int));
        lemma_pow10_small((c - b - 1) as nat);
        lemma_pow10_monotonic((c - b - 1) as nat, 9);
        reveal_with_fuel(pow10, 10);
        if c - b - 1 <= 3 {
            lemma_pow10_monotonic((c - b - 1) as nat, 3);
        } else if c - b - 1 <= 6 {
            lemma_pow10_monotonic((c - b - 1) as nat, 6);
        }
    }
    let len = c - b - 1;
    let nano = if len <= 3 {
        frac * 1_000_000
    } else if len <= 6 {
        frac * 1_000
    } else {
        frac
    };
    Some(DateTime { minute: minute as u32, second: second as u32, nano: nano as u32, ..*anchor })
}

/// The value that the raw pair `(k, raw)` of a record stands for: its time for the key
/// `time`, else the raw text promoted as `text_value` does.
pub open spec fn pair_value(k: Seq<u8>, raw: Seq<u8>, time: DateTime) -> ValueView {
    if k == time_key() {
        ValueView::DateTime(time)
    } else {
        text_value(raw)
    }
}

/// The field map built from a record's pairs, its time field standing as `time`.
pub open spec fn fields_view(pairs: Seq<(Seq<u8>, Seq<u8>)>, time: DateTime) -> Seq<
    (Seq<u8>, ValueView),
>
    decreases pairs.len(),
{
    if pairs.len() == 0 {
        Seq::empty()
    } else {
        let (k, raw) = pairs.last();
        inserted(fields_view(pairs.drop_last(), time), k, pair_value(k, raw, time))
    }
}

/// The field map of the record that starts at `pos` of `s` (`None` when malformed).
pub open spec fn record_map(s: Seq<u8>, pos: int, time: DateTime) -> Option<
    Seq<(Seq<u8>, ValueView)>,
> {
    match record_fields(s, pos) {
        Some((pairs, _)) => Some(fields_view(pairs, time)),
        None => None,
    }
}

fn is_time_key(k: &Vec<u8>) -> (r: bool)
    ensures
        r == (k@ == time_key()),
{
    let r = k.len() == 4 && k[0] == 116 && k[1] == 105 && k[2] == 109 && k[3] == 101;
    proof {
        if r {
            assert(k@ =~= time_key());
        } else if k@ == time_key() {
            assert(k@[0] == 116 && k@[1] == 105 && k@[2] == 109 && k@[3] == 101);
        }
    }
    r
}

/// The pairs yielded so far, followed by the rest of a run.
pub open spec fn joined(
    done: Seq<(Seq<u8>, Seq<u8>)>,
    rest: Option<(Seq<(Seq<u8>, Seq<u8>)>, int)>,
) -> Option<(Seq<(Seq<u8>, Seq<u8>)>, int)> {
    match rest {
        Some((p, e)) => Some((done + p, e)),
        None => None,
    }
}

/// The field map of the record that starts at `pos` of `s`, with `time` standing for its
/// time field, and the position after the record.
pub fn record_field_map(s: Vec<u8>, pos: usize, time: DateTime) -> (r: Result<
    (FieldMap, usize),
    MalformedRecord,
>)
    requires
        pos <= s@.len(),
    ensures
        match r {
            Ok((m, end)) => record_fields(s@, pos as int) matches Some((pairs, e)) && e == end
                && m.wf() && m@ == fields_view(pairs, time),
            Err(_) => record_fields(s@, pos as int) is None,
        },
{
    let ghost sv = s@;
    let mut f = Fields::starting_at(s, pos);
    let mut m = FieldMap::new();
    let ghost mut done: Seq<(Seq<u8>, Seq<u8>)> = Seq::empty();
    loop
        invariant
            f.wf(),
            f.input() == sv,
            m.wf(),
            m@ == fields_view(done, time),
            record_fields(sv, pos as int) == joined(
                done,
                fields_run(sv, f.parse_state(), f.position()),
            ),
            sv == s@,
            0 <= f.position() <= sv.len(),
        decreases sv.len() - f.position(), if f.parse_state() is Finish { 0int } else { 1int },
    {
        let ghost st = f.parse_state();
        let ghost p = f.position();
        proof {
            lemma_step_advances(sv, st, p);
        }
        match f.parse_field() {
            Ok(Some((k, v))) => {
                let ghost kv = (k@, v@);
                let val = if is_time_key(&k) {
                    Value::DateTime(time)
                } else {
                    Value::from_text(v)
                };
                let ghost gk = k@;
                let ghost gval = val@;
                assert(gval == pair_value(kv.0, kv.1, time));
                m.insert(k, val);
                proof {
                    let (step, st2, p2) = field_step(sv, st, p);
                    assert(p < p2 <= sv.len());
                    let nd = done.push(kv);
                    assert(nd.drop_last() =~= done);
                    match fields_run(sv, st2, p2) {
                        Some((rest, end)) => {
                            assert(done + (seq![kv] + rest) =~= nd + rest);
                        },
                        None => {},
                    }
                    done = nd;
                }
            },
            Ok(None) => {
                let end = f.current();
                proof {
                    let (step, st2, p2) = field_step(sv, st, p);
                    assert(step is End);
                    assert(fields_run(sv, st, p) == Some((Seq::<(Seq<u8>, Seq<u8>)>::empty(), p2)));
                    assert(done + Seq::<(Seq<u8>, Seq<u8>)>::empty() =~= done);
                }
                return Ok((m, end));
            },
            Err(e) => {
                proof {
                    let (step, st2, p2) = field_step(sv, st, p);
                    assert(step is Bad);
                    assert(fields_run(sv, st, p) is None);
                }
                return Err(e);
            },
        }
    }
}

/// A record of a source file: which file, its time, and where its bytes lie.
#[derive(Clone, Copy, Debug, PartialEq, Eq, Structural)]
pub struct LogString {
    pub file: usize,
    pub time: DateTime,
    pub begin: usize,
    pub size: usize,
}

/// The value of field `name` of a record whose bytes are `s` and time `time`: the time for
/// `time`, else the first pair of that key, promoted as `text_value` does.
pub open spec fn first_value(
    pairs: Seq<(Seq<u8>, Seq<u8>)>,
    name: Seq<u8>,
) -> Option<ValueView>
    decreases pairs.len(),
{
    if pairs.len() == 0 {
        None
    } else if pairs[0].0 == name {
        Some(text_value(pairs[0].1))
    } else {
        first_value(pairs.drop_first(), name)
    }
}

impl LogString {
    pub fn new(file: usize, time: DateTime, begin: usize, size: usize) -> (r: LogString)
        ensures
            r == (LogString { file, time, begin, size }),
    {
        LogString { file, time, begin, size }
    }

    /// Offset of the record's first byte in its file.
    pub fn begin(&self) -> (r: usize)
        ensures
            r == self.begin,
    {
        self.begin
    }

    /// Number of bytes of the record.
    pub fn len(&self) -> (r: usize)
        ensures
            r == self.size,
    {
        self.size
    }

    /// The field map of the record, given its bytes.
    pub fn fields(&self, content: Vec<u8>) -> (r: Result<FieldMap, MalformedRecord>)
        ensures
            match r {
                Ok(m) => m.wf() && record_map(content@, 0, self.time) == Some(m@),
                Err(_) => record_map(content@, 0, self.time) is None,
            },
    {
        match record_field_map(content, 0, self.time) {
            Ok((m, _)) => Ok(m),
            Err(e) => Err(e),
        }
    }

    /// The value of field `name`, given the record's bytes: its time for `time`, else
    /// the first value of that key (`None` where there is none or the record is malformed).
    pub fn get(&self, name: &[u8], content: Vec<u8>) -> (r: Option<Value>)
        ensures
            name@ == time_key() ==> r == Some(Value::DateTime(self.time)),
            name@ != time_key() ==> match record_fields(content@, 0) {
                Some((pairs, _)) => match r {
                    Some(v) => first_value(pairs, name@) == Some(v@),
                    None => first_value(pairs, name@) is None,
                },
                None => r is None,
            },
    {
        if name.len() == 4 && name[0] == 116 && name[1] == 105 && name[2] == 109 && name[3] == 101 {
            assert(name@ =~= time_key());
            return Some(Value::DateTime(self.time));
        }
        proof {
            if name@ == time_key() {
                assert(name@[0] == 116 && name@[1] == 105 && name@[2] == 109 && name@[3] == 101);
            }
        }
        let ghost sv = content@;
        let mut f = Fields::new(content);
        let mut found: Option<Value> = None;
        let ghost mut done: Seq<(Seq<u8>, Seq<u8>)> = Seq::empty();
        loop
            invariant
                f.wf(),
                f.input() == sv,
                sv == content@,
                name@ != time_key(),
                record_fields(sv, 0) == joined(done, fields_run(sv, f.parse_state(), f.position())),
                match found {
                    Some(v) => first_value(done, name@) == Some(v@),
                    None => first_value(done, name@) is None,
                },
                0 <= f.position() <= sv.len(),
            decreases sv.len() - f.position(), if f.parse_state() is Finish { 0int } else { 1int },
        {
            let ghost st = f.parse_state();
            let ghost p = f.position();
            proof {
                lemma_step_advances(sv, st, p);
            }
            match f.parse_field() {
                Ok(Some((k, v))) => {
                    let ghost kv = (k@, v@);
                    let ghost nd = done.push(kv);
                    proof {
                        let (step, st2, p2) = field_step(sv, st, p);
                        match fields_run(sv, st2, p2) {
                            Some((rest, end)) => {
                                assert(done + (seq![kv] + rest) =~= nd + rest);
                            },
                            None => {},
                        }
                        lemma_first_value_push(done, kv, name@);
                    }
                    if found.is_none() && crate::eval::bytes_equal(k.as_slice(), name) {
                        found = Some(Value::from_text(v));
                    }
                    proof {
                        done = nd;
                    }
                },
                Ok(None) => {
                    proof {
                        let (step, st2, p2) = field_step(sv, st, p);
                        assert(step is End);
                        assert(fields_run(sv, st, p) == Some((Seq::<(Seq<u8>, Seq<u8>)>::empty(), p2)));
                        assert(done + Seq::<(Seq<u8>, Seq<u8>)>::empty() =~= done);
                    }
                    return found;
                },
                Err(_) => {
                    proof {
                        let (step, st2, p2) = field_step(sv, st, p);
                        assert(step is Bad);
                        assert(fields_run(sv, st, p) is None);
                    }
                    return None;
                },
            }
        }
    }
}

proof fn lemma_first_value_push(
    done: Seq<(Seq<u8>, Seq<u8>)>,
    kv: (Seq<u8>, Seq<u8>),
    name: Seq<u8>,
)
    ensures
        first_value(done.push(kv), name) == match first_value(done, name) {
            Some(x) => Some(x),
            None => if kv.0 == name {
                Some(text_value(kv.1))
            } else {
                None
            },
        },
    decreases done.len(),
{
    let d = done.push(kv);
    if done.len() > 0 {
        assert(d[0] == done[0]);
        assert(d.drop_first() =~= done.drop_first().push(kv));
        lemma_first_value_push(done.drop_first(), kv, name);
    } else {
        assert(d[0] == kv);
        assert(d.drop_first() =~= Seq::<(Seq<u8>, Seq<u8>)>::empty());
        assert(first_value(d.drop_first(), name) is None);
    }
}

} // verus!
