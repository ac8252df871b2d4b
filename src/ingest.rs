//! Ingestion: the records of the files of one hour, merged into time order.
use crate::datetime::DateTime;
use crate::fields::{field_step, fields_run, lemma_step_advances, record_fields, Fields, ParseState};
use crate::record::{joined, parse_time, record_time, LogString};
use vstd::prelude::*;

verus! {

/// Where the records of a file start: after a UTF-8 byte order mark, if there is one.
pub open spec fn content_start(s: Seq<u8>) -> int {
    if s.len() >= 3 && s[0] == 0xEF && s[1] == 0xBB && s[2] == 0xBF {
        3
    } else {
        0
    }
}

/// Reads log files: the hour of a file name, the tiers of files by hour, and the records
/// of a tier in time order.
pub struct LogParser;

/// `t` is too early for the lower bound `from`.
pub open spec fn too_early(t: DateTime, from: Option<DateTime>) -> bool {
    match from {
        Some(f) => t.is_before(f),
        None => false,
    }
}

/// The records of file `file` with bytes `s` in the hour `anchor`, from `pos` on: each
/// well-formed record whose time is not before `from`. Reading stops at the end of the
/// input and at the first malformed record. Record offsets count from the start of the
/// content, after any byte order mark.
pub open spec fn file_records(
    s: Seq<u8>,
    file: usize,
    anchor: DateTime,
    from: Option<DateTime>,
    pos: int,
) -> Seq<LogString>
    decreases s.len() - pos,
{
    match record_fields(s, pos) {
        Some((pairs, end)) => if pairs.len() > 0 && pos < end <= s.len() && 0 <= pos {
            match record_time(anchor, pairs[0].1) {
                Some(t) => {
                    let rest = file_records(s, file, anchor, from, end);
                    if too_early(t, from) {
                        rest
                    } else {
                        seq![LogString { file, time: t, begin: (pos - content_start(s)) as usize, size: (end - pos) as usize }]
                            + rest
                    }
                },
                None => Seq::empty(),
            }
        } else {
            Seq::empty()
        },
        None => Seq::empty(),
    }
}

/// Reads the record at the parser's position: its time text, where it starts and where it
/// ends; `None` at the end of the input or for a malformed record.
fn next_record(f: &mut Fields) -> (r: Option<(Vec<u8>, usize, usize)>)
    requires
        old(f).wf(),
        old(f).parse_state() == ParseState::StartLogLine,
    ensures
        final(f).wf(),
        final(f).input() == old(f).input(),
        match r {
            Some((t, b, e)) => {
                &&& b == old(f).position()
                &&& record_fields(old(f).input(), b as int) matches Some((pairs, end))
                &&& end == e
                &&& pairs.len() > 0
                &&& pairs[0].1 == t@
                &&& b < e <= old(f).input().len()
                &&& final(f).parse_state() == ParseState::StartLogLine
                &&& final(f).position() == e
            },
            None => record_fields(old(f).input(), old(f).position()) matches Some((pairs, _))
                ==> pairs.len() == 0,
        },
{
    let ghost sv = f.input();
    let begin = f.current();
    proof {
        lemma_step_advances(sv, ParseState::StartLogLine, begin as int);
    }
    let time_text = match f.parse_field() {
        Ok(Some((_, v))) => v,
        _ => {
            return None;
        },
    };
    let ghost first = field_step(sv, ParseState::StartLogLine, begin as int);
    let ghost mut done: Seq<(Seq<u8>, Seq<u8>)> = seq![(first.0->Field_0, time_text@)];
    proof {
        match fields_run(sv, first.1, first.2) {
            Some((rest, e)) => {
                assert(seq![(first.0->Field_0, time_text@)] + rest == done + rest);
            },
            None => {},
        }
    }
    loop
        invariant
            f.wf(),
            f.input() == sv,
            sv == old(f).input(),
            begin == old(f).position(),
            done.len() > 0,
            done[0].1 == time_text@,
            record_fields(sv, begin as int) == joined(
                done,
                fields_run(sv, f.parse_state(), f.position()),
            ),
            begin < f.position() <= sv.len(),
        decreases sv.len() - f.position(), if f.parse_state() is Finish { 0int } else { 1int },
    {
        let ghost st = f.parse_state();
        let ghost p = f.position();
        proof {
            lemma_step_advances(sv, st, p);
        }
        match f.parse_field() {
            Ok(Some((k, v))) => {
                let ghost kv = (k@, v@);
                proof {
                    let (step, st2, p2) = field_step(sv, st, p);
                    let nd = done.push(kv);
                    match fields_run(sv, st2, p2) {
                        Some((rest, end)) => {
                            assert(done + (seq![kv] + rest) =~= nd + rest);
                        },
                        None => {},
                    }
                    done = nd;
                }
            },
            Ok(None) => {
                let end = f.current();
                proof {
                    let (step, st2, p2) = field_step(sv, st, p);
                    assert(fields_run(sv, st, p) == Some((Seq::<(Seq<u8>, Seq<u8>)>::empty(), p2)));
                    assert(done + Seq::<(Seq<u8>, Seq<u8>)>::empty() =~= done);
                }
                return Some((time_text, begin, end));
            },
            Err(_) => {
                proof {
                    let (step, st2, p2) = field_step(sv, st, p);
                    assert(fields_run(sv, st, p) is None);
                }
                return None;
            },
        }
    }
}

impl LogParser {
/// The records of one file (see `file_records`), starting after a byte order mark;
/// a record's `begin` counts from there.
pub fn read_file_records(
    content: Vec<u8>,
    file: usize,
    anchor: DateTime,
    from: Option<DateTime>,
) -> (r: Vec<LogString>)
    requires
        anchor.valid(),
    ensures
        r@ == file_records(content@, file, anchor, from, content_start(content@)),
        forall|i: int| 0 <= i < r@.len() ==> (#[trigger] r@[i]).file == file,
{
    let ghost sv = content@;
    let start: usize = if content.len() >= 3 && content[0] == 0xEF && content[1] == 0xBB
        && content[2] == 0xBF {
        3
    } else {
        0
    };
    let mut f = Fields::starting_at(content, start);
    let mut out: Vec<LogString> = Vec::new();
    loop
        invariant
            f.wf(),
            f.input() == sv,
            f.parse_state() == ParseState::StartLogLine,
            0 <= f.position() <= sv.len(),
            start == content_start(sv),
            start <= f.position(),
            sv == content@,
            anchor.valid(),
            file_records(sv, file, anchor, from, content_start(sv)) == out@ + file_records(
                sv,
                file,
                anchor,
                from,
                f.position(),
            ),
            forall|i: int| 0 <= i < out@.len() ==> (#[trigger] out@[i]).file == file,
        decreases sv.len() - f.position(),
    {
        let ghost p = f.position();
        match next_record(&mut f) {
            None => {
                proof {
                    assert(file_records(sv, file, anchor, from, p) =~= Seq::<LogString>::empty());
                    assert(out@ + Seq::<LogString>::empty() =~= out@);
                }
                return out;
            },
            Some((t, b, e)) => {
                match parse_time(&anchor, t.as_slice()) {
                    None => {
                        proof {
                            assert(file_records(sv, file, anchor, from, p) =~= Seq::<
                                LogString,
                            >::empty());
                            assert(out@ + Seq::<LogString>::empty() =~= out@);
                        }
                        return out;
                    },
                    Some(time) => {
                        let early = match from {
                            Some(fr) => time.before(&fr),
                            None => false,
                        };
                        if !early {
                            let rec = LogString { file, time, begin: b - start, size: e - b };
                            proof {
                                let rest = file_records(sv, file, anchor, from, e as int);
                                assert(out@ + (seq![rec] + rest) =~= out@.push(rec) + rest);
                            }
                            out.push(rec);
                        }
                    },
                }
            },
        }
    }
}

}

/// `a` is merged before `b`: earlier in time, or at the same time from an earlier file.
pub open spec fn merged_before(a: LogString, b: LogString) -> bool {
    a.time.is_before(b.time) || (a.time == b.time && a.file < b.file)
}

/// The records of a sequence are in time order.
pub open spec fn time_ordered(s: Seq<LogString>) -> bool {
    forall|i: int, j: int| 0 <= i < j < s.len() ==> !(#[trigger] s[j]).time.is_before(
        #[trigger] s[i].time,
    )
}

/// The records of `out` that come from file `f`.
pub open spec fn from_file(out: Seq<LogString>, f: int) -> Seq<LogString> {
    out.filter(|x: LogString| x.file == f)
}

proof fn lemma_merged_before_order(a: LogString, b: LogString, c: LogString)
    ensures
        !merged_before(b, a) && !merged_before(c, b) ==> !merged_before(c, a),
        merged_before(a, b) ==> !merged_before(b, a),
        a.file != b.file ==> merged_before(a, b) || merged_before(b, a),
{
    crate::datetime::lemma_before_transitive(a.time, b.time, c.time);
    crate::datetime::lemma_before_transitive(c.time, b.time, a.time);
    crate::datetime::lemma_before_total(a.time, b.time);
    crate::datetime::lemma_before_total(b.time, c.time);
    crate::datetime::lemma_before_total(a.time, c.time);
}

/// Merges the record lists of the files of one hour, list `f` holding the records of file
/// `f`: each file's records keep their order, and where every list is in time order the
/// result is in time order, records of equal time in file order.
pub fn merge_records(lists: &Vec<Vec<LogString>>) -> (r: Vec<LogString>)
    requires
        forall|f: int, i: int|
            0 <= f < lists@.len() && 0 <= i < lists@[f]@.len() ==> (#[trigger] lists@[f]@[i]).file
                == f,
    ensures
        forall|f: int| 0 <= f < lists@.len() ==> from_file(r@, f) == #[trigger] lists@[f]@,
        forall|i: int| 0 <= i < r@.len() ==> (#[trigger] r@[i]).file < lists@.len(),
        (forall|f: int| 0 <= f < lists@.len() ==> time_ordered(#[trigger] lists@[f]@)) ==> (
        forall|i: int, j: int|
            0 <= i < j < r@.len() ==> !merged_before(#[trigger] r@[j], #[trigger] r@[i])),
{
    let n = lists.len();
    let mut cursors: Vec<usize> = Vec::new();
    let mut k: usize = 0;
    while k < n
        invariant
            k <= n,
            n == lists@.len(),
            cursors@.len() == k,
            forall|f: int| 0 <= f < k ==> #[trigger] cursors@[f] == 0,
        decreases n - k,
    {
        cursors.push(0);
        k = k + 1;
    }
    let mut out: Vec<LogString> = Vec::new();
    let ghost sorted_in = forall|f: int| 0 <= f < lists@.len() ==> time_ordered(#[trigger] lists@[f]@);
    proof {
        assert forall|f: int| 0 <= f < lists@.len() implies from_file(out@, f) == (
        #[trigger] lists@[f]@).take(cursors@[f] as int) by {
            assert(from_file(out@, f) =~= Seq::<LogString>::empty());
            assert(lists@[f]@.take(0) =~= Seq::<LogString>::empty());
        }
    }
    loop
        invariant
            n == lists@.len(),
            cursors@.len() == n,
            forall|f: int, i: int|
                0 <= f < lists@.len() && 0 <= i < lists@[f]@.len() ==> (#[trigger] lists@[f]@[i]).file
                    == f,
            forall|f: int| 0 <= f < n ==> #[trigger] cursors@[f] <= lists@[f]@.len(),
            forall|f: int|
                0 <= f < n ==> from_file(out@, f) == (#[trigger] lists@[f]@).take(
                    cursors@[f] as int,
                ),
            forall|i: int| 0 <= i < out@.len() ==> (#[trigger] out@[i]).file < n,
            sorted_in == (forall|f: int| 0 <= f < lists@.len() ==> time_ordered(#[trigger] lists@[f]@)),
            sorted_in ==> forall|i: int, j: int|
                0 <= i < j < out@.len() ==> !merged_before(#[trigger] out@[j], #[trigger] out@[i]),
            sorted_in && out@.len() > 0 ==> forall|f: int|
                0 <= f < n && #[trigger] cursors@[f] < lists@[f]@.len() ==> !merged_before(
                    lists@[f]@[cursors@[f] as int],
                    out@.last(),
                ),
        decreases total_left(lists@, cursors@, n as int),
    {
        let mut best: Option<usize> = None;
        let mut f: usize = 0;
        while f < n
            invariant
                f <= n,
                n == lists@.len(),
                cursors@.len() == n,
                forall|g: int| 0 <= g < n ==> #[trigger] cursors@[g] <= lists@[g]@.len(),
                forall|f2: int, i: int|
                    0 <= f2 < lists@.len() && 0 <= i < lists@[f2]@.len() ==> (
                    #[trigger] lists@[f2]@[i]).file == f2,
                match best {
                    Some(b) => b < f && cursors@[b as int] < lists@[b as int]@.len() && forall|
                        g: int,
                    |
                        0 <= g < f && #[trigger] cursors@[g] < lists@[g]@.len() ==> !merged_before(
                            lists@[g]@[cursors@[g] as int],
                            lists@[b as int]@[cursors@[b as int] as int],
                        ),
                    None => forall|g: int| 0 <= g < f ==> #[trigger] cursors@[g] >= lists@[g]@.len(),
                },
            decreases n - f,
        {
            let c = cursors[f];
            if c < lists[f].len() {
                let cand = lists[f][c];
                match best {
                    None => {
                        best = Some(f);
                    },
                    Some(b) => {
                        let cur = lists[b][cursors[b]];
                        proof {
                            lemma_merged_before_order(cand, cur, cur);
                        }
                        if cand.time.before(&cur.time) {
                            proof {
                                assert forall|g: int|
                                    0 <= g < f + 1 && #[trigger] cursors@[g] < lists@[g]@.len()
                                        implies !merged_before(
                                    lists@[g]@[cursors@[g] as int],
                                    cand,
                                ) by {
                                    if g < f {
                                        lemma_merged_before_order(
                                            cand,
                                            cur,
                                            lists@[g]@[cursors@[g] as int],
                                        );
                                    }
                                }
                            }
                            best = Some(f);
                        }
                    },
                }
            }
            f = f + 1;
        }
        match best {
            None => {
                proof {
                    assert forall|g: int| 0 <= g < n implies from_file(out@, g) == #[trigger] lists@[g]@ by {
                        assert(lists@[g]@.take(cursors@[g] as int) =~= lists@[g]@);
                    }
                }
                return out;
            },
            Some(b) => {
                let c = cursors[b];
                let lb = lists[b].len();
                assert(c < lb);
                let item = lists[b][c];
                let ghost o0 = out@;
                let ghost c0 = cursors@;
                out.push(item);
                cursors.set(b, c + 1);
                proof {
                    assert forall|g: int| 0 <= g < n implies from_file(out@, g) == (
                    #[trigger] lists@[g]@).take(cursors@[g] as int) by {
                        o0.lemma_filter_push(item, |x: LogString| x.file == g);
                        if g == b {
                            assert(lists@[g]@.take(c + 1) =~= lists@[g]@.take(c as int).push(item));
                        }
                    }
                    if sorted_in {
                        assert forall|i: int, j: int|
                            0 <= i < j < out@.len() implies !merged_before(
                            #[trigger] out@[j],
                            #[trigger] out@[i],
                        ) by {
                            if j == o0.len() && i < o0.len() {
                                lemma_merged_before_order(out@[i], o0.last(), item);
                                assert(c0[item.file as int] == c);
                            }
                        }
                        assert forall|g: int|
                            0 <= g < n && #[trigger] cursors@[g] < lists@[g]@.len() implies !merged_before(
                            lists@[g]@[cursors@[g] as int],
                            out@.last(),
                        ) by {
                            if g == b {
                                assert(time_ordered(lists@[g]@));
                                assert(!lists@[g]@[c + 1].time.is_before(lists@[g]@[c as int].time));
                            }
                        }
                    }
                    lemma_total_left_step(lists@, c0, cursors@, n as int, b as int);
                }
            },
        }
    }
}

/// How many records are left in the lists from the cursors on, over the first `k` lists.
pub open spec fn total_left(lists: Seq<Vec<LogString>>, cursors: Seq<usize>, k: int) -> int
    decreases k,
{
    if k <= 0 {
        0
    } else {
        total_left(lists, cursors, k - 1) + (lists[k - 1]@.len() - cursors[k - 1])
    }
}

proof fn lemma_total_left_step(
    lists: Seq<Vec<LogString>>,
    c0: Seq<usize>,
    c1: Seq<usize>,
    k: int,
    b: int,
)
    requires
        0 <= b < k,
        k <= c0.len(),
        c1 == c0.update(b, (c0[b] + 1) as usize),
        k <= lists.len(),
        c0[b] < lists[b]@.len(),
        c0[b] + 1 <= usize::MAX,
        forall|g: int| 0 <= g < k ==> #[trigger] c0[g] <= lists[g]@.len(),
    ensures
        total_left(lists, c1, k) == total_left(lists, c0, k) - 1,
        total_left(lists, c1, k) >= 0,
    decreases k,
{
    if k - 1 > b {
        lemma_total_left_step(lists, c0, c1, k - 1, b);
        assert(c1[k - 1] == c0[k - 1]);
    } else {
        lemma_total_left_same(lists, c0, c1, k - 1);
        assert(c1[b] == c0[b] + 1);
    }
    assert forall|g: int| 0 <= g < k implies #[trigger] c1[g] <= lists[g]@.len() by {
        if g != b {
            assert(c1[g] == c0[g]);
        }
    }
    lemma_total_left_nonneg(lists, c1, k);
}

proof fn lemma_total_left_same(lists: Seq<Vec<LogString>>, c0: Seq<usize>, c1: Seq<usize>, k: int)
    requires
        forall|g: int| 0 <= g < k ==> c0[g] == c1[g],
    ensures
        total_left(lists, c1, k) == total_left(lists, c0, k),
    decreases k,
{
    if k > 0 {
        lemma_total_left_same(lists, c0, c1, k - 1);
    }
}

proof fn lemma_total_left_nonneg(lists: Seq<Vec<LogString>>, c: Seq<usize>, k: int)
    requires
        k <= c.len(),
        k <= lists.len(),
        forall|g: int| 0 <= g < k ==> #[trigger] c[g] <= lists[g]@.len(),
    ensures
        total_left(lists, c, k) >= 0,
    decreases k,
{
    if k > 0 {
        lemma_total_left_nonneg(lists, c, k - 1);
    }
}

impl LogParser {
/// The records of the files of one hour, file `f` having bytes `contents[f]`, merged:
/// each file's records (see `file_records`) keep their order, and where each file's
/// records are in time order so is the result, records of equal time in file order.
pub fn merge_tier(contents: &Vec<Vec<u8>>, anchor: DateTime, from: Option<DateTime>) -> (r: Vec<
    LogString,
>)
    requires
        anchor.valid(),
    ensures
        forall|f: int|
            0 <= f < contents@.len() ==> from_file(r@, f) == file_records(
                #[trigger] contents@[f]@,
                f as usize,
                anchor,
                from,
                content_start(contents@[f]@),
            ),
        forall|i: int| 0 <= i < r@.len() ==> (#[trigger] r@[i]).file < contents@.len(),
        (forall|f: int|
            0 <= f < contents@.len() ==> time_ordered(
                file_records(
                    #[trigger] contents@[f]@,
                    f as usize,
                    anchor,
                    from,
                    content_start(contents@[f]@),
                ),
            )) ==> (forall|i: int, j: int|
            0 <= i < j < r@.len() ==> !merged_before(#[trigger] r@[j], #[trigger] r@[i])),
{
    let ghost cs = contents@;
    let n = contents.len();
    let mut lists: Vec<Vec<LogString>> = Vec::new();
    let mut k: usize = 0;
    while k < n
        invariant
            k <= n,
            n == cs.len(),
            cs == contents@,
            anchor.valid(),
            lists@.len() == k,
            forall|f: int|
                0 <= f < k ==> (#[trigger] lists@[f])@ == file_records(
                    cs[f]@,
                    f as usize,
                    anchor,
                    from,
                    content_start(cs[f]@),
                ),
            forall|f: int, i: int|
                0 <= f < k && 0 <= i < lists@[f]@.len() ==> (#[trigger] lists@[f]@[i]).file == f,
        decreases n - k,
    {
        let c = crate::token::copy_all(&contents[k]);
        lists.push(LogParser::read_file_records(c, k, anchor, from));
        k = k + 1;
    }
    let r = merge_records(&lists);
    proof {
        assert forall|f: int| 0 <= f < contents@.len() implies from_file(r@, f) == file_records(
            #[trigger] contents@[f]@,
            f as usize,
            anchor,
            from,
            content_start(contents@[f]@),
        ) by {
            assert(from_file(r@, f) == lists@[f]@);
        }
        if forall|f: int|
            0 <= f < contents@.len() ==> time_ordered(
                file_records(
                    #[trigger] contents@[f]@,
                    f as usize,
                    anchor,
                    from,
                    content_start(contents@[f]@),
                ),
            ) {
            assert forall|f: int| 0 <= f < lists@.len() implies time_ordered(
                #[trigger] lists@[f]@,
            ) by {
                assert(lists@[f]@ == file_records(
                    contents@[f]@,
                    f as usize,
                    anchor,
                    from,
                    content_start(contents@[f]@),
                ));
            }
        }
    }
    r
}
}

} // verus!
