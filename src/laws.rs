//! Properties of the collection, the record parser and the compiler.
use crate::datetime::DateTime;
use crate::fieldmap::{inserted, keys_unique, lookup, merged};
use crate::fields::record_fields;
use crate::value::ValueView;
use crate::logdata::{row_accepted, LogCollection};
use crate::query::compile_text;
use crate::token::date_literal;
use vstd::prelude::*;

verus! {

/// The mapping is strictly increasing, and every index in it is a valid record index.
pub proof fn mapping_is_increasing_and_valid(c: LogCollection)
    requires
        c.wf(),
    ensures
        forall|k: int, l: int|
            0 <= k < l < c.mapping().len() ==> #[trigger] c.mapping()[k] < #[trigger] c.mapping()[l],
        forall|k: int| 0 <= k < c.mapping().len() ==> #[trigger] c.mapping()[k] < c.lines().len(),
{
}

/// Rows are in time order: the record of a row never comes after that of the next row.
pub proof fn rows_are_in_time_order(c: LogCollection, row: int)
    requires
        c.wf(),
        0 <= row,
        row + 1 < c.mapping().len(),
    ensures
        !c.lines()[c.mapping()[row + 1] as int].time.is_before(c.lines()[c.mapping()[row] as int].time),
{
    assert(c.mapping()[row] < c.mapping()[row + 1]);
}

/// Once the worker has tested every record, a record is in the mapping exactly when the
/// filter accepts the fields of the bytes handed in for it.
pub proof fn mapping_matches_filter(c: LogCollection)
    requires
        c.wf(),
        c.cursor() == c.lines().len(),
    ensures
        forall|i: int|
            0 <= i < c.lines().len() ==> (c.mapping().contains(i as usize) <==> row_accepted(
                c.filter(),
                #[trigger] c.tested()[i],
                c.lines()[i].time,
            )),
{
}

/// Without a filter, once the worker has caught up, every record is a row.
pub proof fn cleared_filter_shows_all(c: LogCollection)
    requires
        c.wf(),
        c.filter() is None,
        c.cursor() == c.lines().len(),
    ensures
        c.mapping().len() == c.lines().len(),
        forall|i: int| 0 <= i < c.lines().len() ==> #[trigger] c.mapping()[i] == i,
{
    assert forall|i: int| 0 <= i < c.lines().len() implies #[trigger] c.mapping()[i] == i by {
        assert(c.mapping() == Seq::new(c.cursor() as nat, |k: int| k as usize));
    }
}

/// Parsing a record is deterministic: the same bytes give the same pairs.
pub proof fn record_parse_is_deterministic(a: Seq<u8>, b: Seq<u8>, pos: int)
    requires
        a == b,
    ensures
        record_fields(a, pos) == record_fields(b, pos),
{
}

/// Compiling is deterministic for a given moment: the same text gives the same query
/// or the same error.
pub proof fn compile_is_deterministic(a: Seq<u8>, b: Seq<u8>, now: DateTime)
    requires
        a == b,
    ensures
        compile_text(a, now) == compile_text(b, now),
{
}

/// Adding a value under a key: a new key gets the value; a key already present gets its
/// values followed by the new one (a `Multi`); every other key keeps its value.
pub proof fn insert_then_lookup(
    e: Seq<(Seq<u8>, ValueView)>,
    k: Seq<u8>,
    v: ValueView,
    other: Seq<u8>,
)
    requires
        keys_unique(e),
    ensures
        lookup(inserted(e, k, v), k) == Some(
            match lookup(e, k) {
                None => v,
                Some(p) => merged(p, v),
            },
        ),
        other != k ==> lookup(inserted(e, k, v), other) == lookup(e, other),
        keys_unique(inserted(e, k, v)),
{
    let n = inserted(e, k, v);
    if exists|i: int| 0 <= i < e.len() && e[i].0 == k {
        let i = choose|i: int| 0 <= i < e.len() && e[i].0 == k;
        assert(n == e.update(i, (k, merged(e[i].1, v))));
        assert(n[i].0 == k);
        let c = choose|c: int| 0 <= c < n.len() && n[c].0 == k;
        assert(c == i);
        if exists|j: int| 0 <= j < n.len() && n[j].0 == other {
            let j = choose|j: int| 0 <= j < n.len() && n[j].0 == other;
            if other != k {
                assert(e[j].0 == other);
                let d = choose|d: int| 0 <= d < e.len() && e[d].0 == other;
                assert(d == j);
            }
        } else if other != k {
            assert forall|d: int| 0 <= d < e.len() implies e[d].0 != other by {
                if d != i {
                    assert(n[d] == e[d]);
                }
            }
        }
    } else {
        assert(n == e.push((k, v)));
        assert(n[e.len() as int].0 == k);
        let c = choose|c: int| 0 <= c < n.len() && n[c].0 == k;
        assert(c == e.len());
        if other != k {
            if exists|d: int| 0 <= d < e.len() && e[d].0 == other {
                let d = choose|d: int| 0 <= d < e.len() && e[d].0 == other;
                assert(n[d].0 == other);
                let j = choose|j: int| 0 <= j < n.len() && n[j].0 == other;
                assert(j == d);
            } else {
                assert forall|j: int| 0 <= j < n.len() implies n[j].0 != other by {
                    if j < e.len() {
                        assert(n[j] == e[j]);
                    }
                }
            }
        }
    }
}

/// Date literals are frozen at the compiler's moment: `now` is that moment, and a literal
/// that does not start with `now` is the same whatever the moment.
pub proof fn date_literals_use_the_compile_moment(c: Seq<u8>, now: DateTime, other: DateTime)
    ensures
        c == seq![110u8, 111, 119] ==> date_literal(c, now) == Ok::<
            DateTime,
            crate::token::ParseErrorView,
        >(now),
        !(c.len() >= 3 && c.subrange(0, 3) == seq![110u8, 111, 119]) ==> date_literal(c, now)
            == date_literal(c, other),
{
    if c == seq![110u8, 111, 119] {
        assert(c.subrange(0, 3) =~= c);
    }
}

} // verus!
