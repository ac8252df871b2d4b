//! Evaluation of a compiled query against the fields of one record.
use crate::fieldmap::{lookup, FieldMap};
use crate::fields::duration_key;
use crate::pattern::regex_finds;
use crate::query::{CmpOp, Query, QueryView};
use crate::token::{Token, TokenView};
use crate::value::{scalar_view, Value, ValueView};
use vstd::prelude::*;

verus! {

/// Byte strings in lexicographic order, from index `i` on.
pub open spec fn bytes_less_from(a: Seq<u8>, b: Seq<u8>, i: int) -> bool
    decreases a.len() - i,
{
    if i < 0 || i >= a.len() {
        i >= 0 && i < b.len()
    } else if i >= b.len() {
        false
    } else if a[i] != b[i] {
        a[i] < b[i]
    } else {
        bytes_less_from(a, b, i + 1)
    }
}

/// `a` comes before `b` in lexicographic byte order.
pub open spec fn bytes_less(a: Seq<u8>, b: Seq<u8>) -> bool {
    bytes_less_from(a, b, 0)
}

/// `op` applied to `a` and `b`, given `a == b` as `eq` and `a < b` as `lt`, `b < a` as `gt`.
pub open spec fn by_order(op: CmpOp, eq: bool, lt: bool, gt: bool) -> bool {
    match op {
        CmpOp::Equal => eq,
        CmpOp::NE => !eq,
        CmpOp::Less => lt,
        CmpOp::Greater => gt,
        CmpOp::LE => !gt,
        CmpOp::GE => !lt,
    }
}

/// A single (not `Multi`) value against a literal: the two must be of the same kind
/// (text with a string or a regular expression, number with number, date with date).
pub open spec fn scalar_holds(v: ValueView, op: CmpOp, lit: TokenView) -> bool {
    match (v, lit) {
        (ValueView::Text(t), TokenView::String(s)) => by_order(
            op,
            t == s,
            bytes_less(t, s),
            bytes_less(s, t),
        ),
        (ValueView::Text(t), TokenView::Regex(p)) => op == CmpOp::Equal && regex_finds(p, t),
        (ValueView::Number(n), TokenView::Number(m)) => by_order(
            op,
            n.units == m.units,
            n.units < m.units,
            m.units < n.units,
        ),
        (ValueView::DateTime(d), TokenView::Date(e)) => by_order(
            op,
            d == e,
            d.is_before(e),
            e.is_before(d),
        ),
        _ => false,
    }
}

/// Some item of `items` satisfies `op lit`.
pub open spec fn some_item_holds(items: Seq<ValueView>, op: CmpOp, lit: TokenView) -> bool {
    exists|i: int| 0 <= i < items.len() && scalar_holds(#[trigger] items[i], op, lit)
}

/// The condition `key op lit` on a record's fields `m`: false where the key is absent; on
/// a `Multi`, `=` and `!=` hold where some item satisfies them and ordering never holds.
pub open spec fn condition_holds(
    m: Seq<(Seq<u8>, ValueView)>,
    op: CmpOp,
    key: Seq<u8>,
    lit: TokenView,
) -> bool {
    match lookup(m, key) {
        None => false,
        Some(v) => match v {
            ValueView::Multi(items) => (op == CmpOp::Equal || op == CmpOp::NE) && some_item_holds(
                items,
                op,
                lit,
            ),
            _ => scalar_holds(v, op, lit),
        },
    }
}

/// `v` is text in which the expression `p` matches.
pub open spec fn text_found(v: ValueView, p: Seq<u8>) -> bool {
    match v {
        ValueView::Text(t) => regex_finds(p, t),
        _ => false,
    }
}

/// Free-text search: the expression matches some text value of the record, other than
/// its duration.
pub open spec fn search_holds(m: Seq<(Seq<u8>, ValueView)>, p: Seq<u8>) -> bool {
    exists|i: int, j: int|
        0 <= i < m.len() && 0 <= j < m[i].1.count() && m[i].0 != duration_key() && text_found(
            #[trigger] m[i].1.item(j),
            p,
        )
}

/// Whether the query accepts the record whose fields are `m`.
pub open spec fn query_holds(q: QueryView, m: Seq<(Seq<u8>, ValueView)>) -> bool
    decreases q,
{
    match q {
        QueryView::Expr(None) => true,
        QueryView::Expr(Some(e)) => query_holds(*e, m),
        QueryView::Regex(p) => search_holds(m, p),
        QueryView::And(a, b) => query_holds(*a, m) && query_holds(*b, m),
        QueryView::Or(a, b) => query_holds(*a, m) || query_holds(*b, m),
        QueryView::Compare(op, k, lit) => condition_holds(m, op, k, lit),
    }
}

/// Lexicographic order of byte strings.
pub fn bytes_before(a: &[u8], b: &[u8]) -> (r: bool)
    ensures
        r == bytes_less(a@, b@),
{
    let mut i: usize = 0;
    while i < a.len() && i < b.len() && a[i] == b[i]
        invariant
            i <= a@.len(),
            i <= b@.len(),
            bytes_less_from(a@, b@, i as int) == bytes_less(a@, b@),
        decreases a@.len() - i,
    {
        i = i + 1;
    }
    if i >= a.len() {
        i < b.len()
    } else if i >= b.len() {
        false
    } else {
        a[i] < b[i]
    }
}

pub fn bytes_equal(a: &[u8], b: &[u8]) -> (r: bool)
    ensures
        r == (a@ == b@),
{
    if a.len() != b.len() {
        return false;
    }
    let mut i: usize = 0;
    while i < a.len()
        invariant
            a@.len() == b@.len(),
            i <= a@.len(),
            forall|k: int| 0 <= k < i ==> a@[k] == b@[k],
        decreases a@.len() - i,
    {
        if a[i] != b[i] {
            return false;
        }
        i = i + 1;
    }
    assert(a@ =~= b@);
    true
}

fn order_result(op: CmpOp, eq: bool, lt: bool, gt: bool) -> (r: bool)
    ensures
        r == by_order(op, eq, lt, gt),
{
    match op {
        CmpOp::Equal => eq,
        CmpOp::NE => !eq,
        CmpOp::Less => lt,
        CmpOp::Greater => gt,
        CmpOp::LE => !gt,
        CmpOp::GE => !lt,
    }
}

/// A single value against a literal (see `scalar_holds`).
pub fn scalar_matches(v: &Value, op: CmpOp, lit: &Token) -> (r: bool)
    ensures
        r == scalar_holds(scalar_view(*v), op, lit@),
{
    match (v, lit) {
        (Value::Text(t), Token::String(s)) => {
            let eq = bytes_equal(t.as_slice(), s.as_slice());
            let lt = bytes_before(t.as_slice(), s.as_slice());
            let gt = bytes_before(s.as_slice(), t.as_slice());
            order_result(op, eq, lt, gt)
        },
        (Value::Text(t), Token::Regex(p)) => op == CmpOp::Equal && p.is_match(t.as_slice()),
        (Value::Number(n), Token::Number(m)) => order_result(
            op,
            n.units == m.units,
            n.units < m.units,
            m.units < n.units,
        ),
        (Value::DateTime(d), Token::Date(e)) => order_result(op, d == e, d.before(e), e.before(d)),
        _ => false,
    }
}

/// The condition `key op lit` on a record (see `condition_holds`).
pub fn condition_matches(m: &FieldMap, op: CmpOp, key: &[u8], lit: &Token) -> (r: bool)
    requires
        m.wf(),
    ensures
        r == condition_holds(m@, op, key@, lit@),
{
    match m.get(key) {
        None => false,
        Some(v) => match v {
            Value::Multi(items) => {
                if !(op == CmpOp::Equal || op == CmpOp::NE) {
                    return false;
                }
                let ghost iv = Seq::new(items@.len(), |j: int| scalar_view(items@[j]));
                assert(v@ == ValueView::Multi(iv));
                let mut i: usize = 0;
                while i < items.len()
                    invariant
                        i <= items@.len(),
                        iv == Seq::new(items@.len(), |j: int| scalar_view(items@[j])),
                        lookup(m@, key@) == Some(v@),
                        v@ == ValueView::Multi(iv),
                        op == CmpOp::Equal || op == CmpOp::NE,
                        forall|k: int| 0 <= k < i ==> !scalar_holds(#[trigger] iv[k], op, lit@),
                    decreases items@.len() - i,
                {
                    if scalar_matches(&items[i], op, lit) {
                        assert(scalar_holds(iv[i as int], op, lit@));
                        assert(some_item_holds(iv, op, lit@));
                        return true;
                    }
                    i = i + 1;
                }
                false
            },
            _ => scalar_matches(v, op, lit),
        },
    }
}

fn is_duration_key(k: &Vec<u8>) -> (r: bool)
    ensures
        r == (k@ == duration_key()),
{
    let r = k.len() == 8 && k[0] == 100 && k[1] == 117 && k[2] == 114 && k[3] == 97 && k[4] == 116
        && k[5] == 105 && k[6] == 111 && k[7] == 110;
    proof {
        if r {
            assert(k@ =~= duration_key());
        } else if k@ == duration_key() {
            assert(k@[0] == 100 && k@[1] == 117 && k@[2] == 114 && k@[3] == 97);
            assert(k@[4] == 116 && k@[5] == 105 && k@[6] == 111 && k@[7] == 110);
        }
    }
    r
}

/// Free-text search over the record's text values (see `search_holds`).
pub fn search_matches(m: &FieldMap, p: &crate::pattern::Pattern) -> (r: bool)
    ensures
        r == search_holds(m@, p.source()),
{
    let n = m.key_count();
    let mut i: usize = 0;
    while i < n
        invariant
            n == m@.len(),
            i <= n,
            forall|a: int, b: int|
                0 <= a < i && 0 <= b < m@[a].1.count() ==> !(m@[a].0 != duration_key()
                    && text_found(#[trigger] m@[a].1.item(b), p.source())),
        decreases n - i,
    {
        match m.entry(i) {
            Some((k, v)) => {
                if !is_duration_key(k) {
                    let c = v.len();
                    let mut j: usize = 0;
                    while j < c
                        invariant
                            c == v.count(),
                            v@ == m@[i as int].1,
                            k@ == m@[i as int].0,
                            k@ != duration_key(),
                            j <= c,
                            i < n,
                            n == m@.len(),
                            forall|b: int|
                                0 <= b < j ==> !text_found(
                                    #[trigger] m@[i as int].1.item(b),
                                    p.source(),
                                ),
                        decreases c - j,
                    {
                        let x = v.at(j);
                        match x {
                            Value::Text(t) => {
                                if p.is_match(t.as_slice()) {
                                    assert(text_found(m@[i as int].1.item(j as int), p.source()));
                                    return true;
                                }
                            },
                            _ => {},
                        }
                        j = j + 1;
                    }
                }
            },
            None => {},
        }
        i = i + 1;
    }
    false
}

impl Query {
    /// Whether the query accepts the record whose fields are `m` (see `query_holds`).
    pub fn accept(&self, m: &FieldMap) -> (r: bool)
        requires
            m.wf(),
        ensures
            r == query_holds(self@, m@),
        decreases self,
    {
        match self {
            Query::Expr(None) => true,
            Query::Expr(Some(e)) => e.accept(m),
            Query::Regex(p) => search_matches(m, p),
            Query::And(a, b) => a.accept(m) && b.accept(m),
            Query::Or(a, b) => a.accept(m) || b.accept(m),
            Query::Compare(op, k, lit) => condition_matches(m, *op, k.as_slice(), lit),
        }
    }
}

} // verus!
