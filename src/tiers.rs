//! Log files by hour: the hour that a file name encodes, and the files grouped into
//! tiers of one hour each, in time order.
use crate::bytes::{digit_run, digits_to_u64, digits_value, lemma_digit_run_bounds, scan_digits};
use crate::datetime::{date_valid, DateTime};
use crate::ingest::LogParser;
use vstd::prelude::*;

verus! {

/// The hour that a file name `YYMMDDHH.log` encodes (years from 2000), if the name has
/// that form and names an existing hour.
pub open spec fn name_anchor(name: Seq<u8>) -> Option<DateTime> {
    if name.len() == 12 && digit_run(name, 0) >= 8 && name[8] == 46 && name[9] == 108
        && name[10] == 111 && name[11] == 103 {
        let y = 2000 + digits_value(name.subrange(0, 2));
        let m = digits_value(name.subrange(2, 4));
        let d = digits_value(name.subrange(4, 6));
        let h = digits_value(name.subrange(6, 8));
        if date_valid(y, m, d) && h < 24 {
            Some(
                DateTime {
                    year: y as i32,
                    month: m as u32,
                    day: d as u32,
                    hour: h as u32,
                    minute: 0,
                    second: 0,
                    nano: 0,
                },
            )
        } else {
            None
        }
    } else {
        None
    }
}

impl LogParser {
/// The hour of a file name (see `name_anchor`).
pub fn hour_anchor(name: &[u8]) -> (r: Option<DateTime>)
    ensures
        r == name_anchor(name@),
        r matches Some(a) ==> a.valid(),
{
    if name.len() != 12 {
        return None;
    }
    let run = scan_digits(name, 0);
    if !(run >= 8 && name[8] == 46 && name[9] == 108 && name[10] == 111 && name[11] == 103) {
        return None;
    }
    proof {
        lemma_digit_run_bounds(name@, 0);
        crate::bytes::lemma_digits_value_bound(name@.subrange(0, 2));
        crate::bytes::lemma_digits_value_bound(name@.subrange(2, 4));
        crate::bytes::lemma_digits_value_bound(name@.subrange(4, 6));
        crate::bytes::lemma_digits_value_bound(name@.subrange(6, 8));
        reveal_with_fuel(crate::bytes::pow10, 3);
    }
    let y = digits_to_u64(name, 0, 2);
    let m = digits_to_u64(name, 2, 4);
    let d = digits_to_u64(name, 4, 6);
    let h = digits_to_u64(name, 6, 8);
    if h >= 24 {
        return None;
    }
    DateTime::new(2000 + y as i32, m as u32, d as u32, h as u32, 0, 0, 0)
}
}

/// The files of one hour.
#[derive(Debug)]
pub struct Tier {
    pub anchor: DateTime,
    pub files: Vec<usize>,
}

/// The start of the hour that holds `t`.
pub open spec fn hour_of(t: DateTime) -> DateTime {
    DateTime { minute: 0, second: 0, nano: 0, ..t }
}

/// File `i` is read: its name encodes an hour, not before the hour of `from`.
pub open spec fn kept(names: Seq<Vec<u8>>, from: Option<DateTime>, i: int) -> bool {
    match name_anchor(names[i]@) {
        Some(a) => match from {
            Some(f) => !a.is_before(hour_of(f)),
            None => true,
        },
        None => false,
    }
}

/// `tiers` groups the files among the first `n` of `names` that are kept: one tier per
/// hour, tiers in time order, each with its files in the order of `names`.
pub open spec fn tiers_of(
    tiers: Seq<Tier>,
    names: Seq<Vec<u8>>,
    from: Option<DateTime>,
    n: int,
) -> bool {
    &&& forall|t: int, u: int|
        0 <= t < u < tiers.len() ==> (#[trigger] tiers[t]).anchor.is_before(
            (#[trigger] tiers[u]).anchor,
        )
    &&& forall|t: int| 0 <= t < tiers.len() ==> (#[trigger] tiers[t]).files@.len() > 0
    &&& forall|t: int, k: int|
        0 <= t < tiers.len() && 0 <= k < tiers[t].files@.len() ==> {
            let f = #[trigger] tiers[t].files@[k] as int;
            &&& 0 <= f < n
            &&& kept(names, from, f)
            &&& name_anchor(names[f]@) == Some(tiers[t].anchor)
        }
    &&& forall|t: int, k: int, l: int|
        0 <= t < tiers.len() && 0 <= k < l < tiers[t].files@.len() ==> #[trigger] tiers[t].files@[k]
            < #[trigger] tiers[t].files@[l]
    &&& forall|i: int|
        0 <= i < n && #[trigger] kept(names, from, i) ==> exists|t: int, k: int|
            0 <= t < tiers.len() && 0 <= k < tiers[t].files@.len() && #[trigger] tiers[t].files@[k]
                == i
}

impl LogParser {
/// The kept files of `names` (see `kept`) grouped into tiers (see `tiers_of`).
pub fn plan_tiers(names: &Vec<Vec<u8>>, from: Option<DateTime>) -> (r: Vec<Tier>)
    ensures
        tiers_of(r@, names@, from, names@.len() as int),
{
    let mut tiers: Vec<Tier> = Vec::new();
    let n = names.len();
    let mut i: usize = 0;
    while i < n
        invariant
            i <= n,
            n == names@.len(),
            tiers_of(tiers@, names@, from, i as int),
        decreases n - i,
    {
        let a = match LogParser::hour_anchor(names[i].as_slice()) {
            Some(a) => a,
            None => {
                proof {
                    assert(!kept(names@, from, i as int));
                    lemma_tiers_extend(tiers@, names@, from, i as int);
                }
                i = i + 1;
                continue;
            },
        };
        let early = match from {
            Some(f) => a.before(&DateTime { minute: 0, second: 0, nano: 0, ..f }),
            None => false,
        };
        if early {
            proof {
                assert(!kept(names@, from, i as int));
                lemma_tiers_extend(tiers@, names@, from, i as int);
            }
            i = i + 1;
            continue;
        }
        assert(kept(names@, from, i as int));
        let mut p: usize = 0;
        while p < tiers.len() && tiers[p].anchor.before(&a)
            invariant
                p <= tiers@.len(),
                forall|t: int| 0 <= t < p ==> (#[trigger] tiers@[t]).anchor.is_before(a),
            decreases tiers@.len() - p,
        {
            p = p + 1;
        }
        let ghost t0 = tiers@;
        if p < tiers.len() && tiers[p].anchor == a {
            let mut t = tiers.remove(p);
            t.files.push(i);
            tiers.insert(p, t);
            proof {
                lemma_tiers_add_to(t0, tiers@, names@, from, i as int, p as int);
            }
        } else {
            let mut files: Vec<usize> = Vec::new();
            files.push(i);
            tiers.insert(p, Tier { anchor: a, files });
            proof {
                lemma_tiers_new(t0, tiers@, names@, from, i as int, p as int, a);
            }
        }
        i = i + 1;
    }
    tiers
}
}

proof fn lemma_tiers_extend(tiers: Seq<Tier>, names: Seq<Vec<u8>>, from: Option<DateTime>, i: int)
    requires
        0 <= i < names.len(),
        tiers_of(tiers, names, from, i),
        !kept(names, from, i),
    ensures
        tiers_of(tiers, names, from, i + 1),
{
}

proof fn lemma_tiers_add_to(
    t0: Seq<Tier>,
    t1: Seq<Tier>,
    names: Seq<Vec<u8>>,
    from: Option<DateTime>,
    i: int,
    p: int,
)
    requires
        0 <= i < names.len(),
        i < usize::MAX,
        0 <= p < t0.len(),
        tiers_of(t0, names, from, i),
        kept(names, from, i),
        name_anchor(names[i]@) == Some(t0[p].anchor),
        t1.len() == t0.len(),
        forall|t: int| 0 <= t < t0.len() && t != p ==> t1[t] == t0[t],
        t1[p].anchor == t0[p].anchor,
        t1[p].files@ == t0[p].files@.push(i as usize),
    ensures
        tiers_of(t1, names, from, i + 1),
{
    assert forall|t: int, u: int| 0 <= t < u < t1.len() implies (#[trigger] t1[t]).anchor.is_before(
        (#[trigger] t1[u]).anchor,
    ) by {
        assert(t0[t].anchor.is_before(t0[u].anchor));
    }
    assert forall|t: int, k: int|
        0 <= t < t1.len() && 0 <= k < t1[t].files@.len() implies {
        let f = #[trigger] t1[t].files@[k] as int;
        &&& 0 <= f < i + 1
        &&& kept(names, from, f)
        &&& name_anchor(names[f]@) == Some(t1[t].anchor)
    } by {
        if t == p && k == t0[p].files@.len() {
        } else {
            assert(t1[t].files@[k] == t0[t].files@[k]);
        }
    }
    assert forall|t: int, k: int, l: int|
        0 <= t < t1.len() && 0 <= k < l < t1[t].files@.len() implies #[trigger] t1[t].files@[k]
        < #[trigger] t1[t].files@[l] by {
        if t == p && l == t0[p].files@.len() {
            let f = t0[p].files@[k] as int;
            assert(0 <= f < i);
            assert(t1[t].files@[k] == t0[p].files@[k]);
        } else {
            assert(t1[t].files@[k] == t0[t].files@[k]);
            assert(t1[t].files@[l] == t0[t].files@[l]);
        }
    }
    assert forall|j: int| 0 <= j < i + 1 && #[trigger] kept(names, from, j) implies exists|
        t: int,
        k: int,
    | 0 <= t < t1.len() && 0 <= k < t1[t].files@.len() && #[trigger] t1[t].files@[k] == j by {
        if j == i {
            assert(t1[p].files@[t0[p].files@.len() as int] == i);
        } else {
            let (t, k) = choose|t: int, k: int|
                0 <= t < t0.len() && 0 <= k < t0[t].files@.len() && #[trigger] t0[t].files@[k] == j;
            assert(t1[t].files@[k] == j);
        }
    }
    assert forall|t: int| 0 <= t < t1.len() implies (#[trigger] t1[t]).files@.len() > 0 by {
        if t != p {
            assert(t1[t] == t0[t]);
        }
    }
}

proof fn lemma_tiers_new(
    t0: Seq<Tier>,
    t1: Seq<Tier>,
    names: Seq<Vec<u8>>,
    from: Option<DateTime>,
    i: int,
    p: int,
    a: DateTime,
)
    requires
        0 <= i < names.len(),
        i < usize::MAX,
        0 <= p <= t0.len(),
        tiers_of(t0, names, from, i),
        kept(names, from, i),
        name_anchor(names[i]@) == Some(a),
        forall|t: int| 0 <= t < p ==> (#[trigger] t0[t]).anchor.is_before(a),
        p < t0.len() ==> !t0[p].anchor.is_before(a) && t0[p].anchor != a,
        t1.len() == t0.len() + 1,
        forall|t: int| 0 <= t < p ==> t1[t] == t0[t],
        forall|t: int| p < t < t1.len() ==> t1[t] == t0[t - 1],
        t1[p].anchor == a,
        t1[p].files@ == seq![i as usize],
    ensures
        tiers_of(t1, names, from, i + 1),
{
    if p < t0.len() {
        crate::datetime::lemma_before_total(a, t0[p].anchor);
    }
    assert forall|t: int, u: int| 0 <= t < u < t1.len() implies (#[trigger] t1[t]).anchor.is_before(
        (#[trigger] t1[u]).anchor,
    ) by {
        if u < p {
            assert(t0[t].anchor.is_before(t0[u].anchor));
        } else if u == p {
        } else if t == p {
            if u - 1 > p {
                assert(t0[p].anchor.is_before(t0[u - 1].anchor));
                crate::datetime::lemma_before_transitive(a, t0[p].anchor, t0[u - 1].anchor);
            }
        } else if t < p {
            assert(t0[t].anchor.is_before(t0[u - 1].anchor));
        } else {
            assert(t0[t - 1].anchor.is_before(t0[u - 1].anchor));
        }
    }
    assert forall|t: int, k: int|
        0 <= t < t1.len() && 0 <= k < t1[t].files@.len() implies {
        let f = #[trigger] t1[t].files@[k] as int;
        &&& 0 <= f < i + 1
        &&& kept(names, from, f)
        &&& name_anchor(names[f]@) == Some(t1[t].anchor)
    } by {
        if t < p {
            assert(t1[t].files@[k] == t0[t].files@[k]);
        } else if t > p {
            assert(t1[t].files@[k] == t0[t - 1].files@[k]);
        }
    }
    assert forall|t: int, k: int, l: int|
        0 <= t < t1.len() && 0 <= k < l < t1[t].files@.len() implies #[trigger] t1[t].files@[k]
        < #[trigger] t1[t].files@[l] by {
        if t < p {
            assert(t1[t].files@[k] == t0[t].files@[k]);
            assert(t1[t].files@[l] == t0[t].files@[l]);
        } else if t > p {
            assert(t1[t].files@[k] == t0[t - 1].files@[k]);
            assert(t1[t].files@[l] == t0[t - 1].files@[l]);
        }
    }
    assert forall|j: int| 0 <= j < i + 1 && #[trigger] kept(names, from, j) implies exists|
        t: int,
        k: int,
    | 0 <= t < t1.len() && 0 <= k < t1[t].files@.len() && #[trigger] t1[t].files@[k] == j by {
        if j == i {
            assert(t1[p].files@[0] == i);
        } else {
            let (t, k) = choose|t: int, k: int|
                0 <= t < t0.len() && 0 <= k < t0[t].files@.len() && #[trigger] t0[t].files@[k] == j;
            if t < p {
                assert(t1[t].files@[k] == j);
            } else {
                assert(t1[t + 1].files@[k] == j);
            }
        }
    }
    assert forall|t: int| 0 <= t < t1.len() implies (#[trigger] t1[t]).files@.len() > 0 by {
        if t < p {
            assert(t1[t] == t0[t]);
        } else if t > p {
            assert(t1[t] == t0[t - 1]);
        }
    }
}

} // verus!
