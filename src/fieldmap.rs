//! The fields of one record by key, in the order the keys first appeared.
use crate::value::{scalar_view, Value, ValueView};
use indexmap::IndexMap;
use vstd::prelude::*;

verus! {

#[verifier::external_type_specification]
#[verifier::external_body]
#[verifier::reject_recursive_types(K)]
#[verifier::reject_recursive_types(V)]
#[verifier::reject_recursive_types(S)]
pub struct ExIndexMap<K, V, S>(IndexMap<K, V, S>);

/// The entries of an `IndexMap` in its order: each key with its value.
pub uninterp spec fn map_entries(m: IndexMap<Vec<u8>, Value>) -> Seq<(Seq<u8>, Value)>;

/// Relies on `IndexMap::with_capacity`: a new map is empty.
#[verifier::external_body]
fn map_new() -> (r: IndexMap<Vec<u8>, Value>)
    ensures
        map_entries(r) == Seq::<(Seq<u8>, Value)>::empty(),
{
    IndexMap::with_capacity(16)
}

/// Relies on `IndexMap::len`: the number of entries.
#[verifier::external_body]
fn map_len(m: &IndexMap<Vec<u8>, Value>) -> (r: usize)
    ensures
        r == map_entries(*m).len(),
{
    m.len()
}

/// Relies on `IndexMap::get_index_of`: the position of the entry with key `key`.
#[verifier::external_body]
fn map_index_of(m: &IndexMap<Vec<u8>, Value>, key: &[u8]) -> (r: Option<usize>)
    ensures
        r matches Some(i) ==> i < map_entries(*m).len() && map_entries(*m)[i as int].0 == key@,
        r is None ==> forall|i: int| 0 <= i < map_entries(*m).len() ==> map_entries(*m)[i].0 != key@,
{
    m.get_index_of(key)
}

/// Relies on `IndexMap::get_index`: the entry at position `i`.
#[verifier::external_body]
fn map_entry(m: &IndexMap<Vec<u8>, Value>, i: usize) -> (r: Option<(&Vec<u8>, &Value)>)
    ensures
        i < map_entries(*m).len() ==> r is Some && r->Some_0.0@ == map_entries(*m)[i as int].0,
        i < map_entries(*m).len() ==> r is Some && *r->Some_0.1 == map_entries(*m)[i as int].1,
        i >= map_entries(*m).len() ==> r is None,
{
    m.get_index(i)
}

/// Relies on `IndexMap::insert`: a new key is appended; for a key already present the
/// value is replaced in place and the old one handed back.
#[verifier::external_body]
fn map_insert(m: &mut IndexMap<Vec<u8>, Value>, key: Vec<u8>, value: Value) -> (r: Option<Value>)
    ensures
        forall|i: int|
            0 <= i < map_entries(*old(m)).len() && map_entries(*old(m))[i].0 == key@ ==> {
                &&& map_entries(*final(m)) == map_entries(*old(m)).update(i, (key@, value))
                &&& r == Some(map_entries(*old(m))[i].1)
            },
        (forall|i: int|
            0 <= i < map_entries(*old(m)).len() ==> map_entries(*old(m))[i].0 != key@) ==> {
            &&& map_entries(*final(m)) == map_entries(*old(m)).push((key@, value))
            &&& r is None
        },
{
    m.insert(key, value)
}

/// No key stands twice.
pub open spec fn keys_unique(e: Seq<(Seq<u8>, ValueView)>) -> bool {
    forall|i: int, j: int| 0 <= i < j < e.len() ==> e[i].0 != e[j].0
}

/// What a further value `v` of a key makes of its value `prev`: a `Multi` holding the
/// earlier values and then `v`.
pub open spec fn merged(prev: ValueView, v: ValueView) -> ValueView {
    ValueView::Multi(
        match prev {
            ValueView::Multi(a) => a.push(v),
            _ => seq![prev, v],
        },
    )
}

/// Index of the entry with key `k`.
pub open spec fn entry_of(e: Seq<(Seq<u8>, ValueView)>, k: Seq<u8>) -> Option<int> {
    if exists|i: int| 0 <= i < e.len() && e[i].0 == k {
        Some(choose|i: int| 0 <= i < e.len() && e[i].0 == k)
    } else {
        None
    }
}

/// The value under key `k`, if there is one.
pub open spec fn lookup(e: Seq<(Seq<u8>, ValueView)>, k: Seq<u8>) -> Option<ValueView> {
    match entry_of(e, k) {
        Some(i) => Some(e[i].1),
        None => None,
    }
}

/// The entries after `v` is added under `k`: a new key is appended, a further value of a
/// key merged into its value.
pub open spec fn inserted(e: Seq<(Seq<u8>, ValueView)>, k: Seq<u8>, v: ValueView) -> Seq<
    (Seq<u8>, ValueView),
> {
    match entry_of(e, k) {
        None => e.push((k, v)),
        Some(i) => e.update(i, (k, merged(e[i].1, v))),
    }
}

/// The flattened pairs of the entries: each value of a `Multi` under its key.
pub open spec fn flatten(e: Seq<(Seq<u8>, ValueView)>) -> Seq<(Seq<u8>, ValueView)>
    decreases e.len(),
{
    if e.len() == 0 {
        Seq::empty()
    } else {
        let (k, v) = e.last();
        flatten(e.drop_last()) + Seq::new(v.count(), |j: int| (k, v.item(j)))
    }
}

pub open spec fn entry_view(e: (Seq<u8>, Value)) -> (Seq<u8>, ValueView) {
    (e.0, e.1@)
}

/// A value as it may stand in a field map: a single value, or a `Multi` of single values.
pub open spec fn well_formed_value(v: Value) -> bool {
    match v {
        Value::Multi(items) => forall|j: int| 0 <= j < items@.len() ==> !(#[trigger] items@[j] is Multi),
        _ => true,
    }
}

/// The values of a record by key, in the order in which the keys first appeared.
#[derive(Debug)]
pub struct FieldMap {
    values: IndexMap<Vec<u8>, Value>,
}

impl View for FieldMap {
    type V = Seq<(Seq<u8>, ValueView)>;

    closed spec fn view(&self) -> Seq<(Seq<u8>, ValueView)> {
        map_entries(self.values).map_values(|e: (Seq<u8>, Value)| entry_view(e))
    }
}

impl FieldMap {
    pub closed spec fn wf(&self) -> bool {
        &&& keys_unique(self@)
        &&& forall|i: int|
            0 <= i < map_entries(self.values).len() ==> well_formed_value(
                #[trigger] map_entries(self.values)[i].1,
            )
    }

    pub fn new() -> (r: FieldMap)
        ensures
            r.wf(),
            r@ == Seq::<(Seq<u8>, ValueView)>::empty(),
    {
        let r = FieldMap { values: map_new() };
        assert(r@ =~= Seq::<(Seq<u8>, ValueView)>::empty());
        r
    }

    /// Adds `value` under `key` (see `inserted`).
    pub fn insert(&mut self, key: Vec<u8>, value: Value)
        requires
            old(self).wf(),
            !(value is Multi),
        ensures
            final(self).wf(),
            final(self)@ == inserted(old(self)@, key@, value@),
    {
        let ghost e0 = map_entries(self.values);
        let ghost v0 = self@;
        let ghost gv = value;
        match map_index_of(&self.values, key.as_slice()) {
            None => {
                map_insert(&mut self.values, key, value);
                proof {
                    assert forall|c: int| 0 <= c < v0.len() implies v0[c].0 != key@ by {
                        assert(v0[c].0 == e0[c].0);
                    }
                    assert(entry_of(v0, key@) is None);
                    assert(self@ =~= v0.push((key@, gv@)));
                    assert forall|i: int|
                        0 <= i < map_entries(self.values).len() implies well_formed_value(
                        #[trigger] map_entries(self.values)[i].1,
                    ) by {
                        if i < e0.len() {
                            assert(map_entries(self.values)[i] == e0[i]);
                        }
                    }
                }
            },
            Some(i) => {
                proof {
                    assert(v0[i as int].0 == key@);
                    assert(entry_of(v0, key@) == Some(i as int)) by {
                        let c = choose|c: int| 0 <= c < v0.len() && v0[c].0 == key@;
                        assert(c == i);
                    }
                }
                let k2 = crate::bytes::copy_range(key.as_slice(), 0, key.len());
                assert(k2@ =~= key@);
                let empty = Value::Multi(Vec::new());
                let ghost gempty = empty;
                assert(e0[i as int].0 == k2@);
                let prev = map_insert(&mut self.values, k2, empty);
                assert(map_entries(self.values) == e0.update(i as int, (key@, gempty)));
                assert(prev == Some(e0[i as int].1));
                let new = match prev {
                    Some(Value::Multi(mut items)) => {
                        items.push(value);
                        Value::Multi(items)
                    },
                    Some(p) => {
                        let mut items: Vec<Value> = Vec::new();
                        items.push(p);
                        items.push(value);
                        Value::Multi(items)
                    },
                    None => Value::Multi(Vec::new()),
                };
                let ghost gnew = new;
                let ghost e1 = map_entries(self.values);
                assert(e1 == e0.update(i as int, (key@, gempty)));
                assert(e1[i as int].0 == key@);
                map_insert(&mut self.values, key, new);
                proof {
                    let e2 = map_entries(self.values);
                    assert(e2 == e1.update(i as int, (key@, gnew)));
                    assert(gnew@ == merged(v0[i as int].1, gv@)) by {
                        if let Value::Multi(items) = gnew {
                            match e0[i as int].1 {
                                Value::Multi(a) => {
                                    assert(items@ == a@.push(gv));
                                    assert(gnew@ == ValueView::Multi(
                                        Seq::new(items@.len(), |j: int| scalar_view(items@[j])),
                                    ));
                                    assert(Seq::new(items@.len(), |j: int| scalar_view(items@[j]))
                                        =~= Seq::new(a@.len(), |j: int| scalar_view(a@[j])).push(
                                        gv@,
                                    ));
                                },
                                _ => {
                                    assert(items@ =~= seq![e0[i as int].1, gv]);
                                    assert(Seq::new(items@.len(), |j: int| scalar_view(items@[j]))
                                        =~= seq![v0[i as int].1, gv@]);
                                },
                            }
                        }
                    }
                    assert(self@ =~= v0.update(i as int, (key@, merged(v0[i as int].1, gv@))));
                    assert forall|c: int|
                        0 <= c < e2.len() implies well_formed_value(#[trigger] e2[c].1) by {
                        if c != i {
                            assert(e2[c] == e0[c]);
                        } else {
                            if let Value::Multi(items) = gnew {
                                match e0[i as int].1 {
                                    Value::Multi(a) => {
                                        assert(well_formed_value(e0[i as int].1));
                                        assert(items@ == a@.push(gv));
                                        assert forall|j: int| 0 <= j < items@.len() implies !(
                                        #[trigger] items@[j] is Multi) by {
                                            if j < a@.len() {
                                                assert(items@[j] == a@[j]);
                                            }
                                        }
                                    },
                                    _ => {
                                        assert(items@ =~= seq![e0[i as int].1, gv]);
                                    },
                                }
                            }
                        }
                    }
                }
            },
        }
    }

    /// The value under `name`, if the record has that key.
    pub fn get(&self, name: &[u8]) -> (r: Option<&Value>)
        requires
            self.wf(),
        ensures
            r matches Some(v) ==> lookup(self@, name@) == Some(v@),
            r is None ==> lookup(self@, name@) is None,
    {
        let ghost e = self@;
        match map_index_of(&self.values, name) {
            Some(i) => {
                proof {
                    assert(e[i as int].0 == name@);
                    assert(entry_of(e, name@) == Some(i as int)) by {
                        let c = choose|c: int| 0 <= c < e.len() && e[c].0 == name@;
                        assert(c == i);
                    }
                }
                match map_entry(&self.values, i) {
                    Some((_, v)) => Some(v),
                    None => None,
                }
            },
            None => {
                proof {
                    assert forall|c: int| 0 <= c < e.len() implies e[c].0 != name@ by {
                        assert(e[c].0 == map_entries(self.values)[c].0);
                    }
                }
                None
            },
        }
    }

    /// Number of keys.
    pub fn key_count(&self) -> (r: usize)
        ensures
            r == self@.len(),
    {
        map_len(&self.values)
    }

    /// The `i`-th entry: a key and its value (which may be a `Multi`).
    pub fn entry(&self, i: usize) -> (r: Option<(&Vec<u8>, &Value)>)
        ensures
            i < self@.len() ==> r is Some && r->Some_0.0@ == self@[i as int].0
                && r->Some_0.1@ == self@[i as int].1,
            i >= self@.len() ==> r is None,
    {
        map_entry(&self.values, i)
    }

    /// Total number of values, a `Multi` counting each of its items.
    pub fn len(&self) -> (r: usize)
        requires
            flatten(self@).len() <= usize::MAX,
        ensures
            r == flatten(self@).len(),
    {
        let n = map_len(&self.values);
        let mut total: usize = 0;
        let mut i: usize = 0;
        while i < n
            invariant
                n == self@.len(),
                i <= n,
                total == flatten(self@.subrange(0, i as int)).len(),
                flatten(self@).len() <= usize::MAX,
            decreases n - i,
        {
            let ghost e = self@;
            proof {
                assert(e.subrange(0, i as int + 1).drop_last() =~= e.subrange(0, i as int));
                lemma_flatten_prefix_len(e, i as int + 1);
                lemma_flatten_prefix(e, i as int + 1);
            }
            match map_entry(&self.values, i) {
                Some((_, v)) => {
                    total = total + v.len();
                },
                None => {},
            }
            i = i + 1;
        }
        assert(self@.subrange(0, n as int) =~= self@);
        total
    }

    /// The `index`-th of the flattened `(key, value)` pairs.
    pub fn get_index(&self, index: usize) -> (r: Option<(Vec<u8>, &Value)>)
        requires
            self.wf(),
        ensures
            index < flatten(self@).len() ==> r is Some && r->Some_0.0@ == flatten(self@)[index as int].0
                && scalar_view(*r->Some_0.1) == flatten(self@)[index as int].1,
            index >= flatten(self@).len() ==> r is None,
    {
        let n = map_len(&self.values);
        let mut before: usize = 0;
        let mut i: usize = 0;
        while i < n
            invariant
                n == self@.len(),
                i <= n,
                before == flatten(self@.subrange(0, i as int)).len(),
                before <= index,
            decreases n - i,
        {
            let ghost e = self@;
            proof {
                assert(e.subrange(0, i as int + 1).drop_last() =~= e.subrange(0, i as int));
                lemma_flatten_prefix_len(e, i as int + 1);
            }
            match map_entry(&self.values, i) {
                Some((k, v)) => {
                    let c = v.len();
                    if index - before < c {
                        let j = index - before;
                        proof {
                            lemma_flatten_index(e, i as int, j as int);
                        }
                        let key = crate::bytes::copy_range(k.as_slice(), 0, k.len());
                        assert(key@ =~= k@);
                        return Some((key, v.at(j)));
                    }
                    before = before + c;
                },
                None => {},
            }
            i = i + 1;
        }
        assert(self@.subrange(0, n as int) =~= self@);
        None
    }
}

proof fn lemma_flatten_prefix_len(e: Seq<(Seq<u8>, ValueView)>, i: int)
    requires
        0 < i <= e.len(),
    ensures
        flatten(e.subrange(0, i)).len() == flatten(e.subrange(0, i - 1)).len() + e[i - 1].1.count(),
        flatten(e.subrange(0, i - 1)).len() <= flatten(e.subrange(0, i)).len(),
{
    assert(e.subrange(0, i).drop_last() =~= e.subrange(0, i - 1));
}

proof fn lemma_flatten_prefix(e: Seq<(Seq<u8>, ValueView)>, i: int)
    requires
        0 <= i <= e.len(),
    ensures
        flatten(e.subrange(0, i)).len() <= flatten(e).len(),
        forall|k: int|
            0 <= k < flatten(e.subrange(0, i)).len() ==> #[trigger] flatten(e.subrange(0, i))[k]
                == flatten(e)[k],
    decreases e.len() - i,
{
    if i < e.len() {
        lemma_flatten_prefix(e, i + 1);
        let p = e.subrange(0, i + 1);
        assert(p.drop_last() =~= e.subrange(0, i));
        let fq = flatten(e.subrange(0, i));
        let fp = flatten(p);
        assert(fp == fq + Seq::new(p.last().1.count(), |j: int| (p.last().0, p.last().1.item(j))));
        assert forall|k: int| 0 <= k < fq.len() implies #[trigger] fq[k] == flatten(e)[k] by {
            assert(fp[k] == fq[k]);
        }
    } else {
        assert(e.subrange(0, i) =~= e);
    }
}

proof fn lemma_flatten_index(e: Seq<(Seq<u8>, ValueView)>, i: int, j: int)
    requires
        0 <= i < e.len(),
        0 <= j < e[i].1.count(),
    ensures
        flatten(e.subrange(0, i)).len() + j < flatten(e).len(),
        flatten(e)[flatten(e.subrange(0, i)).len() + j] == (e[i].0, e[i].1.item(j)),
{
    lemma_flatten_prefix(e, i + 1);
    let p = e.subrange(0, i + 1);
    assert(p.drop_last() =~= e.subrange(0, i));
    let fq = flatten(e.subrange(0, i));
    let fp = flatten(p);
    assert(fp == fq + Seq::new(p.last().1.count(), |c: int| (p.last().0, p.last().1.item(c))));
    assert(fp[fq.len() + j] == (e[i].0, e[i].1.item(j)));
}

} // verus!
