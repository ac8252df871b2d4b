//! The record collection: time-ordered records, the active filter, and the mapping from
//! rows to the records that the filter accepts.
//!
//! The filter worker is a state machine driven from outside: `apply_pending` takes up a
//! filter change, `next_to_test` names the record to test, and `test_next` is handed that
//! record's bytes and extends the mapping.
use crate::compiler::Compiler;
use crate::datetime::DateTime;
use crate::eval::{bytes_equal, query_holds};
use crate::fields::time_key;
use crate::query::{compile_text, Query, QueryView};
use crate::fields::record_fields;
use crate::record::{first_value, record_map, LogString};
use crate::token::ParseError;
use crate::value::{Value, ValueView};
use vstd::prelude::*;
use vstd::string::StringSliceAdditionalSpecFns;

verus! {

/// Whether a record with bytes `content` and time `time` is shown under `filter`: always
/// without a filter; with one, where the record is well formed and the query accepts its
/// fields.
pub open spec fn row_accepted(filter: Option<QueryView>, content: Seq<u8>, time: DateTime) -> bool {
    match filter {
        None => true,
        Some(q) => match record_map(content, 0, time) {
            Some(m) => query_holds(q, m),
            None => false,
        },
    }
}

/// The text `s`, compiled at moment `now`, gives a query that is asked for: it is the
/// waiting change `after`, or (where it equals the filter `effective` that would be in force)
/// the waiting change stays `before`.
pub open spec fn compiled_and_requested(
    s: Seq<u8>,
    now: DateTime,
    before: Option<Option<QueryView>>,
    effective: Option<QueryView>,
    after: Option<Option<QueryView>>,
) -> bool {
    match compile_text(s, now) {
        Ok(q) => after == Some(Some(q)) || (after == before && Some(q) == effective),
        Err(_) => false,
    }
}

/// The view of an optional query.
pub open spec fn filter_view(f: Option<Query>) -> Option<QueryView> {
    match f {
        Some(q) => Some(q@),
        None => None,
    }
}

/// Text that is empty once white space is dropped.
pub open spec fn blank(s: Seq<u8>) -> bool {
    forall|i: int| 0 <= i < s.len() ==> crate::bytes::is_space(#[trigger] s[i])
}

/// Names of the columns, in order.
pub open spec fn header_name(col: int) -> Option<Seq<u8>> {
    if col == 0 {
        Some(time_key())
    } else if col == 1 {
        Some(crate::fields::event_key())
    } else if col == 2 {
        Some(crate::fields::duration_key())
    } else if col == 3 {
        Some(seq![112u8, 114, 111, 99, 101, 115, 115])
    } else if col == 4 {
        Some(seq![79u8, 83, 84, 104, 114, 101, 97, 100])
    } else if col == 5 {
        Some(seq![115u8, 116, 97, 99, 107])
    } else {
        None
    }
}

/// A cell of the row view: a row and a column.
#[derive(Clone, Copy, Debug, PartialEq, Eq, Structural)]
pub struct ModelIndex(pub usize, pub usize);

impl ModelIndex {
    pub fn new(row: usize, col: usize) -> (r: ModelIndex)
        ensures
            r.0 == row && r.1 == col,
    {
        ModelIndex(row, col)
    }

    pub fn row(&self) -> (r: usize)
        ensures
            r == self.0,
    {
        self.0
    }

    pub fn column(&self) -> (r: usize)
        ensures
            r == self.1,
    {
        self.1
    }
}

/// The value shown in column `col` (not the time column) for a record with bytes
/// `content`: the first value of the column's key, or empty text where there is none.
pub open spec fn cell_value(content: Seq<u8>, col: int) -> ValueView {
    match (record_fields(content, 0), header_name(col)) {
        (Some((pairs, _)), Some(name)) => match first_value(pairs, name) {
            Some(x) => x,
            None => ValueView::Text(Seq::empty()),
        },
        _ => ValueView::Text(Seq::empty()),
    }
}

/// What the worker is to do next.
#[derive(Debug)]
pub enum WorkerAction {
    /// Nothing to test: wait for more records or a filter change.
    Idle,
    /// Test the record at this index, whose bytes are to be handed to `test_next`.
    Test(usize),
}

/// The records of a session and the rows that the current filter shows.
pub struct LogCollection {
    lines: Vec<LogString>,
    filter: Option<Query>,
    mapping: Vec<usize>,
    next: usize,
    pending: Option<Option<Query>>,
    tested: Ghost<Seq<Seq<u8>>>,
}

impl LogCollection {
    pub closed spec fn lines(&self) -> Seq<LogString> {
        self.lines@
    }

    pub closed spec fn mapping(&self) -> Seq<usize> {
        self.mapping@
    }

    pub closed spec fn filter(&self) -> Option<QueryView> {
        filter_view(self.filter)
    }

    /// The filter change waiting to be taken up, if any (`Some(None)` clears the filter).
    pub closed spec fn pending(&self) -> Option<Option<QueryView>> {
        match self.pending {
            Some(f) => Some(filter_view(f)),
            None => None,
        }
    }

    /// The filter that will be in force once the worker has taken up any waiting change.
    pub open spec fn effective_filter(&self) -> Option<QueryView> {
        match self.pending() {
            Some(p) => p,
            None => self.filter(),
        }
    }

    /// The index of the next record to test.
    pub closed spec fn cursor(&self) -> int {
        self.next as int
    }

    /// The bytes handed in for each record tested under the current filter.
    pub closed spec fn tested(&self) -> Seq<Seq<u8>> {
        self.tested@
    }

    /// The records are in time order; the mapping is strictly increasing over tested
    /// records and holds exactly those that the filter accepts; without a filter it is
    /// every tested index.
    pub open spec fn wf(&self) -> bool {
        &&& forall|a: int, b: int|
            0 <= a < b < self.lines().len() ==> !(#[trigger] self.lines()[b]).time.is_before(
                #[trigger] self.lines()[a].time,
            )
        &&& 0 <= self.cursor() <= self.lines().len() <= usize::MAX
        &&& self.tested().len() == self.cursor()
        &&& forall|k: int|
            0 <= k < self.mapping().len() ==> #[trigger] self.mapping()[k] < self.cursor()
        &&& forall|k: int, l: int|
            0 <= k < l < self.mapping().len() ==> #[trigger] self.mapping()[k]
                < #[trigger] self.mapping()[l]
        &&& forall|i: int|
            0 <= i < self.cursor() ==> (self.mapping().contains(i as usize) <==> row_accepted(
                self.filter(),
                #[trigger] self.tested()[i],
                self.lines()[i].time,
            ))
        &&& self.filter() is None ==> self.mapping() == Seq::new(
            self.cursor() as nat,
            |i: int| i as usize,
        )
    }

    /// An empty collection without a filter.
    pub fn new() -> (r: LogCollection)
        ensures
            r.wf(),
            r.lines().len() == 0,
            r.mapping().len() == 0,
            r.filter() is None,
            r.pending() is None,
    {
        let r = LogCollection {
            lines: Vec::new(),
            filter: None,
            mapping: Vec::new(),
            next: 0,
            pending: None,
            tested: Ghost(Seq::empty()),
        };
        assert(r.mapping() =~= Seq::new(0, |i: int| i as usize));
        r
    }

    /// Appends a record that does not come before the last one; a record that does is
    /// refused (and `false` returned), so that the records stay in time order.
    pub fn push_line(&mut self, line: LogString) -> (r: bool)
        requires
            old(self).wf(),
        ensures
            final(self).wf(),
            r == (old(self).lines().len() == 0 || !line.time.is_before(
                old(self).lines().last().time,
            )),
            r ==> final(self).lines() == old(self).lines().push(line),
            !r ==> final(self).lines() == old(self).lines(),
            final(self).mapping() == old(self).mapping(),
            final(self).filter() == old(self).filter(),
            final(self).pending() == old(self).pending(),
            final(self).cursor() == old(self).cursor(),
            final(self).tested() == old(self).tested(),
    {
        let n = self.lines.len();
        if n > 0 && line.time.before(&self.lines[n - 1].time) {
            return false;
        }
        let ghost l0 = self.lines@;
        let ghost s0 = *self;
        self.lines.push(line);
        let _ = self.lines.len();
        assert(self.mapping() == s0.mapping());
        assert(self.tested() == s0.tested());
        assert(self.filter() == s0.filter());
        assert(self.cursor() == s0.cursor());
        proof {
            assert forall|a: int, b: int|
                0 <= a < b < self.lines().len() implies !(#[trigger] self.lines()[b]).time.is_before(
                #[trigger] self.lines()[a].time,
            ) by {
                if b == n {
                    if a < n - 1 {
                        assert(!l0[n - 1].time.is_before(l0[a].time));
                        crate::datetime::lemma_before_transitive(
                            l0[a].time,
                            l0[n - 1].time,
                            line.time,
                        );
                    }
                } else {
                    assert(self.lines()[b] == l0[b] && self.lines()[a] == l0[a]);
                }
            }
            assert forall|i: int| 0 <= i < self.cursor() implies (self.mapping().contains(
                i as usize,
            ) <==> row_accepted(
                self.filter(),
                #[trigger] self.tested()[i],
                self.lines()[i].time,
            )) by {
                assert(self.lines()[i] == l0[i]);
            }
        }
        true
    }

    /// Asks for the filter text `text` to be compiled with `compiler` and put in force.
    /// Blank text asks for the filter to be cleared. Text that does not compile is
    /// rejected with its error and changes nothing. A query equal to the one that would be
    /// in force asks for no change.
    pub fn set_filter_with(&mut self, text: &str, compiler: &Compiler) -> (r: Result<
        (),
        ParseError,
    >)
        requires
            old(self).wf(),
            compiler.now.valid(),
        ensures
            final(self).wf(),
            final(self).lines() == old(self).lines(),
            final(self).mapping() == old(self).mapping(),
            final(self).filter() == old(self).filter(),
            final(self).cursor() == old(self).cursor(),
            final(self).tested() == old(self).tested(),
            blank(text.spec_bytes()) ==> r is Ok && final(self).pending() == Some(
                None::<QueryView>,
            ),
            !blank(text.spec_bytes()) ==> match compile_text(text.spec_bytes(), compiler.now) {
                Err(e) => r matches Err(x) && x@ == e && final(self).pending() == old(self).pending(),
                Ok(q) => r is Ok && (final(self).pending() == Some(Some(q)) || (final(self).pending()
                    == old(self).pending() && Some(q) == old(self).effective_filter())),
            },
    {
        let b = text.as_bytes();
        let mut i: usize = 0;
        while i < b.len() && (b[i] == 32 || b[i] == 9 || b[i] == 10 || b[i] == 13 || b[i] == 11
            || b[i] == 12)
            invariant
                i <= b@.len(),
                forall|k: int| 0 <= k < i ==> crate::bytes::is_space(#[trigger] b@[k]),
            decreases b@.len() - i,
        {
            i = i + 1;
        }
        let ghost s0 = *self;
        let change: Option<Option<Query>> = if i == b.len() {
            Some(None)
        } else {
            assert(!crate::bytes::is_space(b@[i as int]));
            assert(!blank(text.spec_bytes()));
            match compiler.compile(text) {
                Err(e) => {
                    return Err(e);
                },
                Ok(q) => {
                    let same = match &self.pending {
                        Some(Some(p)) => p.same_as(&q),
                        Some(None) => false,
                        None => match &self.filter {
                            Some(f) => f.same_as(&q),
                            None => false,
                        },
                    };
                    if same {
                        None
                    } else {
                        Some(Some(q))
                    }
                },
            }
        };
        if let Some(f) = change {
            self.pending = Some(f);
        }
        assert(self.lines() == s0.lines());
        assert(self.mapping() == s0.mapping());
        assert(self.tested() == s0.tested());
        assert(self.filter() == s0.filter());
        assert(self.cursor() == s0.cursor());
        Ok(())
    }

    /// As `set_filter_with`, with date literals counted from the current local time.
    pub fn set_filter(&mut self, text: &str) -> (r: Result<(), ParseError>)
        requires
            old(self).wf(),
        ensures
            final(self).wf(),
            final(self).lines() == old(self).lines(),
            final(self).mapping() == old(self).mapping(),
            final(self).filter() == old(self).filter(),
            final(self).cursor() == old(self).cursor(),
            blank(text.spec_bytes()) ==> r is Ok && final(self).pending() == Some(
                None::<QueryView>,
            ),
            final(self).tested() == old(self).tested(),
            r is Err ==> final(self).pending() == old(self).pending(),
            !blank(text.spec_bytes()) ==> exists|now: DateTime|
                now.valid() && (compile_text(text.spec_bytes(), now) is Ok <==> r is Ok),
            r is Ok && !blank(text.spec_bytes()) ==> exists|now: DateTime|
                now.valid() && #[trigger] compiled_and_requested(
                    text.spec_bytes(),
                    now,
                    old(self).pending(),
                    old(self).effective_filter(),
                    final(self).pending(),
                ),
    {
        let c = Compiler::new();
        let ghost before = self.pending();
        let ghost effective = self.effective_filter();
        let r = self.set_filter_with(text, &c);
        proof {
            if r is Ok && !blank(text.spec_bytes()) {
                assert(compiled_and_requested(
                    text.spec_bytes(),
                    c.now,
                    before,
                    effective,
                    self.pending(),
                ));
            }
        }
        r
    }

    /// Takes up a waiting filter change: the new filter replaces the old one and the
    /// mapping starts over from the first record. Returns whether there was one.
    pub fn apply_pending(&mut self) -> (r: bool)
        requires
            old(self).wf(),
        ensures
            final(self).wf(),
            r == old(self).pending() is Some,
            final(self).pending() is None,
            final(self).lines() == old(self).lines(),
            match old(self).pending() {
                Some(f) => {
                    &&& final(self).filter() == f
                    &&& final(self).mapping().len() == 0
                    &&& final(self).cursor() == 0
                },
                None => {
                    &&& final(self).filter() == old(self).filter()
                    &&& final(self).mapping() == old(self).mapping()
                    &&& final(self).cursor() == old(self).cursor()
                },
            },
    {
        match self.pending.take() {
            Some(f) => {
                self.filter = f;
                self.mapping = Vec::new();
                self.next = 0;
                self.tested = Ghost(Seq::empty());
                assert(self.mapping() =~= Seq::new(0, |i: int| i as usize));
                true
            },
            None => false,
        }
    }

    /// What the worker is to do next: test the record at the cursor, if there is one.
    pub fn next_to_test(&self) -> (r: WorkerAction)
        ensures
            self.cursor() < self.lines().len() ==> r == WorkerAction::Test(self.cursor() as usize),
            self.cursor() >= self.lines().len() ==> r == WorkerAction::Idle,
    {
        if self.next < self.lines.len() {
            WorkerAction::Test(self.next)
        } else {
            WorkerAction::Idle
        }
    }

    /// Tests the record at the cursor, whose bytes are `content`, and moves the cursor on;
    /// the record's index joins the mapping where the filter accepts it.
    pub fn test_next(&mut self, content: Vec<u8>)
        requires
            old(self).wf(),
            old(self).cursor() < old(self).lines().len(),
        ensures
            final(self).wf(),
            final(self).lines() == old(self).lines(),
            final(self).filter() == old(self).filter(),
            final(self).pending() == old(self).pending(),
            final(self).cursor() == old(self).cursor() + 1,
            final(self).tested() == old(self).tested().push(content@),
            final(self).mapping() == if row_accepted(
                old(self).filter(),
                content@,
                old(self).lines()[old(self).cursor()].time,
            ) {
                old(self).mapping().push(old(self).cursor() as usize)
            } else {
                old(self).mapping()
            },
    {
        let ghost c = content@;
        let line = self.lines[self.next];
        let accept = match &self.filter {
            None => true,
            Some(q) => match line.fields(content) {
                Ok(m) => q.accept(&m),
                Err(_) => false,
            },
        };
        let ghost m0 = self.mapping@;
        let ghost t0 = self.tested@;
        let n = self.next;
        let len = self.lines.len();
        assert(n < len);
        if accept {
            self.mapping.push(n);
        }
        self.next = n + 1;
        self.tested = Ghost(t0.push(c));
        proof {
            assert forall|i: int| 0 <= i < self.cursor() implies (self.mapping().contains(
                i as usize,
            ) <==> row_accepted(
                self.filter(),
                #[trigger] self.tested()[i],
                self.lines()[i].time,
            )) by {
                if i < n {
                    assert(self.tested()[i] == t0[i]);
                    if accept {
                        assert(self.mapping() == m0.push(n));
                        if m0.contains(i as usize) {
                            let k = choose|k: int| 0 <= k < m0.len() && m0[k] == i as usize;
                            assert(self.mapping()[k] == i as usize);
                        }
                        if self.mapping().contains(i as usize) {
                            let k = choose|k: int|
                                0 <= k < self.mapping().len() && self.mapping()[k] == i as usize;
                            assert(k < m0.len());
                            assert(m0[k] == i as usize);
                        }
                    }
                } else {
                    assert(self.tested()[i] == c);
                    if accept {
                        assert(self.mapping()[m0.len() as int] == n);
                    } else {
                        if self.mapping().contains(i as usize) {
                            let k = choose|k: int|
                                0 <= k < self.mapping().len() && self.mapping()[k] == i as usize;
                            assert(m0[k] < n);
                        }
                    }
                }
            }
            if self.filter() is None {
                assert(self.mapping() =~= Seq::new(self.cursor() as nat, |i: int| i as usize));
            }
        }
    }

    /// Number of rows: the records that the filter has accepted so far.
    pub fn rows(&self) -> (r: usize)
        ensures
            r == self.mapping().len(),
    {
        self.mapping.len()
    }

    /// Number of columns.
    pub fn cols(&self) -> (r: usize)
        ensures
            r == 6,
    {
        6
    }

    /// The record shown at `row`, if there is one.
    pub fn line(&self, row: usize) -> (r: Option<LogString>)
        requires
            self.wf(),
        ensures
            row < self.mapping().len() ==> r == Some(self.lines()[self.mapping()[row as int] as int]),
            row >= self.mapping().len() ==> r is None,
    {
        if row < self.mapping.len() {
            let i = self.mapping[row];
            Some(self.lines[i])
        } else {
            None
        }
    }

    /// Number of records received.
    pub fn len(&self) -> (r: usize)
        ensures
            r == self.lines().len(),
    {
        self.lines.len()
    }

    /// The record at index `i` of the collection, if there is one.
    pub fn record(&self, i: usize) -> (r: Option<LogString>)
        ensures
            i < self.lines().len() ==> r == Some(self.lines()[i as int]),
            i >= self.lines().len() ==> r is None,
    {
        if i < self.lines.len() {
            Some(self.lines[i])
        } else {
            None
        }
    }
}

impl LogCollection {
/// The name of column `col`: time, event, duration, process, OSThread, stack.
pub fn header_data(&self, col: usize) -> (r: Option<Vec<u8>>)
    ensures
        match r {
            Some(v) => header_name(col as int) == Some(v@),
            None => header_name(col as int) is None,
        },
{
    let mut v: Vec<u8> = Vec::new();
    if col == 0 {
        v.push(116); v.push(105); v.push(109); v.push(101);
        assert(v@ =~= time_key());
    } else if col == 1 {
        v.push(101); v.push(118); v.push(101); v.push(110); v.push(116);
        assert(v@ =~= crate::fields::event_key());
    } else if col == 2 {
        v.push(100); v.push(117); v.push(114); v.push(97); v.push(116); v.push(105); v.push(111);
        v.push(110);
        assert(v@ =~= crate::fields::duration_key());
    } else if col == 3 {
        v.push(112); v.push(114); v.push(111); v.push(99); v.push(101); v.push(115); v.push(115);
        assert(v@ =~= seq![112u8, 114, 111, 99, 101, 115, 115]);
    } else if col == 4 {
        v.push(79); v.push(83); v.push(84); v.push(104); v.push(114); v.push(101); v.push(97);
        v.push(100);
        assert(v@ =~= seq![79u8, 83, 84, 104, 114, 101, 97, 100]);
    } else if col == 5 {
        v.push(115); v.push(116); v.push(97); v.push(99); v.push(107);
        assert(v@ =~= seq![115u8, 116, 97, 99, 107]);
    } else {
        return None;
    }
    Some(v)
}

/// The column whose name is `name`, if there is one.
pub fn header_index(&self, name: &[u8]) -> (r: Option<usize>)
    ensures
        match r {
            Some(c) => c < 6 && header_name(c as int) == Some(name@),
            None => forall|c: int| 0 <= c < 6 ==> header_name(c) != Some(name@),
        },
{
    let mut c: usize = 0;
    while c < 6
        invariant
            c <= 6,
            forall|d: int| 0 <= d < c ==> header_name(d) != Some(name@),
        decreases 6 - c,
    {
        match self.header_data(c) {
            Some(h) => {
                if bytes_equal(h.as_slice(), name) {
                    return Some(c);
                }
            },
            None => {},
        }
        c = c + 1;
    }
    None
}

/// The value of the cell `index`, given the bytes `content` of the record shown in its
/// row: the record's time in the first column; in the others the first value of the
/// column's key, or empty text where the record has none. `None` outside the view.
pub fn data(&self, index: ModelIndex, content: Vec<u8>) -> (r: Option<Value>)
    requires
        self.wf(),
    ensures
        (index.0 >= self.mapping().len() || index.1 >= 6) ==> r is None,
        index.0 < self.mapping().len() && index.1 == 0 ==> r == Some(
            Value::DateTime(self.lines()[self.mapping()[index.0 as int] as int].time),
        ),
        index.0 < self.mapping().len() && 0 < index.1 < 6 ==> r is Some && r->Some_0@
            == cell_value(content@, index.1 as int),
{
    let line = match self.line(index.row()) {
        Some(l) => l,
        None => {
            return None;
        },
    };
    let col = index.column();
    if col == 0 {
        return Some(Value::DateTime(line.time));
    }
    let name = match self.header_data(col) {
        Some(n) => n,
        None => {
            return None;
        },
    };
    proof {
        assert(name@ != time_key()) by {
            if col == 1 {
                assert(name@[0] != time_key()[0]);
            } else if col == 2 {
                assert(name@[0] != time_key()[0]);
            } else if col == 3 {
                assert(name@[0] != time_key()[0]);
            } else if col == 4 {
                assert(name@[0] != time_key()[0]);
            } else {
                assert(name@[1] != time_key()[1]);
            }
        }
    }
    match line.get(name.as_slice(), content) {
        Some(v) => Some(v),
        None => {
            let e = Value::Text(Vec::new());
            assert(e@ == ValueView::Text(Seq::empty())) by {
                if let Value::Text(t) = e {
                    assert(t@ =~= Seq::<u8>::empty());
                }
            }
            Some(e)
        },
    }
}
}

} // verus!
