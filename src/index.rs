use vstd::prelude::*;

use crate::text::{fold_codes, key_of, occurs, occurs_in, same_codes, same_text};

verus! {

/// A row of the vocabulary index: a query, the serialized entry for it, and
/// the modification time of its backing file in epoch seconds.
#[derive(Debug, PartialEq, Eq)]
pub struct Row {
    pub query: String,
    pub content: String,
    pub timestamp: u64,
}

/// What a row holds, as values.
pub struct RowView {
    pub query: Seq<char>,
    pub content: Seq<char>,
    pub timestamp: u64,
}

impl View for Row {
    type V = RowView;

    open spec fn view(&self) -> RowView {
        RowView { query: self.query@, content: self.content@, timestamp: self.timestamp }
    }
}

impl Row {
    pub fn new(query: String, content: String, timestamp: u64) -> (r: Row)
        ensures
            r@ == (RowView { query: query@, content: content@, timestamp }),
    {
        Row { query, content, timestamp }
    }

    /// A copy of the row.
    pub fn duplicate(&self) -> (r: Row)
        ensures
            r@ == self@,
    {
        Row { query: self.query.clone(), content: self.content.clone(), timestamp: self.timestamp }
    }
}

/// The rows of a vector, as values.
pub open spec fn rows_view(v: Seq<Row>) -> Seq<RowView> {
    v.map_values(|r: Row| r@)
}

/// No two rows share a query up to ASCII case.
pub open spec fn keys_unique(rows: Seq<RowView>) -> bool {
    forall|a: int, b: int|
        0 <= a < rows.len() && 0 <= b < rows.len() && a != b
            ==> key_of(#[trigger] rows[a].query) != key_of(#[trigger] rows[b].query)
}

/// Some row has the case-folded query `k`.
pub open spec fn has_key(rows: Seq<RowView>, k: Seq<u32>) -> bool {
    exists|a: int| 0 <= a < rows.len() && key_of(#[trigger] rows[a].query) == k
}

/// The position of the row whose case-folded query is `k`.
pub open spec fn key_pos(rows: Seq<RowView>, k: Seq<u32>) -> int {
    choose|a: int| 0 <= a < rows.len() && key_of(#[trigger] rows[a].query) == k
}

/// An existing row for the same query (up to case) is strictly newer than `r`.
pub open spec fn is_stale(rows: Seq<RowView>, r: RowView) -> bool {
    has_key(rows, key_of(r.query)) && rows[key_pos(rows, key_of(r.query))].timestamp > r.timestamp
}

/// The rows after an upsert of `r`: unchanged when a strictly newer row for the
/// same query exists; otherwise that row is replaced in place, or `r` is added
/// at the end when there is none. Equal timestamps are replaceable.
pub open spec fn upserted(rows: Seq<RowView>, r: RowView) -> Seq<RowView> {
    let k = key_of(r.query);
    if has_key(rows, k) {
        if is_stale(rows, r) {
            rows
        } else {
            rows.update(key_pos(rows, k), r)
        }
    } else {
        rows.push(r)
    }
}

/// The content of the row whose query is exactly `q`, if there is one.
pub open spec fn lookup_spec(rows: Seq<RowView>, q: Seq<char>) -> Option<Seq<char>> {
    if exists|a: int| 0 <= a < rows.len() && #[trigger] rows[a].query == q {
        Some(rows[choose|a: int| 0 <= a < rows.len() && #[trigger] rows[a].query == q].content)
    } else {
        None
    }
}

/// The rows without the one whose query equals `q` up to case.
pub open spec fn deleted(rows: Seq<RowView>, q: Seq<char>) -> Seq<RowView> {
    if has_key(rows, key_of(q)) {
        rows.remove(key_pos(rows, key_of(q)))
    } else {
        rows
    }
}

/// With unique keys, the row at `a` is the one found for its own key.
pub proof fn lemma_key_pos(rows: Seq<RowView>, a: int)
    requires
        keys_unique(rows),
        0 <= a < rows.len(),
    ensures
        has_key(rows, key_of(rows[a].query)),
        key_pos(rows, key_of(rows[a].query)) == a,
{
    let k = key_of(rows[a].query);
    assert(has_key(rows, k));
    let p = key_pos(rows, k);
    assert(key_of(rows[p].query) == k);
}

/// The position at which a row stamped `t` enters `order`: after every row
/// stamped `t` or later.
pub open spec fn insert_pos(order: Seq<int>, stamps: Seq<u64>, t: u64) -> int
    decreases order.len(),
{
    if order.len() == 0 {
        0
    } else if stamps[order[0]] < t {
        0
    } else {
        1 + insert_pos(order.drop_first(), stamps, t)
    }
}

/// Row positions ordered by timestamp, most recent first; rows with equal
/// timestamps keep their relative order.
pub open spec fn recency_order(stamps: Seq<u64>) -> Seq<int>
    decreases stamps.len(),
{
    if stamps.len() == 0 {
        Seq::empty()
    } else {
        let prev = recency_order(stamps.drop_last());
        prev.insert(insert_pos(prev, stamps, stamps.last()), stamps.len() - 1)
    }
}

pub open spec fn stamps_of(rows: Seq<RowView>) -> Seq<u64> {
    rows.map_values(|r: RowView| r.timestamp)
}

/// The queries of the rows, most recently touched first.
pub open spec fn listing(rows: Seq<RowView>) -> Seq<Seq<char>> {
    recency_order(stamps_of(rows)).map_values(|a: int| rows[a].query)
}

/// The rows whose query contains `pattern`, both taken up to ASCII case, in
/// their order.
pub open spec fn matching(rows: Seq<RowView>, pattern: Seq<char>) -> Seq<RowView>
    decreases rows.len(),
{
    if rows.len() == 0 {
        rows
    } else {
        let prev = matching(rows.drop_last(), pattern);
        if occurs_in(key_of(pattern), key_of(rows.last().query)) {
            prev.push(rows.last())
        } else {
            prev
        }
    }
}

pub open spec fn strings_view(v: Seq<String>) -> Seq<Seq<char>> {
    v.map_values(|s: String| s@)
}

proof fn lemma_insert_pos(order: Seq<int>, stamps: Seq<u64>, t: u64, p: int)
    requires
        0 <= p <= order.len(),
        forall|x: int| 0 <= x < p ==> stamps[#[trigger] order[x]] >= t,
        p < order.len() ==> stamps[order[p]] < t,
    ensures
        insert_pos(order, stamps, t) == p,
    decreases p,
{
    if p > 0 {
        let rest = order.drop_first();
        assert forall|x: int| 0 <= x < p - 1 implies stamps[#[trigger] rest[x]] >= t by {
            assert(rest[x] == order[x + 1]);
        }
        if p - 1 < rest.len() {
            assert(rest[p - 1] == order[p]);
        }
        lemma_insert_pos(rest, stamps, t, p - 1);
    }
}

/// Positions of `rows`, most recently touched first.
fn order_by_recency(rows: &Vec<Row>) -> (r: Vec<usize>)
    ensures
        r@.map_values(|a: usize| a as int) == recency_order(stamps_of(rows_view(rows@))),
        forall|x: int| 0 <= x < r@.len() ==> #[trigger] r@[x] < rows@.len(),
{
    let ghost all = stamps_of(rows_view(rows@));
    let mut order: Vec<usize> = Vec::new();
    let mut i: usize = 0;
    assert(all.subrange(0, 0) =~= Seq::<u64>::empty());
    assert(order@.map_values(|a: usize| a as int) =~= Seq::<int>::empty());
    while i < rows.len()
        invariant
            all == stamps_of(rows_view(rows@)),
            i <= rows@.len(),
            order@.map_values(|a: usize| a as int) == recency_order(all.subrange(0, i as int)),
            forall|x: int| 0 <= x < order@.len() ==> #[trigger] order@[x] < i,
        decreases rows@.len() - i,
    {
        let t = rows[i].timestamp;
        let ghost ov = order@.map_values(|a: usize| a as int);
        let ghost cur = all.subrange(0, i + 1);
        let mut p: usize = 0;
        while p < order.len() && rows[order[p]].timestamp >= t
            invariant
                all == stamps_of(rows_view(rows@)),
                i < rows@.len(),
                t == all[i as int],
                cur == all.subrange(0, i + 1),
                ov == order@.map_values(|a: usize| a as int),
                forall|x: int| 0 <= x < order@.len() ==> #[trigger] order@[x] < i,
                p <= order@.len(),
                forall|x: int| 0 <= x < p ==> cur[#[trigger] ov[x]] >= t,
            decreases order@.len() - p,
        {
            assert(cur[ov[p as int]] == all[order@[p as int] as int]);
            p = p + 1;
        }
        proof {
            if p < order@.len() {
                assert(cur[ov[p as int]] == all[order@[p as int] as int]);
            }
            lemma_insert_pos(ov, cur, t, p as int);
            assert(cur.drop_last() =~= all.subrange(0, i as int));
            assert(cur.last() == t);
        }
        order.insert(p, i);
        proof {
            assert(order@.map_values(|a: usize| a as int) =~= ov.insert(p as int, i as int));
        }
        i = i + 1;
    }
    assert(all.subrange(0, rows@.len() as int) =~= all);
    order
}

/// The queries of `rows`, most recently touched first.
fn queries_by_recency(rows: &Vec<Row>) -> (r: Vec<String>)
    ensures
        strings_view(r@) == listing(rows_view(rows@)),
{
    let order = order_by_recency(rows);
    let ghost ov = order@.map_values(|a: usize| a as int);
    let ghost rv = rows_view(rows@);
    let mut out: Vec<String> = Vec::new();
    let mut k: usize = 0;
    while k < order.len()
        invariant
            ov == order@.map_values(|a: usize| a as int),
            rv == rows_view(rows@),
            forall|x: int| 0 <= x < order@.len() ==> #[trigger] order@[x] < rows@.len(),
            k <= order@.len(),
            strings_view(out@) == ov.subrange(0, k as int).map_values(|a: int| rv[a].query),
        decreases order@.len() - k,
    {
        let a = order[k];
        let ghost before = out@;
        out.push(rows[a].query.clone());
        assert(rv[a as int].query == rows@[a as int].query@);
        assert(ov[k as int] == a as int);
        assert(ov.subrange(0, k + 1) =~= ov.subrange(0, k as int).push(a as int));
        assert(strings_view(out@) =~= strings_view(before).push(rows@[a as int].query@));
        assert(strings_view(out@) =~= ov.subrange(0, k + 1).map_values(|a: int| rv[a].query));
        k = k + 1;
    }
    assert(ov.subrange(0, order@.len() as int) =~= ov);
    out
}

/// The rows after upserting each file's row in turn.
pub open spec fn scanned(rows: Seq<RowView>, files: Seq<RowView>) -> Seq<RowView>
    decreases files.len(),
{
    if files.len() == 0 {
        rows
    } else {
        upserted(scanned(rows, files.drop_last()), files.last())
    }
}

/// What the rows of `files` that share `r`'s key do, in turn, to a row `r`
/// under the freshness rule.
pub open spec fn settle(r: RowView, files: Seq<RowView>) -> RowView
    decreases files.len(),
{
    if files.len() == 0 {
        r
    } else {
        let prev = settle(r, files.drop_last());
        let f = files.last();
        if key_of(f.query) == key_of(r.query) && f.timestamp >= prev.timestamp {
            f
        } else {
            prev
        }
    }
}

proof fn lemma_settle_bounds(r: RowView, files: Seq<RowView>, bound: u64)
    ensures
        key_of(settle(r, files).query) == key_of(r.query),
        r.timestamp <= settle(r, files).timestamp,
        forall|i: int|
            0 <= i < files.len() && key_of(#[trigger] files[i].query) == key_of(r.query)
                ==> files[i].timestamp <= settle(r, files).timestamp,
        r.timestamp <= bound && (forall|i: int|
            0 <= i < files.len() && key_of(#[trigger] files[i].query) == key_of(r.query)
                ==> files[i].timestamp <= bound) ==> settle(r, files).timestamp <= bound,
        (forall|i: int| 0 <= i < files.len() ==> key_of(#[trigger] files[i].query) != key_of(r.query))
            ==> settle(r, files) == r,
    decreases files.len(),
{
    if files.len() > 0 {
        let rest = files.drop_last();
        lemma_settle_bounds(r, rest, bound);
        assert forall|i: int| 0 <= i < rest.len() implies #[trigger] rest[i] == files[i] by {}
        let last = files.len() - 1;
        assert(files.last() == files[last]);
        assert(settle(r, rest).timestamp <= settle(r, files).timestamp);
        assert forall|i: int|
            0 <= i < files.len() && key_of(#[trigger] files[i].query) == key_of(r.query)
                implies files[i].timestamp <= settle(r, files).timestamp by {
            if i < last {
                assert(rest[i] == files[i]);
            }
        }
    }
}

proof fn lemma_upsert_keeps_keys(rows: Seq<RowView>, f: RowView, k: Seq<u32>)
    requires
        keys_unique(rows),
    ensures
        has_key(upserted(rows, f), key_of(f.query)),
        has_key(rows, k) ==> has_key(upserted(rows, f), k),
{
    lemma_upsert_row(rows, f);
    if has_key(rows, k) {
        let after = upserted(rows, f);
        let a = key_pos(rows, k);
        assert(key_of(rows[a].query) == k);
        if has_key(rows, key_of(f.query)) {
            assert(key_of(after[a].query) == k);
        } else {
            assert(after[a] == rows[a]);
        }
    }
}

proof fn lemma_scanned_facts(rows: Seq<RowView>, files: Seq<RowView>)
    requires
        keys_unique(rows),
    ensures
        keys_unique(scanned(rows, files)),
        forall|i: int| 0 <= i < files.len() ==> has_key(scanned(rows, files), key_of(#[trigger] files[i].query)),
        forall|k: Seq<u32>| has_key(rows, k) ==> #[trigger] has_key(scanned(rows, files), k),
        forall|j: int|
            0 <= j < scanned(rows, files).len() ==> settle(#[trigger] scanned(rows, files)[j], files)
                == scanned(rows, files)[j],
    decreases files.len(),
{
    if files.len() > 0 {
        let rest = files.drop_last();
        let f = files.last();
        let last = files.len() - 1;
        assert(f == files[last]);
        lemma_scanned_facts(rows, rest);
        let prev = scanned(rows, rest);
        let now = scanned(rows, files);
        assert(now == upserted(prev, f));
        lemma_upsert_then_lookup(prev, f.query, f.content, f.timestamp);
        assert(upserted(prev, f) == upserted(prev, RowView { query: f.query, content: f.content, timestamp: f.timestamp }));
        lemma_upsert_row(prev, f);
        assert forall|i: int| 0 <= i < files.len() implies has_key(now, key_of(#[trigger] files[i].query)) by {
            lemma_upsert_keeps_keys(prev, f, key_of(files[i].query));
            if i < last {
                assert(rest[i] == files[i]);
            }
        }
        assert forall|k: Seq<u32>| has_key(rows, k) implies #[trigger] has_key(now, k) by {
            lemma_upsert_keeps_keys(prev, f, k);
        }
        let k = key_of(f.query);
        assert forall|j: int| 0 <= j < now.len() implies settle(#[trigger] now[j], files) == now[j] by {
            assert forall|i: int| 0 <= i < rest.len() implies #[trigger] rest[i] == files[i] by {}
            if key_of(now[j].query) != k {
                if j < prev.len() {
                    assert(now[j] == prev[j]);
                    assert(settle(prev[j], rest) == prev[j]);
                } else {
                    assert(now[j] == f);
                }
            } else {
                lemma_key_pos(now, j);
                if has_key(prev, k) {
                    let p = key_pos(prev, k);
                    assert(key_of(prev[p].query) == k);
                    assert(settle(prev[p], rest) == prev[p]);
                    lemma_settle_bounds(prev[p], rest, prev[p].timestamp);
                    if is_stale(prev, f) {
                        assert(now == prev);
                        lemma_key_pos(prev, j);
                    } else {
                        assert(now[p] == f);
                        lemma_key_pos(now, p);
                        lemma_settle_bounds(f, rest, f.timestamp);
                    }
                } else {
                    assert(forall|i: int| 0 <= i < rest.len() ==> key_of(#[trigger] rest[i].query) != k);
                    assert(now[prev.len() as int] == f);
                    lemma_key_pos(now, prev.len() as int);
                    lemma_settle_bounds(f, rest, f.timestamp);
                }
            }
        }
    }
}

proof fn lemma_scan_settles(rows: Seq<RowView>, files: Seq<RowView>)
    requires
        keys_unique(rows),
        forall|i: int| 0 <= i < files.len() ==> has_key(rows, key_of(#[trigger] files[i].query)),
    ensures
        scanned(rows, files) == Seq::new(rows.len(), |j: int| settle(rows[j], files)),
    decreases files.len(),
{
    let target = Seq::new(rows.len(), |j: int| settle(rows[j], files));
    if files.len() == 0 {
        assert(scanned(rows, files) =~= target);
    } else {
        let rest = files.drop_last();
        let f = files.last();
        let last = files.len() - 1;
        assert(f == files[last]);
        assert forall|i: int| 0 <= i < rest.len() implies has_key(rows, key_of(#[trigger] rest[i].query)) by {
            assert(rest[i] == files[i]);
        }
        lemma_scan_settles(rows, rest);
        let prev = scanned(rows, rest);
        let k = key_of(f.query);
        assert forall|a: int| 0 <= a < prev.len() implies key_of(#[trigger] prev[a].query) == key_of(rows[a].query) by {
            lemma_settle_bounds(rows[a], rest, 0);
        }
        assert(keys_unique(prev));
        let p = key_pos(rows, k);
        assert(has_key(rows, k));
        assert(key_of(rows[p].query) == k);
        lemma_key_pos(prev, p);
        let now = upserted(prev, f);
        assert forall|j: int| 0 <= j < rows.len() implies #[trigger] now[j] == target[j] by {
            lemma_settle_bounds(rows[j], rest, 0);
            if j != p {
                assert(key_of(rows[j].query) != key_of(rows[p].query));
            }
        }
        assert(now =~= target);
    }
}

/// The index's state as values: its rows in insertion order and the
/// cumulative token usage.
pub struct IndexView {
    pub rows: Seq<RowView>,
    pub prompt_tokens: u64,
    pub completion_tokens: u64,
}

/// The vocabulary index: one row per query (unique up to ASCII case), kept
/// fresh by timestamp, and the cumulative token usage of the completion service.
pub struct VocabIndex {
    rows: Vec<Row>,
    prompt_tokens: u64,
    completion_tokens: u64,
}

impl View for VocabIndex {
    type V = IndexView;

    closed spec fn view(&self) -> IndexView {
        IndexView {
            rows: rows_view(self.rows@),
            prompt_tokens: self.prompt_tokens,
            completion_tokens: self.completion_tokens,
        }
    }
}

impl VocabIndex {
    pub open spec fn wf(&self) -> bool {
        keys_unique(self@.rows)
    }

    /// An empty index with no usage recorded.
    pub fn new() -> (r: VocabIndex)
        ensures
            r.wf(),
            r@.rows.len() == 0,
            r@.prompt_tokens == 0,
            r@.completion_tokens == 0,
    {
        let r = VocabIndex { rows: Vec::new(), prompt_tokens: 0, completion_tokens: 0 };
        assert(r@.rows =~= Seq::<RowView>::empty());
        r
    }

    /// The number of rows.
    pub fn len(&self) -> (r: usize)
        ensures
            r == self@.rows.len(),
    {
        self.rows.len()
    }

    /// The position of the row whose query equals `query` up to case.
    fn find_key(&self, query: &str) -> (r: Option<usize>)
        requires
            self.wf(),
        ensures
            r matches Some(a) ==> a < self@.rows.len() && has_key(self@.rows, key_of(query@))
                && key_pos(self@.rows, key_of(query@)) == a,
            r is None ==> !has_key(self@.rows, key_of(query@)),
    {
        let k = fold_codes(query);
        let mut a: usize = 0;
        while a < self.rows.len()
            invariant
                self.wf(),
                k@ == key_of(query@),
                a <= self@.rows.len(),
                forall|x: int| 0 <= x < a ==> key_of(#[trigger] self@.rows[x].query) != key_of(query@),
            decreases self@.rows.len() - a,
        {
            let ka = fold_codes(self.rows[a].query.as_str());
            if same_codes(&ka, &k) {
                proof {
                    lemma_key_pos(self@.rows, a as int);
                }
                return Some(a);
            }
            a = a + 1;
        }
        None
    }

    /// The rows, in insertion order.
    pub fn rows(&self) -> (r: &Vec<Row>)
        ensures
            rows_view(r@) == self@.rows,
    {
        &self.rows
    }

    /// Writes the row unless a row for the same query (up to case) is
    /// strictly newer; returns whether it was written.
    pub fn upsert(&mut self, query: String, content: String, timestamp: u64) -> (written: bool)
        requires
            old(self).wf(),
        ensures
            final(self).wf(),
            final(self)@.rows == upserted(
                old(self)@.rows,
                RowView { query: query@, content: content@, timestamp },
            ),
            written == !is_stale(old(self)@.rows, RowView { query: query@, content: content@, timestamp }),
            final(self)@.prompt_tokens == old(self)@.prompt_tokens,
            final(self)@.completion_tokens == old(self)@.completion_tokens,
    {
        let ghost r = RowView { query: query@, content: content@, timestamp };
        let ghost before = self@.rows;
        match self.find_key(query.as_str()) {
            Some(a) => {
                if self.rows[a].timestamp > timestamp {
                    return false;
                }
                let row = Row { query, content, timestamp };
                self.rows.set(a, row);
                assert(self@.rows =~= before.update(a as int, r));
                assert forall|x: int, y: int|
                    0 <= x < self@.rows.len() && 0 <= y < self@.rows.len() && x != y
                        implies key_of(#[trigger] self@.rows[x].query) != key_of(
                        #[trigger] self@.rows[y].query,
                    ) by {
                    if x == a {
                        assert(key_of(before[y].query) != key_of(before[a as int].query));
                    } else if y == a {
                        assert(key_of(before[x].query) != key_of(before[a as int].query));
                    } else {
                        assert(key_of(before[x].query) != key_of(before[y].query));
                    }
                }
                true
            },
            None => {
                let row = Row { query, content, timestamp };
                self.rows.push(row);
                assert(self@.rows =~= before.push(r));
                assert forall|x: int, y: int|
                    0 <= x < self@.rows.len() && 0 <= y < self@.rows.len() && x != y
                        implies key_of(#[trigger] self@.rows[x].query) != key_of(
                        #[trigger] self@.rows[y].query,
                    ) by {
                    if x == before.len() {
                        assert(!(0 <= y < before.len() && key_of(before[y].query) == key_of(r.query)));
                    } else if y == before.len() {
                        assert(!(0 <= x < before.len() && key_of(before[x].query) == key_of(r.query)));
                    } else {
                        assert(key_of(before[x].query) != key_of(before[y].query));
                    }
                }
                true
            },
        }
    }

    /// The content stored for exactly `query` (case-sensitive), if any.
    pub fn lookup(&self, query: &str) -> (r: Option<String>)
        requires
            self.wf(),
        ensures
            r matches Some(c) ==> lookup_spec(self@.rows, query@) == Some(c@),
            r is None ==> lookup_spec(self@.rows, query@) is None,
    {
        let mut a: usize = 0;
        while a < self.rows.len()
            invariant
                self.wf(),
                a <= self@.rows.len(),
                forall|x: int| 0 <= x < a ==> (#[trigger] self@.rows[x]).query != query@,
            decreases self@.rows.len() - a,
        {
            if same_text(self.rows[a].query.as_str(), query) {
                proof {
                    let rows = self@.rows;
                    assert(rows[a as int].query == query@);
                    let p = choose|x: int| 0 <= x < rows.len() && #[trigger] rows[x].query == query@;
                    assert(rows[p].query == query@);
                    if p != a {
                        assert(key_of(rows[p].query) != key_of(rows[a as int].query));
                    }
                }
                return Some(self.rows[a].content.clone());
            }
            a = a + 1;
        }
        None
    }

    /// Removes the row whose query equals `query` up to case; returns
    /// whether there was one.
    pub fn delete(&mut self, query: &str) -> (removed: bool)
        requires
            old(self).wf(),
        ensures
            final(self).wf(),
            final(self)@.rows == deleted(old(self)@.rows, query@),
            removed == has_key(old(self)@.rows, key_of(query@)),
            final(self)@.prompt_tokens == old(self)@.prompt_tokens,
            final(self)@.completion_tokens == old(self)@.completion_tokens,
    {
        let ghost before = self@.rows;
        match self.find_key(query) {
            Some(a) => {
                self.rows.remove(a);
                assert(self@.rows =~= before.remove(a as int));
                assert forall|x: int, y: int|
                    0 <= x < self@.rows.len() && 0 <= y < self@.rows.len() && x != y
                        implies key_of(#[trigger] self@.rows[x].query) != key_of(
                        #[trigger] self@.rows[y].query,
                    ) by {
                    let x0 = if x < a { x } else { x + 1 };
                    let y0 = if y < a { y } else { y + 1 };
                    assert(self@.rows[x] == before[x0]);
                    assert(self@.rows[y] == before[y0]);
                    assert(key_of(before[x0].query) != key_of(before[y0].query));
                }
                true
            },
            None => false,
        }
    }

    /// All queries, most recently touched first.
    pub fn list_all(&self) -> (r: Vec<String>)
        ensures
            strings_view(r@) == listing(self@.rows),
    {
        queries_by_recency(&self.rows)
    }

    /// The queries that contain `pattern`, both taken up to ASCII case, most
    /// recently touched first.
    pub fn search(&self, pattern: &str) -> (r: Vec<String>)
        ensures
            strings_view(r@) == listing(matching(self@.rows, pattern@)),
    {
        let pat = fold_codes(pattern);
        let mut found: Vec<Row> = Vec::new();
        let mut a: usize = 0;
        let ghost all = self@.rows;
        while a < self.rows.len()
            invariant
                all == self@.rows,
                pat@ == key_of(pattern@),
                a <= all.len(),
                rows_view(found@) == matching(all.subrange(0, a as int), pattern@),
            decreases all.len() - a,
        {
            let ka = fold_codes(self.rows[a].query.as_str());
            let ghost prev = all.subrange(0, a as int);
            assert(all.subrange(0, a + 1).drop_last() =~= prev);
            if occurs(&pat, &ka) {
                found.push(self.rows[a].duplicate());
                assert(rows_view(found@) =~= matching(prev, pattern@).push(all[a as int]));
            }
            a = a + 1;
        }
        assert(all.subrange(0, all.len() as int) =~= all);
        queries_by_recency(&found)
    }

    /// Upserts each file's row in turn, then lists all queries, most
    /// recently touched first.
    pub fn scan(&mut self, files: &Vec<Row>) -> (r: Vec<String>)
        requires
            old(self).wf(),
        ensures
            final(self).wf(),
            final(self)@.rows == scanned(old(self)@.rows, rows_view(files@)),
            strings_view(r@) == listing(final(self)@.rows),
            final(self)@.prompt_tokens == old(self)@.prompt_tokens,
            final(self)@.completion_tokens == old(self)@.completion_tokens,
    {
        let ghost start = self@.rows;
        let ghost fv = rows_view(files@);
        let mut i: usize = 0;
        assert(fv.subrange(0, 0) =~= Seq::<RowView>::empty());
        while i < files.len()
            invariant
                fv == rows_view(files@),
                i <= files@.len(),
                self.wf(),
                self@.rows == scanned(start, fv.subrange(0, i as int)),
                self@.prompt_tokens == old(self)@.prompt_tokens,
                self@.completion_tokens == old(self)@.completion_tokens,
            decreases files@.len() - i,
        {
            let f = files[i].duplicate();
            assert(fv.subrange(0, i + 1).drop_last() =~= fv.subrange(0, i as int));
            assert(fv.subrange(0, i + 1).last() == f@);
            self.upsert(f.query, f.content, f.timestamp);
            i = i + 1;
        }
        assert(fv.subrange(0, files@.len() as int) =~= fv);
        self.list_all()
    }

    /// The cumulative `(prompt, completion)` token usage; `(0, 0)` until
    /// something is recorded.
    pub fn load_usage(&self) -> (r: (u64, u64))
        ensures
            r == (self@.prompt_tokens, self@.completion_tokens),
    {
        (self.prompt_tokens, self.completion_tokens)
    }

    /// Whether `bump_usage` can add these amounts without overflow.
    pub fn can_bump(&self, prompt: u64, completion: u64) -> (r: bool)
        ensures
            r == (self@.prompt_tokens + prompt <= u64::MAX && self@.completion_tokens + completion
                <= u64::MAX),
    {
        prompt <= u64::MAX - self.prompt_tokens && completion <= u64::MAX - self.completion_tokens
    }

    /// Adds to the cumulative token usage.
    pub fn bump_usage(&mut self, prompt: u64, completion: u64)
        requires
            old(self)@.prompt_tokens + prompt <= u64::MAX,
            old(self)@.completion_tokens + completion <= u64::MAX,
        ensures
            final(self)@.rows == old(self)@.rows,
            final(self)@.prompt_tokens == old(self)@.prompt_tokens + prompt,
            final(self)@.completion_tokens == old(self)@.completion_tokens + completion,
    {
        self.prompt_tokens = self.prompt_tokens + prompt;
        self.completion_tokens = self.completion_tokens + completion;
    }
}

/// After an upsert of `(q, c, t)`, a lookup of exactly `q` gives `c`.
pub proof fn lemma_upsert_then_lookup(rows: Seq<RowView>, q: Seq<char>, c: Seq<char>, t: u64)
    requires
        keys_unique(rows),
    ensures
        keys_unique(upserted(rows, RowView { query: q, content: c, timestamp: t })),
        !is_stale(rows, RowView { query: q, content: c, timestamp: t }) ==> lookup_spec(
            upserted(rows, RowView { query: q, content: c, timestamp: t }),
            q,
        ) == Some(c),
{
    let r = RowView { query: q, content: c, timestamp: t };
    let k = key_of(q);
    let after = upserted(rows, r);
    if has_key(rows, k) {
        let p = key_pos(rows, k);
        assert(key_of(rows[p].query) == k);
        if !is_stale(rows, r) {
            assert(after[p] == r);
        }
        assert forall|x: int, y: int|
            0 <= x < after.len() && 0 <= y < after.len() && x != y
                implies key_of(#[trigger] after[x].query) != key_of(#[trigger] after[y].query) by {
            if !is_stale(rows, r) {
                if x == p {
                    assert(key_of(rows[y].query) != key_of(rows[p].query));
                } else if y == p {
                    assert(key_of(rows[x].query) != key_of(rows[p].query));
                } else {
                    assert(key_of(rows[x].query) != key_of(rows[y].query));
                }
            }
        }
    } else {
        assert(after[rows.len() as int] == r);
        assert forall|x: int, y: int|
            0 <= x < after.len() && 0 <= y < after.len() && x != y
                implies key_of(#[trigger] after[x].query) != key_of(#[trigger] after[y].query) by {
            if x == rows.len() {
                assert(!(0 <= y < rows.len() && key_of(rows[y].query) == k));
            } else if y == rows.len() {
                assert(!(0 <= x < rows.len() && key_of(rows[x].query) == k));
            } else {
                assert(key_of(rows[x].query) != key_of(rows[y].query));
            }
        }
    }
    if !is_stale(rows, r) {
        let i = if has_key(rows, k) { key_pos(rows, k) } else { rows.len() as int };
        assert(after[i].query == q);
        let w = choose|x: int| 0 <= x < after.len() && #[trigger] after[x].query == q;
        assert(after[w].query == q);
        if w != i {
            assert(key_of(after[w].query) != key_of(after[i].query));
        }
    }
}

/// The row stored for the key of `r` after an upsert of `r` is `r` itself, or
/// the older row when `r` was stale.
pub proof fn lemma_upsert_row(rows: Seq<RowView>, r: RowView)
    requires
        keys_unique(rows),
    ensures
        has_key(upserted(rows, r), key_of(r.query)),
        upserted(rows, r)[key_pos(upserted(rows, r), key_of(r.query))] == if is_stale(rows, r) {
            rows[key_pos(rows, key_of(r.query))]
        } else {
            r
        },
{
    lemma_upsert_then_lookup(rows, r.query, r.content, r.timestamp);
    let k = key_of(r.query);
    let after = upserted(rows, r);
    let i = if has_key(rows, k) { key_pos(rows, k) } else { rows.len() as int };
    assert(key_of(after[i].query) == k);
    assert(has_key(after, k));
    let p = key_pos(after, k);
    if p != i {
        assert(key_of(after[p].query) != key_of(after[i].query));
    }
}

/// Freshness: an upsert of `(q, c1, t1)` followed by an upsert of
/// `(q, c2, t2)` with `t1 <= t2` leaves `c2` stored for `q`, provided the
/// index held no row for `q` newer than `t2` to begin with.
pub proof fn lemma_newer_upsert_wins(
    rows: Seq<RowView>,
    q: Seq<char>,
    c1: Seq<char>,
    t1: u64,
    c2: Seq<char>,
    t2: u64,
)
    requires
        keys_unique(rows),
        t1 <= t2,
        !is_stale(rows, RowView { query: q, content: c2, timestamp: t2 }),
    ensures
        lookup_spec(
            upserted(
                upserted(rows, RowView { query: q, content: c1, timestamp: t1 }),
                RowView { query: q, content: c2, timestamp: t2 },
            ),
            q,
        ) == Some(c2),
{
    let r1 = RowView { query: q, content: c1, timestamp: t1 };
    lemma_upsert_row(rows, r1);
    lemma_upsert_then_lookup(rows, q, c1, t1);
    let mid = upserted(rows, r1);
    lemma_upsert_then_lookup(mid, q, c2, t2);
}

/// Freshness: after an upsert of `(q, c2, t2)`, a later upsert of
/// `(q, c1, t1)` with an older `t1 < t2` is suppressed and `c2` stays stored,
/// provided the index held no row for `q` newer than `t2` to begin with.
pub proof fn lemma_stale_upsert_suppressed(
    rows: Seq<RowView>,
    q: Seq<char>,
    c1: Seq<char>,
    t1: u64,
    c2: Seq<char>,
    t2: u64,
)
    requires
        keys_unique(rows),
        t1 < t2,
        !is_stale(rows, RowView { query: q, content: c2, timestamp: t2 }),
    ensures
        upserted(
            upserted(rows, RowView { query: q, content: c2, timestamp: t2 }),
            RowView { query: q, content: c1, timestamp: t1 },
        ) == upserted(rows, RowView { query: q, content: c2, timestamp: t2 }),
        lookup_spec(
            upserted(
                upserted(rows, RowView { query: q, content: c2, timestamp: t2 }),
                RowView { query: q, content: c1, timestamp: t1 },
            ),
            q,
        ) == Some(c2),
{
    let r2 = RowView { query: q, content: c2, timestamp: t2 };
    lemma_upsert_row(rows, r2);
    lemma_upsert_then_lookup(rows, q, c2, t2);
}

/// An upsert of a row under another key leaves the row stored under `k`
/// as it was.
proof fn lemma_upsert_other(rows: Seq<RowView>, r: RowView, k: Seq<u32>)
    requires
        keys_unique(rows),
        key_of(r.query) != k,
    ensures
        has_key(upserted(rows, r), k) == has_key(rows, k),
        has_key(rows, k) ==> upserted(rows, r)[key_pos(upserted(rows, r), k)] == rows[key_pos(rows, k)],
{
    lemma_upsert_then_lookup(rows, r.query, r.content, r.timestamp);
    assert(upserted(rows, r) == upserted(rows, RowView { query: r.query, content: r.content, timestamp: r.timestamp }));
    let after = upserted(rows, r);
    let kr = key_of(r.query);
    if has_key(rows, k) {
        let a = key_pos(rows, k);
        assert(key_of(rows[a].query) == k);
        if has_key(rows, kr) {
            let p = key_pos(rows, kr);
            assert(key_of(rows[p].query) == kr);
            assert(after[a] == rows[a]);
        } else {
            assert(after[a] == rows[a]);
        }
        assert(has_key(after, k));
        lemma_key_pos(after, a);
    }
    if has_key(after, k) {
        let b = key_pos(after, k);
        assert(key_of(after[b].query) == k);
        if has_key(rows, kr) {
            let p = key_pos(rows, kr);
            assert(key_of(rows[p].query) == kr);
            if !is_stale(rows, r) {
                assert(b != p);
            }
            assert(after[b] == rows[b]);
        } else {
            assert(b != rows.len());
            assert(after[b] == rows[b]);
        }
        assert(has_key(rows, k));
    }
}

/// A scan of files none of which has the key `k` leaves the row stored
/// under `k` as it was.
proof fn lemma_scan_untouched(rows: Seq<RowView>, files: Seq<RowView>, k: Seq<u32>)
    requires
        keys_unique(rows),
        forall|i: int| 0 <= i < files.len() ==> key_of(#[trigger] files[i].query) != k,
    ensures
        has_key(scanned(rows, files), k) == has_key(rows, k),
        has_key(rows, k) ==> scanned(rows, files)[key_pos(scanned(rows, files), k)]
            == rows[key_pos(rows, k)],
    decreases files.len(),
{
    if files.len() > 0 {
        let rest = files.drop_last();
        assert forall|i: int| 0 <= i < rest.len() implies key_of(#[trigger] rest[i].query) != k by {
            assert(rest[i] == files[i]);
        }
        assert(files.last() == files[files.len() - 1]);
        lemma_scan_untouched(rows, rest, k);
        lemma_scanned_facts(rows, rest);
        lemma_upsert_other(scanned(rows, rest), files.last(), k);
    }
}

/// The row that a scan leaves under the key of `files[i]`, when no other
/// file shares that key: the file's row, unless the index held a strictly
/// newer row for the key, which then stays.
proof fn lemma_scan_one_file(rows: Seq<RowView>, files: Seq<RowView>, i: int)
    requires
        keys_unique(rows),
        0 <= i < files.len(),
        forall|j: int|
            0 <= j < files.len() && j != i ==> key_of(#[trigger] files[j].query) != key_of(files[i].query),
    ensures
        has_key(scanned(rows, files), key_of(files[i].query)),
        scanned(rows, files)[key_pos(scanned(rows, files), key_of(files[i].query))] == if is_stale(
            rows,
            files[i],
        ) {
            rows[key_pos(rows, key_of(files[i].query))]
        } else {
            files[i]
        },
    decreases files.len(),
{
    let k = key_of(files[i].query);
    let rest = files.drop_last();
    let last = files.len() - 1;
    assert(files.last() == files[last]);
    lemma_scanned_facts(rows, rest);
    let prev = scanned(rows, rest);
    if i == last {
        assert forall|j: int| 0 <= j < rest.len() implies key_of(#[trigger] rest[j].query) != k by {
            assert(rest[j] == files[j]);
        }
        lemma_scan_untouched(rows, rest, k);
        lemma_upsert_row(prev, files[i]);
        if has_key(rows, k) {
            assert(is_stale(prev, files[i]) == is_stale(rows, files[i]));
        }
    } else {
        assert(rest[i] == files[i]);
        assert forall|j: int| 0 <= j < rest.len() && j != i implies key_of(#[trigger] rest[j].query) != k by {
            assert(rest[j] == files[j]);
        }
        lemma_scan_one_file(rows, rest, i);
        lemma_upsert_other(prev, files[last], k);
    }
}

/// With unique keys, a lookup of the query of the row at `p` finds it.
proof fn lemma_lookup_at(rows: Seq<RowView>, p: int)
    requires
        keys_unique(rows),
        0 <= p < rows.len(),
    ensures
        lookup_spec(rows, rows[p].query) == Some(rows[p].content),
{
    let q = rows[p].query;
    assert(rows[p].query == q);
    let w = choose|a: int| 0 <= a < rows.len() && #[trigger] rows[a].query == q;
    if w != p {
        assert(key_of(rows[w].query) != key_of(rows[p].query));
    }
}

/// Freshness over a scan: a file whose row is as new as, or newer than, any
/// row the index held for its query, and whose query no other scanned file
/// shares, leaves its content stored for that query. Equal timestamps are
/// replaceable.
pub proof fn lemma_scan_newer_file_wins(rows: Seq<RowView>, files: Seq<RowView>, i: int)
    requires
        keys_unique(rows),
        0 <= i < files.len(),
        forall|j: int|
            0 <= j < files.len() && j != i ==> key_of(#[trigger] files[j].query) != key_of(files[i].query),
        forall|a: int|
            0 <= a < rows.len() && key_of(#[trigger] rows[a].query) == key_of(files[i].query)
                ==> rows[a].timestamp <= files[i].timestamp,
    ensures
        lookup_spec(scanned(rows, files), files[i].query) == Some(files[i].content),
{
    let k = key_of(files[i].query);
    if has_key(rows, k) {
        let p = key_pos(rows, k);
        assert(key_of(rows[p].query) == k);
    }
    lemma_scan_one_file(rows, files, i);
    lemma_scanned_facts(rows, files);
    lemma_lookup_at(scanned(rows, files), key_pos(scanned(rows, files), k));
}

/// Freshness over a scan: a file older than the row the index holds for its
/// query, where no other scanned file shares that query, does not replace
/// the row, and a lookup still gives the row's content.
pub proof fn lemma_scan_stale_file_suppressed(rows: Seq<RowView>, files: Seq<RowView>, i: int, a: int)
    requires
        keys_unique(rows),
        0 <= i < files.len(),
        forall|j: int|
            0 <= j < files.len() && j != i ==> key_of(#[trigger] files[j].query) != key_of(files[i].query),
        0 <= a < rows.len(),
        rows[a].query == files[i].query,
        files[i].timestamp < rows[a].timestamp,
    ensures
        lookup_spec(scanned(rows, files), files[i].query) == Some(rows[a].content),
{
    let k = key_of(files[i].query);
    lemma_key_pos(rows, a);
    lemma_scan_one_file(rows, files, i);
    lemma_scanned_facts(rows, files);
    lemma_lookup_at(scanned(rows, files), key_pos(scanned(rows, files), k));
}

/// Deleting `q` leaves no row whose query is exactly `q`.
pub proof fn lemma_delete_then_lookup(rows: Seq<RowView>, q: Seq<char>)
    requires
        keys_unique(rows),
    ensures
        lookup_spec(deleted(rows, q), q) is None,
{
    let after = deleted(rows, q);
    let k = key_of(q);
    if exists|a: int| 0 <= a < after.len() && #[trigger] after[a].query == q {
        let a = choose|a: int| 0 <= a < after.len() && #[trigger] after[a].query == q;
        if has_key(rows, k) {
            let p = key_pos(rows, k);
            assert(key_of(rows[p].query) == k);
            let a0 = if a < p { a } else { a + 1 };
            assert(after[a] == rows[a0]);
            assert(key_of(rows[a0].query) != key_of(rows[p].query));
        } else {
            assert(key_of(rows[a].query) == k);
        }
    }
}

/// Scanning the same files twice in succession leaves the rows as the first
/// scan left them, and so gives the same listing.
pub proof fn lemma_scan_idempotent(rows: Seq<RowView>, files: Seq<RowView>)
    requires
        keys_unique(rows),
    ensures
        scanned(scanned(rows, files), files) == scanned(rows, files),
        listing(scanned(scanned(rows, files), files)) == listing(scanned(rows, files)),
{
    let once = scanned(rows, files);
    lemma_scanned_facts(rows, files);
    lemma_scan_settles(once, files);
    assert(scanned(once, files) =~= once);
}

proof fn lemma_insert_pos_bounds(order: Seq<int>, stamps: Seq<u64>, t: u64)
    ensures
        0 <= insert_pos(order, stamps, t) <= order.len(),
        forall|x: int| 0 <= x < insert_pos(order, stamps, t) ==> stamps[#[trigger] order[x]] >= t,
        insert_pos(order, stamps, t) < order.len() ==> stamps[order[insert_pos(order, stamps, t)]] < t,
    decreases order.len(),
{
    if order.len() > 0 && stamps[order[0]] >= t {
        let rest = order.drop_first();
        lemma_insert_pos_bounds(rest, stamps, t);
        assert forall|x: int| 0 <= x < insert_pos(order, stamps, t) implies stamps[#[trigger] order[x]] >= t by {
            if x > 0 {
                assert(order[x] == rest[x - 1]);
            }
        }
        if insert_pos(order, stamps, t) < order.len() {
            assert(order[insert_pos(order, stamps, t)] == rest[insert_pos(rest, stamps, t)]);
        }
    }
}

proof fn lemma_recency_order_sorted(stamps: Seq<u64>)
    ensures
        recency_order(stamps).len() == stamps.len(),
        forall|x: int| 0 <= x < stamps.len() ==> 0 <= #[trigger] recency_order(stamps)[x] < stamps.len(),
        forall|x: int, y: int|
            0 <= x < y < stamps.len() ==> stamps[#[trigger] recency_order(stamps)[x]]
                >= stamps[#[trigger] recency_order(stamps)[y]],
        forall|x: int, y: int|
            0 <= x < y < stamps.len() ==> #[trigger] recency_order(stamps)[x]
                != #[trigger] recency_order(stamps)[y],
        forall|x: int, y: int|
            0 <= x < y < stamps.len() && stamps[#[trigger] recency_order(stamps)[x]]
                == stamps[#[trigger] recency_order(stamps)[y]] ==> recency_order(stamps)[x]
                < recency_order(stamps)[y],
        forall|a: int| 0 <= a < stamps.len() ==> #[trigger] recency_order(stamps).contains(a),
    decreases stamps.len(),
{
    if stamps.len() > 0 {
        let shorter = stamps.drop_last();
        lemma_recency_order_sorted(shorter);
        let prev = recency_order(shorter);
        let t = stamps.last();
        let n = stamps.len() - 1;
        let p = insert_pos(prev, stamps, t);
        lemma_insert_pos_bounds(prev, stamps, t);
        let now = recency_order(stamps);
        assert(now == prev.insert(p, n));
        assert forall|x: int| 0 <= x < prev.len() implies #[trigger] stamps[prev[x]] == shorter[prev[x]] by {}
        assert forall|x: int| 0 <= x < stamps.len() implies 0 <= #[trigger] now[x] < stamps.len() by {
            if x < p {
                assert(now[x] == prev[x]);
            } else if x > p {
                assert(now[x] == prev[x - 1]);
            }
        }
        assert forall|x: int, y: int| 0 <= x < y < stamps.len() implies stamps[#[trigger] now[x]]
            >= stamps[#[trigger] now[y]] by {
            if y < p {
                assert(now[x] == prev[x] && now[y] == prev[y]);
                assert(shorter[prev[x]] >= shorter[prev[y]]);
            } else if y == p {
                assert(now[x] == prev[x]);
                assert(now[y] == n);
            } else if x < p {
                assert(now[x] == prev[x] && now[y] == prev[y - 1]);
                assert(shorter[prev[x]] >= shorter[prev[y - 1]]);
            } else if x == p {
                assert(now[x] == n && now[y] == prev[y - 1]);
                assert(stamps[prev[p]] < t);
                if y - 1 > p {
                    assert(shorter[prev[p]] >= shorter[prev[y - 1]]);
                }
            } else {
                assert(now[x] == prev[x - 1] && now[y] == prev[y - 1]);
                assert(shorter[prev[x - 1]] >= shorter[prev[y - 1]]);
            }
        }
        assert forall|x: int, y: int| 0 <= x < y < stamps.len() implies #[trigger] now[x]
            != #[trigger] now[y] && (stamps[now[x]] == stamps[now[y]] ==> now[x] < now[y]) by {
            if y < p {
                assert(now[x] == prev[x] && now[y] == prev[y]);
                assert(prev[x] != prev[y]);
            } else if y == p {
                assert(now[x] == prev[x]);
                assert(now[y] == n);
            } else if x < p {
                assert(now[x] == prev[x] && now[y] == prev[y - 1]);
                assert(prev[x] != prev[y - 1]);
            } else if x == p {
                assert(now[x] == n && now[y] == prev[y - 1]);
                assert(stamps[prev[p]] < t);
                if y - 1 > p {
                    assert(shorter[prev[p]] >= shorter[prev[y - 1]]);
                }
            } else {
                assert(now[x] == prev[x - 1] && now[y] == prev[y - 1]);
                assert(prev[x - 1] != prev[y - 1]);
            }
        }
        assert forall|a: int| 0 <= a < stamps.len() implies #[trigger] now.contains(a) by {
            if a == n {
                assert(now[p] == n);
            } else {
                assert(prev.contains(a));
                let x0 = choose|x: int| 0 <= x < prev.len() && prev[x] == a;
                if x0 < p {
                    assert(now[x0] == a);
                } else {
                    assert(now[x0 + 1] == a);
                }
            }
        }
    }
}

/// The listing names each row's query exactly once, most recently touched
/// first: the listing follows a permutation of the rows, in order of
/// non-increasing timestamp, and rows with equal timestamps keep their order.
pub proof fn lemma_listing_most_recent_first(rows: Seq<RowView>)
    ensures
        listing(rows).len() == rows.len(),
        forall|x: int|
            0 <= x < rows.len() ==> 0 <= #[trigger] recency_order(stamps_of(rows))[x] < rows.len()
                && listing(rows)[x] == rows[recency_order(stamps_of(rows))[x]].query,
        forall|x: int, y: int|
            0 <= x < y < rows.len() ==> #[trigger] recency_order(stamps_of(rows))[x]
                != #[trigger] recency_order(stamps_of(rows))[y],
        forall|a: int| 0 <= a < rows.len() ==> #[trigger] recency_order(stamps_of(rows)).contains(a),
        forall|x: int|
            0 <= x < rows.len() ==> exists|a: int|
                0 <= a < rows.len() && #[trigger] listing(rows)[x] == rows[a].query,
        forall|a: int| 0 <= a < rows.len() ==> #[trigger] listing(rows).contains(rows[a].query),
        forall|x: int, y: int|
            0 <= x < y < rows.len() ==> rows[#[trigger] recency_order(stamps_of(rows))[x]].timestamp
                >= rows[#[trigger] recency_order(stamps_of(rows))[y]].timestamp,
        forall|x: int, y: int|
            0 <= x < y < rows.len() && rows[#[trigger] recency_order(stamps_of(rows))[x]].timestamp
                == rows[#[trigger] recency_order(stamps_of(rows))[y]].timestamp
                ==> recency_order(stamps_of(rows))[x] < recency_order(stamps_of(rows))[y],
{
    let st = stamps_of(rows);
    lemma_recency_order_sorted(st);
    let order = recency_order(st);
    assert forall|x: int| 0 <= x < rows.len() implies exists|a: int|
        0 <= a < rows.len() && #[trigger] listing(rows)[x] == rows[a].query by {
        assert(0 <= order[x] < rows.len());
        assert(listing(rows)[x] == rows[order[x]].query);
    }
    assert forall|x: int, y: int| 0 <= x < y < rows.len() implies rows[#[trigger] order[x]].timestamp
        >= rows[#[trigger] order[y]].timestamp by {
        assert(st[order[x]] >= st[order[y]]);
    }
    assert forall|x: int, y: int|
        0 <= x < y < rows.len() && rows[#[trigger] order[x]].timestamp == rows[#[trigger] order[y]].timestamp
            implies order[x] < order[y] by {
        assert(st[order[x]] == st[order[y]]);
    }
    assert forall|a: int| 0 <= a < rows.len() implies #[trigger] listing(rows).contains(rows[a].query) by {
        assert(order.contains(a));
        let x = choose|x: int| 0 <= x < order.len() && order[x] == a;
        assert(listing(rows)[x] == rows[a].query);
    }
}

} // verus!
