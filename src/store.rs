//! In-memory local store: price rows keyed by (ticker, date) and statement
//! rows keyed by (issuer, period, kind), both with upsert semantics.
use vstd::prelude::*;
use crate::backfill::{strictly_by_date, DailyClose};
use crate::calendar::Date;
use crate::coverage::StoredRange;
use crate::statement::{flatten_statement, line_fields, reported, ReportedItem, StatementKind, StatementRecord};
use crate::text::text_eq;

verus! {

/// A stored closing price, in millionths.
#[derive(Debug)]
pub struct PricePoint {
    pub key: String,
    pub date: Date,
    pub price: i64,
}

pub open spec fn in_slot(p: PricePoint, key: Seq<char>, d: int) -> bool {
    p.key@ == key && p.date.days == d
}

/// Price rows, kept in date order, at most one per (key, date), every
/// price positive.
#[derive(Debug)]
pub struct PriceStore {
    pub rows: Vec<PricePoint>,
}

impl PriceStore {
    pub open spec fn wf(&self) -> bool {
        &&& forall|i: int, j: int| 0 <= i < j < self.rows@.len() ==> self.rows@[i].date.days <= self.rows@[j].date.days
        &&& forall|i: int, j: int|
            0 <= i < self.rows@.len() && 0 <= j < self.rows@.len() && i != j ==> !in_slot(
                self.rows@[i],
                self.rows@[j].key@,
                self.rows@[j].date.days as int,
            )
        &&& forall|i: int| 0 <= i < self.rows@.len() ==> self.rows@[i].price > 0
    }

    pub open spec fn has_slot(&self, key: Seq<char>, d: int) -> bool {
        exists|i: int| 0 <= i < self.rows@.len() && in_slot(self.rows@[i], key, d)
    }

    /// The stored price of `key` on day `d`.
    pub open spec fn price_at(&self, key: Seq<char>, d: int) -> Option<i64> {
        if self.has_slot(key, d) {
            Some(self.rows@[choose|i: int| 0 <= i < self.rows@.len() && in_slot(self.rows@[i], key, d)].price)
        } else {
            None
        }
    }

    /// Exactly one row holds (key, d).
    pub open spec fn single_row(&self, key: Seq<char>, d: int) -> bool {
        exists|i: int|
            0 <= i < self.rows@.len() && in_slot(self.rows@[i], key, d) && forall|j: int|
                0 <= j < self.rows@.len() && in_slot(self.rows@[j], key, d) ==> j == i
    }

    /// `new` is `old` after an upsert of (key, d, price).
    pub open spec fn upserted(old: &PriceStore, new: &PriceStore, key: Seq<char>, d: int, price: i64) -> bool {
        &&& new.wf()
        &&& price <= 0 ==> new.rows@ == old.rows@
        &&& price > 0 ==> forall|k: Seq<char>, e: int|
            #[trigger] new.price_at(k, e) == if k == key && e == d { Some(price) } else { old.price_at(k, e) }
    }

    /// `r` is what a read of `key` from `start` to `end` returns: the
    /// stored closes of that range, in date order.
    pub open spec fn selection(&self, key: Seq<char>, start: Date, end: Date, r: Seq<DailyClose>) -> bool {
        &&& strictly_by_date(r)
        &&& forall|i: int| 0 <= i < r.len() ==> start.days <= (#[trigger] r[i]).date.days <= end.days
            && self.price_at(key, r[i].date.days as int) == Some(r[i].close)
        &&& forall|d: int| start.days <= d <= end.days && #[trigger] self.price_at(key, d) is Some ==> exists|i: int|
            0 <= i < r.len() && r[i].date.days == d
    }

    pub proof fn lemma_price_at(&self, i: int)
        requires
            self.wf(),
            0 <= i < self.rows@.len(),
        ensures
            self.price_at(self.rows@[i].key@, self.rows@[i].date.days as int) == Some(self.rows@[i].price),
    {
        let key = self.rows@[i].key@;
        let d = self.rows@[i].date.days as int;
        let c = choose|c: int| 0 <= c < self.rows@.len() && in_slot(self.rows@[c], key, d);
        assert(c == i);
    }

    pub fn new() -> (r: PriceStore)
        ensures
            r.wf(),
            forall|k: Seq<char>, e: int| r.price_at(k, e) is None,
    {
        PriceStore { rows: Vec::new() }
    }

    /// Stores `price` for (key, date), replacing a stored price of that
    /// slot; a non-positive price is no data and is ignored.
    pub fn upsert(&mut self, key: &str, date: Date, price: i64)
        requires
            old(self).wf(),
        ensures
            PriceStore::upserted(&*old(self), &*final(self), key@, date.days as int, price),
    {
        if price <= 0 {
            return;
        }
        let ghost old_rows = self.rows@;
        let n = self.rows.len();
        let mut i: usize = 0;
        while i < n
            invariant
                n == self.rows@.len(),
                self.rows@ == old_rows,
                old_rows == old(self).rows@,
                old(self).wf(),
                price > 0,
                i <= n,
                forall|j: int| 0 <= j < i ==> !in_slot(self.rows@[j], key@, date.days as int),
            decreases n - i,
        {
            if self.rows[i].date.days == date.days && text_eq(self.rows[i].key.as_str(), key) {
                self.rows.set(i, PricePoint { key: key.to_owned(), date, price });
                proof {
                    let rows = self.rows@;
                    assert forall|a: int| 0 <= a < rows.len() && a != i implies rows[a] == old_rows[a] by {}
                    assert(rows[i as int].date == old_rows[i as int].date);
                    assert forall|a: int, b: int| 0 <= a < b < rows.len() implies rows[a].date.days <= rows[b].date.days by {
                        assert(old_rows[a].date.days <= old_rows[b].date.days);
                    }
                    assert forall|a: int, b: int|
                        0 <= a < rows.len() && 0 <= b < rows.len() && a != b implies !in_slot(rows[a], rows[b].key@, rows[b].date.days as int) by {
                        assert(in_slot(old_rows[i as int], rows[i as int].key@, rows[i as int].date.days as int));
                    }
                    assert forall|a: int| 0 <= a < rows.len() implies rows[a].price > 0 by {
                        if a != i {
                            assert(old_rows[a].price > 0);
                        }
                    }
                    assert(self.wf());
                    assert forall|k: Seq<char>, e: int| #[trigger] self.price_at(k, e) == if k == key@ && e == date.days {
                        Some(price)
                    } else {
                        old(self).price_at(k, e)
                    } by {
                        if k == key@ && e == date.days {
                            self.lemma_price_at(i as int);
                        } else if old(self).has_slot(k, e) {
                            let c = choose|c: int| 0 <= c < old_rows.len() && in_slot(old_rows[c], k, e);
                            old(self).lemma_price_at(c);
                            self.lemma_price_at(c);
                        } else {
                            assert(!self.has_slot(k, e));
                        }
                    }
                }
                return;
            }
            i = i + 1;
        }
        let mut p: usize = 0;
        while p < n && self.rows[p].date.days <= date.days
            invariant
                n == self.rows@.len(),
                self.rows@ == old_rows,
                old_rows == old(self).rows@,
                old(self).wf(),
                p <= n,
                forall|j: int| 0 <= j < p ==> self.rows@[j].date.days <= date.days,
            decreases n - p,
        {
            p = p + 1;
        }
        self.rows.insert(p, PricePoint { key: key.to_owned(), date, price });
        proof {
            let rows = self.rows@;
            assert forall|a: int| 0 <= a < rows.len() implies (a < p ==> rows[a] == old_rows[a]) && (a > p ==> rows[a]
                == old_rows[a - 1]) by {}
            assert forall|a: int, b: int| 0 <= a < b < rows.len() implies rows[a].date.days <= rows[b].date.days by {
                if b < p {
                } else if b == p {
                } else if a < p {
                    if p < old_rows.len() {
                        assert(old_rows[p as int].date.days <= old_rows[b - 1].date.days);
                    }
                } else if a == p {
                    assert(old_rows[p as int].date.days <= old_rows[b - 1].date.days);
                }
            }
            assert forall|a: int, b: int|
                0 <= a < rows.len() && 0 <= b < rows.len() && a != b implies !in_slot(rows[a], rows[b].key@, rows[b].date.days as int) by {
                if a == p {
                    let ob = if b < p { b } else { b - 1 };
                    assert(rows[b] == old_rows[ob]);
                } else if b == p {
                    let oa = if a < p { a } else { a - 1 };
                    assert(rows[a] == old_rows[oa]);
                } else {
                    let oa = if a < p { a } else { a - 1 };
                    let ob = if b < p { b } else { b - 1 };
                    assert(rows[a] == old_rows[oa]);
                    assert(rows[b] == old_rows[ob]);
                }
            }
            assert forall|k: Seq<char>, e: int| #[trigger] self.price_at(k, e) == if k == key@ && e == date.days {
                Some(price)
            } else {
                old(self).price_at(k, e)
            } by {
                if k == key@ && e == date.days {
                    self.lemma_price_at(p as int);
                } else if old(self).has_slot(k, e) {
                    let c = choose|c: int| 0 <= c < old_rows.len() && in_slot(old_rows[c], k, e);
                    old(self).lemma_price_at(c);
                    let a = if c < p { c } else { c + 1 };
                    assert(rows[a] == old_rows[c]);
                    self.lemma_price_at(a);
                } else {
                    if self.has_slot(k, e) {
                        let a = choose|a: int| 0 <= a < rows.len() && in_slot(rows[a], k, e);
                        let oa = if a < p { a } else { a - 1 };
                        assert(rows[a] == old_rows[oa]);
                    }
                }
            }
        }
    }

    /// The stored closes of `key` from `start` to `end`, in date order.
    pub fn select_range(&self, key: &str, start: Date, end: Date) -> (r: Vec<DailyClose>)
        requires
            self.wf(),
        ensures
            self.selection(key@, start, end, r@),
    {
        let mut out: Vec<DailyClose> = Vec::new();
        let ghost mut last_row: int = -1;
        let n = self.rows.len();
        let mut i: usize = 0;
        while i < n
            invariant
                self.wf(),
                n == self.rows@.len(),
                i <= n,
                strictly_by_date(out@),
                forall|m: int| 0 <= m < out@.len() ==> start.days <= (#[trigger] out@[m]).date.days <= end.days
                    && self.price_at(key@, out@[m].date.days as int) == Some(out@[m].close),
                forall|j: int| 0 <= j < i && start.days <= self.rows@[j].date.days <= end.days
                    && #[trigger] self.rows@[j].key@ == key@ ==> exists|m: int| 0 <= m < out@.len() && out@[m].date
                    == self.rows@[j].date,
                out@.len() > 0 ==> 0 <= last_row < i && in_slot(self.rows@[last_row], key@, out@.last().date.days as int),
            decreases n - i,
        {
            let row = &self.rows[i];
            if start.days <= row.date.days && row.date.days <= end.days && text_eq(row.key.as_str(), key) {
                proof {
                    self.lemma_price_at(i as int);
                    if out@.len() > 0 {
                        assert(self.rows@[last_row].date.days <= self.rows@[i as int].date.days);
                        assert(last_row != i);
                    }
                }
                let ghost before = out@;
                out.push(DailyClose { date: row.date, close: row.price });
                proof {
                    last_row = i as int;
                    assert forall|j: int| 0 <= j < i + 1 && start.days <= self.rows@[j].date.days <= end.days
                        && #[trigger] self.rows@[j].key@ == key@ implies exists|m: int| 0 <= m < out@.len() && out@[m].date
                        == self.rows@[j].date by {
                        if j < i {
                            let m = choose|m: int| 0 <= m < before.len() && before[m].date == self.rows@[j].date;
                            assert(out@[m] == before[m]);
                        } else {
                            assert(out@[before.len() as int].date == self.rows@[j].date);
                        }
                    }
                }
            }
            i = i + 1;
        }
        proof {
            assert forall|d: int| start.days <= d <= end.days && #[trigger] self.price_at(key@, d) is Some implies exists|m: int|
                0 <= m < out@.len() && out@[m].date.days == d by {
                let c = choose|c: int| 0 <= c < self.rows@.len() && in_slot(self.rows@[c], key@, d);
                let m = choose|m: int| 0 <= m < out@.len() && out@[m].date == self.rows@[c].date;
            }
        }
        out
    }

    /// First and last stored dates of `key`; `None` when nothing is stored.
    pub fn stored_range(&self, key: &str) -> (r: Option<StoredRange>)
        requires
            self.wf(),
        ensures
            r is None <==> !exists|d: int| #[trigger] self.price_at(key@, d) is Some,
            r matches Some(s) ==> {
                &&& self.price_at(key@, s.first.days as int) is Some
                &&& self.price_at(key@, s.last.days as int) is Some
                &&& forall|d: int| #[trigger] self.price_at(key@, d) is Some ==> s.first.days <= d <= s.last.days
            },
    {
        let n = self.rows.len();
        let mut found: Option<StoredRange> = None;
        let ghost mut first_row: int = 0;
        let mut i: usize = 0;
        while i < n
            invariant
                self.wf(),
                n == self.rows@.len(),
                i <= n,
                found is None <==> forall|j: int| 0 <= j < i ==> !(#[trigger] self.rows@[j].key@ == key@),
                found matches Some(s) ==> {
                    &&& self.price_at(key@, s.first.days as int) is Some
                    &&& self.price_at(key@, s.last.days as int) is Some
                    &&& 0 <= first_row < i
                    &&& self.rows@[first_row].date == s.first
                    &&& forall|j: int| 0 <= j < i && #[trigger] self.rows@[j].key@ == key@ ==> s.first.days
                        <= self.rows@[j].date.days <= s.last.days
                },
            decreases n - i,
        {
            let row = &self.rows[i];
            if text_eq(row.key.as_str(), key) {
                proof {
                    self.lemma_price_at(i as int);
                }
                match found {
                    None => {
                        proof {
                            first_row = i as int;
                        }
                        found = Some(StoredRange { first: row.date, last: row.date });
                    },
                    Some(s) => {
                        proof {
                            assert(self.rows@[first_row].date.days <= self.rows@[i as int].date.days);
                        }
                        found = Some(StoredRange { first: s.first, last: row.date });
                    },
                }
            }
            i = i + 1;
        }
        proof {
            match found {
                Some(s) => {
                    assert forall|d: int| #[trigger] self.price_at(key@, d) is Some implies s.first.days <= d <= s.last.days by {
                        let c = choose|c: int| 0 <= c < self.rows@.len() && in_slot(self.rows@[c], key@, d);
                    }
                },
                None => {
                    assert forall|d: int| !(#[trigger] self.price_at(key@, d) is Some) by {
                        if self.has_slot(key@, d) {
                            let c = choose|c: int| 0 <= c < self.rows@.len() && in_slot(self.rows@[c], key@, d);
                        }
                    }
                },
            }
        }
        found
    }
}

/// Upserting a (key, date, price) leaves exactly one row for (key, date),
/// however often it is repeated.
pub proof fn law_upsert_single_row(s0: &PriceStore, s1: &PriceStore, s2: &PriceStore, key: Seq<char>, d: int, price: i64)
    requires
        s0.wf(),
        price > 0,
        PriceStore::upserted(s0, s1, key, d, price),
        PriceStore::upserted(s1, s2, key, d, price),
    ensures
        s2.single_row(key, d),
        s2.price_at(key, d) == Some(price),
        forall|k: Seq<char>, e: int| #[trigger] s2.price_at(k, e) == s1.price_at(k, e),
{
    assert(s2.price_at(key, d) == Some(price));
    let i = choose|i: int| 0 <= i < s2.rows@.len() && in_slot(s2.rows@[i], key, d);
    assert forall|j: int| 0 <= j < s2.rows@.len() && in_slot(s2.rows@[j], key, d) implies j == i by {}
    assert forall|k: Seq<char>, e: int| #[trigger] s2.price_at(k, e) == s1.price_at(k, e) by {
        if k == key && e == d {
            assert(s1.price_at(k, e) == Some(price));
        }
    }
}

} // verus!

verus! {

/// `r` is the caller-facing view of a stored statement: each column with
/// its amount, unreported as zero; empty when nothing is stored.
pub open spec fn reads_as(stored: Option<Seq<Option<i64>>>, kind: StatementKind, r: Seq<ReportedItem>) -> bool {
    match stored {
        None => r.len() == 0,
        Some(values) => r.len() == values.len() && forall|i: int| 0 <= i < r.len()
            ==> (#[trigger] r[i]).name@ == line_fields(kind)[i].1 && r[i].value == reported(values[i]),
    }
}

pub open spec fn keyed(r: StatementRecord, issuer: Seq<char>, period: Seq<char>, kind: StatementKind) -> bool {
    r.issuer@ == issuer && r.period@ == period && r.kind == kind
}

/// Statement rows, at most one per (issuer, period, kind), each with one
/// amount per line item of its kind.
#[derive(Debug)]
pub struct StatementStore {
    pub records: Vec<StatementRecord>,
}

impl StatementStore {
    pub open spec fn wf(&self) -> bool {
        &&& forall|i: int, j: int|
            0 <= i < self.records@.len() && 0 <= j < self.records@.len() && i != j ==> !keyed(
                self.records@[i],
                self.records@[j].issuer@,
                self.records@[j].period@,
                self.records@[j].kind,
            )
        &&& forall|i: int| 0 <= i < self.records@.len() ==> (#[trigger] self.records@[i]).values@.len()
            == line_fields(self.records@[i].kind).len()
    }

    pub open spec fn has(&self, issuer: Seq<char>, period: Seq<char>, kind: StatementKind) -> bool {
        exists|i: int| 0 <= i < self.records@.len() && keyed(self.records@[i], issuer, period, kind)
    }

    /// The stored amounts of a statement.
    pub open spec fn stored(&self, issuer: Seq<char>, period: Seq<char>, kind: StatementKind) -> Option<Seq<Option<i64>>> {
        if self.has(issuer, period, kind) {
            Some(self.records@[choose|i: int| 0 <= i < self.records@.len() && keyed(self.records@[i], issuer, period, kind)].values@)
        } else {
            None
        }
    }

    /// `new` is `old` after an upsert of `values` for (issuer, period, kind).
    pub open spec fn upserted(old: &StatementStore, new: &StatementStore, issuer: Seq<char>, period: Seq<char>, kind: StatementKind, values: Seq<Option<i64>>) -> bool {
        &&& new.wf()
        &&& forall|a: Seq<char>, b: Seq<char>, k: StatementKind| #[trigger] new.stored(a, b, k) == if a == issuer
            && b == period && k == kind {
            Some(values)
        } else {
            old.stored(a, b, k)
        }
    }

    proof fn lemma_stored(&self, i: int)
        requires
            self.wf(),
            0 <= i < self.records@.len(),
        ensures
            self.stored(self.records@[i].issuer@, self.records@[i].period@, self.records@[i].kind) == Some(self.records@[i].values@),
    {
        let r = self.records@[i];
        let c = choose|c: int| 0 <= c < self.records@.len() && keyed(self.records@[c], r.issuer@, r.period@, r.kind);
        assert(c == i);
    }

    pub fn new() -> (r: StatementStore)
        ensures
            r.wf(),
            forall|a: Seq<char>, b: Seq<char>, k: StatementKind| !r.has(a, b, k),
    {
        StatementStore { records: Vec::new() }
    }

    fn find(&self, issuer: &str, period: &str, kind: StatementKind) -> (r: Option<usize>)
        requires
            self.wf(),
        ensures
            r is None <==> !self.has(issuer@, period@, kind),
            r matches Some(i) ==> i < self.records@.len() && keyed(self.records@[i as int], issuer@, period@, kind),
    {
        let n = self.records.len();
        let mut i: usize = 0;
        while i < n
            invariant
                n == self.records@.len(),
                i <= n,
                forall|j: int| 0 <= j < i ==> !keyed(#[trigger] self.records@[j], issuer@, period@, kind),
            decreases n - i,
        {
            let r = &self.records[i];
            if r.kind == kind && text_eq(r.issuer.as_str(), issuer) && text_eq(r.period.as_str(), period) {
                return Some(i);
            }
            i = i + 1;
        }
        None
    }

    /// Whether a statement is stored: no partial coverage, present or not.
    pub fn contains_statement(&self, issuer: &str, period: &str, kind: StatementKind) -> (r: bool)
        requires
            self.wf(),
        ensures
            r == self.has(issuer@, period@, kind),
    {
        self.find(issuer, period, kind).is_some()
    }

    /// Stores a statement row, replacing the row of the same key.
    pub fn upsert_statement(&mut self, rec: StatementRecord)
        requires
            old(self).wf(),
            rec.values@.len() == line_fields(rec.kind).len(),
        ensures
            StatementStore::upserted(&*old(self), &*final(self), rec.issuer@, rec.period@, rec.kind, rec.values@),
    {
        let ghost old_recs = self.records@;
        let ghost rv = rec.values@;
        let ghost (ri, rp, rk) = (rec.issuer@, rec.period@, rec.kind);
        let found = self.find(rec.issuer.as_str(), rec.period.as_str(), rec.kind);
        let idx = match found {
            Some(i) => {
                self.records.set(i, rec);
                i
            },
            None => {
                self.records.push(rec);
                self.records.len() - 1
            },
        };
        proof {
            let recs = self.records@;
            assert forall|a: int| 0 <= a < recs.len() && a != idx implies recs[a] == old_recs[a] by {}
            assert forall|a: int, b: int|
                0 <= a < recs.len() && 0 <= b < recs.len() && a != b implies !keyed(recs[a], recs[b].issuer@, recs[b].period@, recs[b].kind) by {
                if a == idx && b < old_recs.len() {
                    if found is Some {
                        assert(keyed(old_recs[idx as int], ri, rp, rk));
                    }
                } else if b == idx && a < old_recs.len() {
                    if found is Some {
                        assert(keyed(old_recs[idx as int], ri, rp, rk));
                    }
                }
            }
            assert forall|a: int| 0 <= a < recs.len() implies (#[trigger] recs[a]).values@.len() == line_fields(recs[a].kind).len() by {
                if a != idx {
                    assert(old_recs[a].values@.len() == line_fields(old_recs[a].kind).len());
                }
            }
            assert(self.wf());
            assert forall|a: Seq<char>, b: Seq<char>, k: StatementKind| #[trigger] self.stored(a, b, k) == if a == ri && b == rp && k == rk {
                Some(rv)
            } else {
                old(self).stored(a, b, k)
            } by {
                if a == ri && b == rp && k == rk {
                    self.lemma_stored(idx as int);
                } else if old(self).has(a, b, k) {
                    let c = choose|c: int| 0 <= c < old_recs.len() && keyed(old_recs[c], a, b, k);
                    old(self).lemma_stored(c);
                    assert(c != idx);
                    self.lemma_stored(c);
                } else if self.has(a, b, k) {
                    let c = choose|c: int| 0 <= c < recs.len() && keyed(recs[c], a, b, k);
                    assert(c != idx);
                    assert(recs[c] == old_recs[c]);
                }
            }
        }
    }

    /// The caller-facing view of a stored statement, unreported items read
    /// as zero; empty when the statement is not stored.
    pub fn read_statement(&self, issuer: &str, period: &str, kind: StatementKind) -> (r: Vec<ReportedItem>)
        requires
            self.wf(),
        ensures
            reads_as(self.stored(issuer@, period@, kind), kind, r@),
    {
        match self.find(issuer, period, kind) {
            Some(i) => {
                proof {
                    self.lemma_stored(i as int);
                }
                flatten_statement(kind, self.records[i].values.as_slice())
            },
            None => Vec::new(),
        }
    }
}

} // verus!
