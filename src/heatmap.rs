//! The market heatmap: one quote per watched ticker, ordered by percent
//! change, kept in a single time-boxed slot.
use vstd::prelude::*;

verus! {

/// How long a computed heatmap may be served, in seconds.
pub const HEATMAP_TTL_SECS: u64 = 1200;

/// One tile of the heatmap: last price in millionths, percent change in
/// millionths of a percent.
#[derive(Debug)]
pub struct HeatAsset {
    pub ticker: String,
    pub price: i64,
    pub change: i64,
}

impl HeatAsset {
    pub fn duplicate(&self) -> (r: HeatAsset)
        ensures
            r == *self,
    {
        HeatAsset { ticker: self.ticker.clone(), price: self.price, change: self.change }
    }
}

/// A quote lookup's result for one ticker: `None` when the lookup failed
/// or returned no data; otherwise last price and percent change, each
/// `None` when the provider left it out.
#[derive(Debug)]
pub struct QuoteResult {
    pub ticker: String,
    pub quote: Option<(Option<i64>, Option<i64>)>,
}

pub open spec fn or_zero(v: Option<i64>) -> i64 {
    match v {
        Some(x) => x,
        None => 0,
    }
}

/// The tiles of the lookups that produced a quote, in lookup order; a
/// missing price or change reads as zero.
pub open spec fn tiles_of(qs: Seq<QuoteResult>) -> Seq<(Seq<char>, i64, i64)>
    decreases qs.len(),
{
    if qs.len() == 0 {
        Seq::empty()
    } else {
        let rest = tiles_of(qs.drop_last());
        match qs.last().quote {
            Some((p, c)) => rest.push((qs.last().ticker@, or_zero(p), or_zero(c))),
            None => rest,
        }
    }
}

pub open spec fn tile_view(a: HeatAsset) -> (Seq<char>, i64, i64) {
    (a.ticker@, a.price, a.change)
}

pub open spec fn tiles_view(s: Seq<HeatAsset>) -> Seq<(Seq<char>, i64, i64)> {
    s.map_values(|a: HeatAsset| tile_view(a))
}

pub open spec fn sorted_by_change_desc(s: Seq<(Seq<char>, i64, i64)>) -> bool {
    forall|i: int, j: int| 0 <= i < j < s.len() ==> s[i].2 >= s[j].2
}

/// `order` lists each position below `n` exactly once.
pub open spec fn is_permutation(order: Seq<int>, n: int) -> bool {
    &&& order.len() == n
    &&& forall|a: int| 0 <= a < n ==> 0 <= #[trigger] order[a] < n
    &&& forall|a: int, b: int| 0 <= a < b < n ==> order[a] != order[b]
}

/// `out` is `tiles` stably sorted by change, largest first: tile `a` of
/// `out` is tile `order[a]` of `tiles`, and tiles of equal change keep
/// their order.
pub open spec fn stably_sorted_from(out: Seq<(Seq<char>, i64, i64)>, tiles: Seq<(Seq<char>, i64, i64)>, order: Seq<int>) -> bool {
    &&& is_permutation(order, tiles.len() as int)
    &&& out.len() == tiles.len()
    &&& forall|a: int| 0 <= a < out.len() ==> out[a] == tiles[#[trigger] order[a]]
    &&& forall|a: int, b: int|
        0 <= a < b < out.len() ==> out[a].2 > out[b].2 || (out[a].2 == out[b].2 && order[a] < order[b])
}

proof fn lemma_insert_stable(
    before: Seq<(Seq<char>, i64, i64)>,
    prev_tiles: Seq<(Seq<char>, i64, i64)>,
    old_order: Seq<int>,
    pos: int,
    x: (Seq<char>, i64, i64),
)
    requires
        sorted_by_change_desc(before),
        stably_sorted_from(before, prev_tiles, old_order),
        0 <= pos <= before.len(),
        forall|j: int| 0 <= j < pos ==> before[j].2 >= x.2,
        pos < before.len() ==> before[pos].2 < x.2,
    ensures
        sorted_by_change_desc(before.insert(pos, x)),
        stably_sorted_from(before.insert(pos, x), prev_tiles.push(x), old_order.insert(pos, prev_tiles.len() as int)),
{
    let t = before.insert(pos, x);
    let k = prev_tiles.len() as int;
    let order = old_order.insert(pos, k);
    let tiles = prev_tiles.push(x);
    assert forall|a: int| 0 <= a < t.len() implies 0 <= #[trigger] order[a] < t.len() && t[a] == tiles[order[a]] by {
        if a < pos {
            assert(order[a] == old_order[a]);
        } else if a > pos {
            assert(order[a] == old_order[a - 1]);
        }
    }
    assert forall|a: int, b: int| 0 <= a < b < t.len() implies order[a] != order[b] by {
        if a != pos && b != pos {
            let oa = if a < pos { a } else { a - 1 };
            let ob = if b < pos { b } else { b - 1 };
            assert(order[a] == old_order[oa] && order[b] == old_order[ob]);
        } else if a == pos {
            assert(order[b] == old_order[b - 1]);
        } else {
            assert(order[a] == old_order[a]);
        }
    }
    assert forall|a: int, b: int| 0 <= a < b < t.len() implies t[a].2 > t[b].2 || (t[a].2 == t[b].2 && order[a]
        < order[b]) by {
        if a < pos && b > pos {
            assert(t[a] == before[a] && t[b] == before[b - 1]);
            assert(order[a] == old_order[a] && order[b] == old_order[b - 1]);
        } else if a < pos && b == pos {
            assert(order[a] == old_order[a]);
        } else if a == pos {
            assert(t[b] == before[b - 1]);
        } else if a > pos {
            assert(t[a] == before[a - 1] && t[b] == before[b - 1]);
            assert(order[a] == old_order[a - 1] && order[b] == old_order[b - 1]);
        } else {
            assert(t[a] == before[a] && t[b] == before[b]);
            assert(order[a] == old_order[a] && order[b] == old_order[b]);
        }
    }
    assert forall|a: int, b: int| 0 <= a < b < t.len() implies t[a].2 >= t[b].2 by {
        if a < pos && b > pos {
            assert(t[b] == before[b - 1]);
        } else if a == pos && b > pos {
            assert(t[b] == before[b - 1]);
        } else if a > pos {
            assert(t[a] == before[a - 1]);
            assert(t[b] == before[b - 1]);
        } else if b == pos {
            assert(t[a] == before[a]);
        } else {
            assert(t[a] == before[a]);
            assert(t[b] == before[b]);
        }
    }
}

/// Builds the heatmap from the quote lookups: failed lookups are skipped,
/// the tiles are ordered by percent change, largest first, tiles of equal
/// change in lookup order.
pub fn build_heatmap(quotes: &[QuoteResult]) -> (r: Vec<HeatAsset>)
    ensures
        sorted_by_change_desc(tiles_view(r@)),
        tiles_view(r@).to_multiset() == tiles_of(quotes@).to_multiset(),
        exists|order: Seq<int>| stably_sorted_from(tiles_view(r@), tiles_of(quotes@), order),
{
    let ghost mut order: Seq<int> = Seq::empty();
    let mut out: Vec<HeatAsset> = Vec::new();
    let n = quotes.len();
    let mut i: usize = 0;
    proof {
        assert(tiles_view(out@) =~= Seq::<(Seq<char>, i64, i64)>::empty());
        assert(quotes@.subrange(0, 0) =~= Seq::<QuoteResult>::empty());
    }
    while i < n
        invariant
            n == quotes@.len(),
            i <= n,
            sorted_by_change_desc(tiles_view(out@)),
            tiles_view(out@).to_multiset() == tiles_of(quotes@.subrange(0, i as int)).to_multiset(),
            stably_sorted_from(tiles_view(out@), tiles_of(quotes@.subrange(0, i as int)), order),
        decreases n - i,
    {
        proof {
            assert(quotes@.subrange(0, i + 1).drop_last() =~= quotes@.subrange(0, i as int));
        }
        let q = &quotes[i];
        if let Some((p, c)) = q.quote {
            let price = match p {
                Some(x) => x,
                None => 0,
            };
            let change = match c {
                Some(x) => x,
                None => 0,
            };
            let mut pos: usize = 0;
            while pos < out.len() && out[pos].change >= change
                invariant
                    pos <= out@.len(),
                    forall|j: int| 0 <= j < pos ==> out@[j].change >= change,
                decreases out@.len() - pos,
            {
                pos = pos + 1;
            }
            let ghost before = tiles_view(out@);
            let tile = HeatAsset { ticker: q.ticker.clone(), price, change };
            out.insert(pos, tile);
            proof {
                assert(tiles_view(out@) =~= before.insert(pos as int, (q.ticker@, price, change)));
                assert(tiles_of(quotes@.subrange(0, i + 1)) == tiles_of(quotes@.subrange(0, i as int)).push(
                    (q.ticker@, price, change),
                ));
                let x = (q.ticker@, price, change);
                vstd::seq_lib::to_multiset_insert(before, pos as int, x);
                vstd::seq_lib::to_multiset_build(tiles_of(quotes@.subrange(0, i as int)), x);
                assert(tiles_of(quotes@.subrange(0, i as int)).push(x).to_multiset()
                    == tiles_of(quotes@.subrange(0, i as int)).to_multiset().insert(x));
                let prev_tiles = tiles_of(quotes@.subrange(0, i as int));
                lemma_insert_stable(before, prev_tiles, order, pos as int, x);
                order = order.insert(pos as int, prev_tiles.len() as int);
            }
        } else {
            proof {
                assert(tiles_of(quotes@.subrange(0, i + 1)) == tiles_of(quotes@.subrange(0, i as int)));
            }
        }
        i = i + 1;
    }
    proof {
        assert(quotes@.subrange(0, n as int) =~= quotes@);
        assert(stably_sorted_from(tiles_view(out@), tiles_of(quotes@), order));
    }
    out
}

/// A heatmap and when it was computed, in seconds on a monotonic clock.
#[derive(Debug)]
pub struct Snapshot {
    pub assets: Vec<HeatAsset>,
    pub computed_at: u64,
}

/// Seconds since `at`; a clock reading before `at` counts as no time.
pub open spec fn age(at: u64, now: u64) -> int {
    if now >= at { now - at } else { 0 }
}

/// The single cached heatmap, served while younger than the TTL.
#[derive(Debug)]
pub struct HeatmapCache {
    pub snapshot: Option<Snapshot>,
    pub ttl: u64,
}

/// What a cache serves at `now`: the stored tiles while their age is below
/// the TTL, else nothing.
pub open spec fn served(snapshot: Option<Snapshot>, ttl: u64, now: u64) -> Option<Seq<HeatAsset>> {
    match snapshot {
        Some(s) => if age(s.computed_at, now) < ttl { Some(s.assets@) } else { None },
        None => None,
    }
}

fn copy_assets(v: &Vec<HeatAsset>) -> (r: Vec<HeatAsset>)
    ensures
        r@ == v@,
{
    let mut out: Vec<HeatAsset> = Vec::new();
    let n = v.len();
    let mut i: usize = 0;
    while i < n
        invariant
            n == v@.len(),
            i <= n,
            out@ == v@.subrange(0, i as int),
        decreases n - i,
    {
        out.push(v[i].duplicate());
        proof {
            assert(out@ =~= v@.subrange(0, i + 1));
        }
        i = i + 1;
    }
    proof {
        assert(v@.subrange(0, n as int) =~= v@);
    }
    out
}

impl HeatmapCache {
    /// An empty cache with the given TTL in seconds.
    pub fn new(ttl: u64) -> (r: HeatmapCache)
        ensures
            r.snapshot is None,
            r.ttl == ttl,
    {
        HeatmapCache { snapshot: None, ttl }
    }

    /// A copy of the cached heatmap if it is younger than the TTL at `now`;
    /// `None` means it must be recomputed.
    pub fn lookup(&self, now: u64) -> (r: Option<Vec<HeatAsset>>)
        ensures
            match r {
                Some(v) => served(self.snapshot, self.ttl, now) == Some(v@),
                None => served(self.snapshot, self.ttl, now) is None,
            },
            r matches Some(_) ==> self.snapshot matches Some(s) && age(s.computed_at, now) < self.ttl,
    {
        match &self.snapshot {
            Some(s) => {
                let a: u64 = if now >= s.computed_at { now - s.computed_at } else { 0 };
                if a < self.ttl {
                    Some(copy_assets(&s.assets))
                } else {
                    None
                }
            },
            None => None,
        }
    }

    /// Stores a freshly computed heatmap taken at `now` and returns a copy
    /// of it.
    pub fn store(&mut self, assets: Vec<HeatAsset>, now: u64) -> (r: Vec<HeatAsset>)
        ensures
            final(self).ttl == old(self).ttl,
            final(self).snapshot matches Some(s) && s.assets@ == assets@ && s.computed_at == now,
            r@ == assets@,
    {
        let r = copy_assets(&assets);
        self.snapshot = Some(Snapshot { assets, computed_at: now });
        r
    }
}

/// A heatmap stored at `t` is served, unchanged, at any `t2` with
/// `t <= t2 < t + ttl`, and a served heatmap is never older than the TTL.
pub proof fn law_fresh_snapshot_served(assets: Vec<HeatAsset>, t: u64, t2: u64, ttl: u64)
    requires
        t <= t2,
        t2 - t < ttl,
    ensures
        served(Some(Snapshot { assets, computed_at: t }), ttl, t2) == Some(assets@),
        age(t, t2) <= ttl,
        age(t, t) == 0,
{
}

} // verus!
