//! Resolution of free-form ticker text to an issuer of the directory.
//!
//! Stages, the first that matches wins: an exact match on issuer code plus
//! series code, or on the issuer code alone; the longest issuer code that
//! prefixes the query; an issuer code that contains, or is contained in,
//! the query's first six characters.
use vstd::prelude::*;
use crate::error::SyncError;
use crate::text::{contains, contains_text, is_concat_of, is_prefix, starts_with, take, text_eq};

verus! {

/// Length of the query prefix used by the similarity stage.
pub const SIMILAR_PREFIX_LEN: usize = 6;

/// A listed security: issuer code and series code, with a display name and
/// security-type description.
#[derive(Debug)]
pub struct IssuerIdentity {
    pub issuer_code: String,
    pub series_code: String,
    pub display_name: String,
    pub security_type: Option<String>,
}

impl IssuerIdentity {
    /// The issuer code is never empty; the series code may be.
    pub open spec fn wf(&self) -> bool {
        self.issuer_code@.len() > 0
    }

    /// Issuer code followed by series code.
    pub open spec fn full_code(&self) -> Seq<char> {
        self.issuer_code@ + self.series_code@
    }

    /// A copy of this identity.
    pub fn duplicate(&self) -> (r: IssuerIdentity)
        ensures
            r == *self,
    {
        IssuerIdentity {
            issuer_code: self.issuer_code.clone(),
            series_code: self.series_code.clone(),
            display_name: self.display_name.clone(),
            security_type: match &self.security_type {
                Some(t) => Some(t.clone()),
                None => None,
            },
        }
    }
}

pub open spec fn directory_wf(dir: Seq<IssuerIdentity>) -> bool {
    forall|i: int| 0 <= i < dir.len() ==> #[trigger] dir[i].wf()
}

pub open spec fn exact_match(e: IssuerIdentity, q: Seq<char>) -> bool {
    e.full_code() == q || e.issuer_code@ == q
}

pub open spec fn prefix_match(e: IssuerIdentity, q: Seq<char>) -> bool {
    is_prefix(e.issuer_code@, q)
}

pub open spec fn similar_match(e: IssuerIdentity, q: Seq<char>) -> bool {
    contains(e.issuer_code@, take(q, SIMILAR_PREFIX_LEN as int))
        || contains(take(q, SIMILAR_PREFIX_LEN as int), e.issuer_code@)
}

pub open spec fn any_exact(dir: Seq<IssuerIdentity>, q: Seq<char>, n: int) -> bool {
    exists|j: int| 0 <= j < n && exact_match(#[trigger] dir[j], q)
}

pub open spec fn any_prefix(dir: Seq<IssuerIdentity>, q: Seq<char>, n: int) -> bool {
    exists|j: int| 0 <= j < n && prefix_match(#[trigger] dir[j], q)
}

pub open spec fn any_similar(dir: Seq<IssuerIdentity>, q: Seq<char>, n: int) -> bool {
    exists|j: int| 0 <= j < n && similar_match(#[trigger] dir[j], q)
}

/// Entry `i` is the first exact match.
pub open spec fn first_exact(dir: Seq<IssuerIdentity>, q: Seq<char>, i: int) -> bool {
    0 <= i < dir.len() && exact_match(dir[i], q) && !any_exact(dir, q, i)
}

/// Among the first `n` entries, entry `i` has the longest issuer code that
/// prefixes the query, and is the first entry with a code that long.
pub open spec fn best_prefix_upto(dir: Seq<IssuerIdentity>, q: Seq<char>, i: int, n: int) -> bool {
    &&& 0 <= i < n
    &&& n <= dir.len()
    &&& prefix_match(dir[i], q)
    &&& forall|j: int|
        0 <= j < n && prefix_match(#[trigger] dir[j], q) ==> dir[j].issuer_code@.len()
            <= dir[i].issuer_code@.len()
    &&& forall|j: int|
        0 <= j < i && prefix_match(#[trigger] dir[j], q) ==> dir[j].issuer_code@.len()
            < dir[i].issuer_code@.len()
}

/// Entry `i` is the first similarity match.
pub open spec fn first_similar(dir: Seq<IssuerIdentity>, q: Seq<char>, i: int) -> bool {
    0 <= i < dir.len() && similar_match(dir[i], q) && !any_similar(dir, q, i)
}

/// Query `q` resolves to entry `i` of the directory.
pub open spec fn resolves_to(dir: Seq<IssuerIdentity>, q: Seq<char>, i: int) -> bool {
    ||| first_exact(dir, q, i)
    ||| !any_exact(dir, q, dir.len() as int) && best_prefix_upto(dir, q, i, dir.len() as int)
    ||| !any_exact(dir, q, dir.len() as int) && !any_prefix(dir, q, dir.len() as int)
        && first_similar(dir, q, i)
}

/// The entry that `q` resolves to, if any stage matches.
pub open spec fn resolution(dir: Seq<IssuerIdentity>, q: Seq<char>) -> Option<int> {
    if exists|i: int| resolves_to(dir, q, i) {
        Some(choose|i: int| resolves_to(dir, q, i))
    } else {
        None
    }
}

/// At most one entry is the resolution of a query.
pub proof fn lemma_resolution_unique(dir: Seq<IssuerIdentity>, q: Seq<char>, i: int, k: int)
    requires
        resolves_to(dir, q, i),
        resolves_to(dir, q, k),
    ensures
        i == k,
{
    if first_exact(dir, q, i) || first_exact(dir, q, k) {
        if first_exact(dir, q, i) && first_exact(dir, q, k) {
            if i < k {
                assert(exact_match(dir[i], q));
            } else if k < i {
                assert(exact_match(dir[k], q));
            }
        } else if first_exact(dir, q, i) {
            assert(exact_match(dir[i], q));
        } else {
            assert(exact_match(dir[k], q));
        }
    } else if best_prefix_upto(dir, q, i, dir.len() as int) || best_prefix_upto(
        dir,
        q,
        k,
        dir.len() as int,
    ) {
        if best_prefix_upto(dir, q, i, dir.len() as int) && best_prefix_upto(
            dir,
            q,
            k,
            dir.len() as int,
        ) {
            assert(prefix_match(dir[i], q) && prefix_match(dir[k], q));
        } else if best_prefix_upto(dir, q, i, dir.len() as int) {
            assert(prefix_match(dir[i], q));
        } else {
            assert(prefix_match(dir[k], q));
        }
    } else {
        if i < k {
            assert(similar_match(dir[i], q));
        } else if k < i {
            assert(similar_match(dir[k], q));
        }
    }
}

proof fn lemma_resolution_is(dir: Seq<IssuerIdentity>, q: Seq<char>, i: int)
    requires
        resolves_to(dir, q, i),
    ensures
        resolution(dir, q) == Some(i),
{
    let k = choose|k: int| resolves_to(dir, q, k);
    lemma_resolution_unique(dir, q, i, k);
}

/// Whether `e` matches `q` exactly.
fn matches_exactly(e: &IssuerIdentity, q: &str) -> (r: bool)
    ensures
        r == exact_match(*e, q@),
{
    is_concat_of(e.issuer_code.as_str(), e.series_code.as_str(), q) || text_eq(
        e.issuer_code.as_str(),
        q,
    )
}

/// The first `SIMILAR_PREFIX_LEN` characters of `q`.
fn similarity_key(q: &str) -> (r: &str)
    ensures
        r@ == take(q@, SIMILAR_PREFIX_LEN as int),
{
    let n = q.unicode_len();
    if n <= SIMILAR_PREFIX_LEN {
        q
    } else {
        q.substring_char(0, SIMILAR_PREFIX_LEN)
    }
}

/// Index of the directory entry that `q` resolves to.
pub fn resolve_index(q: &str, dir: &[IssuerIdentity]) -> (r: Option<usize>)
    requires
        q@.len() > 0,
        directory_wf(dir@),
    ensures
        r == (match resolution(dir@, q@) {
            Some(i) => Some(i as usize),
            None => None::<usize>,
        }),
{
    let n = dir.len();
    // exact stage
    let mut i: usize = 0;
    while i < n
        invariant
            n == dir@.len(),
            i <= n,
            !any_exact(dir@, q@, i as int),
        decreases n - i,
    {
        if matches_exactly(&dir[i], q) {
            proof {
                assert(first_exact(dir@, q@, i as int));
                lemma_resolution_is(dir@, q@, i as int);
            }
            return Some(i);
        }
        proof {
            assert forall|j: int| 0 <= j < i + 1 implies !exact_match(#[trigger] dir@[j], q@) by {
                if j < i {
                    assert(!any_exact(dir@, q@, i as int));
                }
            }
        }
        i = i + 1;
    }
    // longest-prefix stage
    let mut best: Option<usize> = None;
    let mut best_len: usize = 0;
    let mut i: usize = 0;
    while i < n
        invariant
            n == dir@.len(),
            i <= n,
            !any_exact(dir@, q@, n as int),
            match best {
                Some(b) => best_prefix_upto(dir@, q@, b as int, i as int)
                    && best_len == dir@[b as int].issuer_code@.len(),
                None => !any_prefix(dir@, q@, i as int),
            },
        decreases n - i,
    {
        let code = dir[i].issuer_code.as_str();
        if starts_with(q, code) {
            let len = code.unicode_len();
            match best {
                Some(b) => {
                    if len > best_len {
                        best = Some(i);
                        best_len = len;
                    }
                },
                None => {
                    best = Some(i);
                    best_len = len;
                },
            }
        }
        proof {
            match best {
                Some(b) => {
                    assert forall|j: int|
                        0 <= j < i + 1 && prefix_match(#[trigger] dir@[j], q@) implies dir@[j].issuer_code@.len()
                            <= dir@[b as int].issuer_code@.len() by {}
                },
                None => {
                    assert forall|j: int| 0 <= j < i + 1 implies !prefix_match(#[trigger] dir@[j], q@) by {
                        if j < i {
                            assert(!any_prefix(dir@, q@, i as int));
                        }
                    }
                },
            }
        }
        i = i + 1;
    }
    if let Some(b) = best {
        proof {
            lemma_resolution_is(dir@, q@, b as int);
        }
        return Some(b);
    }
    // similarity stage
    let key = similarity_key(q);
    let mut i: usize = 0;
    while i < n
        invariant
            n == dir@.len(),
            i <= n,
            key@ == take(q@, SIMILAR_PREFIX_LEN as int),
            !any_exact(dir@, q@, n as int),
            !any_prefix(dir@, q@, n as int),
            !any_similar(dir@, q@, i as int),
        decreases n - i,
    {
        let code = dir[i].issuer_code.as_str();
        if contains_text(code, key) || contains_text(key, code) {
            proof {
                assert(first_similar(dir@, q@, i as int));
                lemma_resolution_is(dir@, q@, i as int);
            }
            return Some(i);
        }
        proof {
            assert forall|j: int| 0 <= j < i + 1 implies !similar_match(#[trigger] dir@[j], q@) by {
                if j < i {
                    assert(!any_similar(dir@, q@, i as int));
                }
            }
        }
        i = i + 1;
    }
    proof {
        if exists|k: int| resolves_to(dir@, q@, k) {
            let k = choose|k: int| resolves_to(dir@, q@, k);
            assert(similar_match(dir@[k], q@));
        }
    }
    None
}

/// Resolves a ticker query to an issuer of the directory, or `NotFound`
/// with the query echoed back.
pub fn resolve_ticker(q: &str, dir: &[IssuerIdentity]) -> (r: Result<IssuerIdentity, SyncError>)
    requires
        q@.len() > 0,
        directory_wf(dir@),
    ensures
        match resolution(dir@, q@) {
            Some(i) => r == Ok::<IssuerIdentity, SyncError>(dir@[i]),
            None => r matches Err(SyncError::NotFound { query }) && query@ == q@,
        },
{
    match resolve_index(q, dir) {
        Some(i) => Ok(dir[i].duplicate()),
        None => Err(SyncError::NotFound { query: q.to_owned() }),
    }
}

proof fn first_exact_index(dir: Seq<IssuerIdentity>, q: Seq<char>, n: int) -> (k: int)
    requires
        n <= dir.len(),
        any_exact(dir, q, n),
    ensures
        first_exact(dir, q, k),
        k < n,
    decreases n,
{
    if any_exact(dir, q, n - 1) {
        first_exact_index(dir, q, n - 1)
    } else {
        let j = choose|j: int| 0 <= j < n && exact_match(#[trigger] dir[j], q);
        assert(j == n - 1);
        n - 1
    }
}

/// The full code (issuer code followed by series code) of a directory
/// entry resolves to that entry's identity, unless an earlier entry with
/// another identity matches the same text exactly.
pub proof fn law_full_code_resolves_to_itself(dir: Seq<IssuerIdentity>, i: int)
    requires
        directory_wf(dir),
        0 <= i < dir.len(),
        forall|j: int| 0 <= j < i && exact_match(#[trigger] dir[j], dir[i].full_code()) ==> dir[j] == dir[i],
    ensures
        resolution(dir, dir[i].full_code()) matches Some(k) && dir[k] == dir[i],
{
    let q = dir[i].full_code();
    assert(exact_match(dir[i], q));
    let k = first_exact_index(dir, q, i + 1);
    lemma_resolution_is(dir, q, k);
}

} // verus!

verus! {

/// Marker some listings carry at the end of their ticker.
pub const LISTING_MARKER: char = '*';

pub open spec fn series_text(series: Option<String>) -> Seq<char> {
    match series {
        Some(s) => s@,
        None => Seq::empty(),
    }
}

/// Issuer code followed by the series code, if any.
pub fn full_ticker(issuer: &str, series: &Option<String>) -> (r: String)
    ensures
        r@ == issuer@ + series_text(*series),
{
    let mut t = issuer.to_owned();
    match series {
        Some(s) => {
            t.append(s.as_str());
        },
        None => {
            proof {
                assert(issuer@ + Seq::<char>::empty() =~= issuer@);
            }
        },
    }
    t
}

pub open spec fn without_marker(s: Seq<char>) -> Seq<char> {
    s.filter(|c: char| c != LISTING_MARKER)
}

/// Relies on std's `str::replace`: every occurrence of the marker removed.
#[verifier::external_body]
fn strip_marker(s: &str) -> (r: String)
    ensures
        r@ == without_marker(s@),
{
    s.replace(LISTING_MARKER, "")
}

/// The spellings under which a ticker may be listed, in the order they are
/// tried: as given, with the marker appended, with every marker removed.
pub fn ticker_variants(ticker: &str) -> (r: Vec<String>)
    ensures
        r@.len() == 3,
        r@[0]@ == ticker@,
        r@[1]@ == ticker@.push(LISTING_MARKER),
        r@[2]@ == without_marker(ticker@),
{
    let mut marked = ticker.to_owned();
    marked.append("*");
    proof {
        reveal_strlit("*");
        assert(marked@ =~= ticker@.push(LISTING_MARKER));
    }
    let mut r: Vec<String> = Vec::new();
    r.push(ticker.to_owned());
    r.push(marked);
    r.push(strip_marker(ticker));
    r
}

/// A search hit: the issuer, its series, and the full ticker.
#[derive(Debug)]
pub struct EmisoraBusqueda {
    pub razon_social: String,
    pub emisoras: String,
    pub serie: Option<String>,
    pub ticker: String,
}

impl EmisoraBusqueda {
    /// A search hit for an issuer and series; the ticker joins the two.
    pub fn new(razon_social: String, emisoras: String, serie: Option<String>) -> (r: EmisoraBusqueda)
        ensures
            r.razon_social == razon_social,
            r.emisoras == emisoras,
            r.serie == serie,
            r.ticker@ == emisoras@ + series_text(serie),
    {
        let ticker = full_ticker(emisoras.as_str(), &serie);
        EmisoraBusqueda { razon_social, emisoras, serie, ticker }
    }
}

/// A valid ticker with the issuer and series it is made of.
#[derive(Debug)]
pub struct TickerInfo {
    pub ticker: String,
    pub emisora: String,
    pub serie: Option<String>,
}

impl TickerInfo {
    pub fn new(emisora: String, serie: Option<String>) -> (r: TickerInfo)
        ensures
            r.emisora == emisora,
            r.serie == serie,
            r.ticker@ == emisora@ + series_text(serie),
    {
        let ticker = full_ticker(emisora.as_str(), &serie);
        TickerInfo { ticker, emisora, serie }
    }
}

} // verus!
