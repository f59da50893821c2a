//! Parsing what the market-data provider sends back into rows to store:
//! one close per calendar day for intraday series, and one row per
//! statement for financial statements.
use vstd::prelude::*;
use crate::calendar::{Date, MAX_DAYS};
use chrono::Datelike;

verus! {

/// A price reading of the provider, in millionths of a currency unit;
/// `None` when the provider's value was not a finite number.
#[derive(Clone, Copy, Debug, PartialEq, Eq, Structural)]
pub struct PriceSample {
    pub date: Date,
    pub price: Option<i64>,
}

/// Closing price of one day, in millionths of a currency unit.
#[derive(Clone, Copy, Debug, PartialEq, Eq, Structural)]
pub struct DailyClose {
    pub date: Date,
    pub close: i64,
}

pub open spec fn valid_price(p: Option<i64>) -> bool {
    p matches Some(v) && v > 0
}

/// The close of day `d`: the price of the last valid reading of that day.
pub open spec fn last_close(s: Seq<PriceSample>, d: int) -> Option<i64>
    decreases s.len(),
{
    if s.len() == 0 {
        None
    } else if s.last().date.days == d && valid_price(s.last().price) {
        s.last().price
    } else {
        last_close(s.drop_last(), d)
    }
}

pub open spec fn strictly_by_date(r: Seq<DailyClose>) -> bool {
    forall|i: int, j: int| 0 <= i < j < r.len() ==> r[i].date.days < r[j].date.days
}

/// `r` lists, in date order, one close for each day that has a valid
/// reading in `s`.
pub open spec fn daily_closes_of(s: Seq<PriceSample>, r: Seq<DailyClose>) -> bool {
    &&& strictly_by_date(r)
    &&& forall|i: int| 0 <= i < r.len() ==> last_close(s, #[trigger] r[i].date.days as int) == Some(r[i].close)
    &&& forall|d: int| #[trigger] last_close(s, d) is Some ==> exists|i: int| 0 <= i < r.len() && r[i].date.days == d
}

proof fn lemma_last_close_step(s: Seq<PriceSample>, k: int, d: int)
    requires
        0 <= k < s.len(),
    ensures
        last_close(s.subrange(0, k + 1), d) == (if s[k].date.days == d && valid_price(s[k].price) {
            s[k].price
        } else {
            last_close(s.subrange(0, k), d)
        }),
{
    assert(s.subrange(0, k + 1).drop_last() =~= s.subrange(0, k));
}

/// Folds readings into one close per day, in date order: invalid and
/// non-positive prices are dropped, and of several readings of one day the
/// last one wins.
pub fn collapse_daily(samples: &[PriceSample]) -> (r: Vec<DailyClose>)
    ensures
        daily_closes_of(samples@, r@),
{
    let mut out: Vec<DailyClose> = Vec::new();
    let n = samples.len();
    let mut k: usize = 0;
    proof {
        assert(samples@.subrange(0, 0) =~= Seq::<PriceSample>::empty());
    }
    while k < n
        invariant
            n == samples@.len(),
            k <= n,
            daily_closes_of(samples@.subrange(0, k as int), out@),
        decreases n - k,
    {
        let ghost prev = samples@.subrange(0, k as int);
        let ghost next = samples@.subrange(0, k + 1);
        let ghost old_out = out@;
        proof {
            assert forall|d: int| #[trigger] last_close(next, d) == (if samples@[k as int].date.days == d
                && valid_price(samples@[k as int].price) {
                samples@[k as int].price
            } else {
                last_close(prev, d)
            }) by {
                lemma_last_close_step(samples@, k as int, d);
            }
        }
        let sample = samples[k];
        match sample.price {
            Some(price) => {
                if price > 0 {
                    let mut p: usize = 0;
                    while p < out.len() && out[p].date.days < sample.date.days
                        invariant
                            out@ == old_out,
                            p <= out@.len(),
                            forall|i: int| 0 <= i < p ==> out@[i].date.days < sample.date.days,
                        decreases out@.len() - p,
                    {
                        p = p + 1;
                    }
                    let entry = DailyClose { date: sample.date, close: price };
                    if p < out.len() && out[p].date.days == sample.date.days {
                        out.set(p, entry);
                        proof {
                            assert forall|d: int| #[trigger] last_close(next, d) is Some implies exists|i: int|
                                0 <= i < out@.len() && out@[i].date.days == d by {
                                if d != sample.date.days {
                                    assert(last_close(prev, d) is Some);
                                    let i = choose|i: int| 0 <= i < old_out.len() && old_out[i].date.days == d;
                                    assert(out@[i].date.days == d);
                                } else {
                                    assert(out@[p as int].date.days == d);
                                }
                            }
                        }
                    } else {
                        out.insert(p, entry);
                        proof {
                            assert forall|i: int| 0 <= i < out@.len() implies last_close(next, #[trigger] out@[i].date.days as int) == Some(out@[i].close) by {
                                if i < p {
                                    assert(out@[i] == old_out[i]);
                                } else if i > p {
                                    assert(out@[i] == old_out[i - 1]);
                                }
                            }
                            assert forall|d: int| #[trigger] last_close(next, d) is Some implies exists|i: int|
                                0 <= i < out@.len() && out@[i].date.days == d by {
                                if d != sample.date.days {
                                    assert(last_close(prev, d) is Some);
                                    let i = choose|i: int| 0 <= i < old_out.len() && old_out[i].date.days == d;
                                    if i < p {
                                        assert(out@[i].date.days == d);
                                    } else {
                                        assert(out@[i + 1].date.days == d);
                                    }
                                } else {
                                    assert(out@[p as int].date.days == d);
                                }
                            }
                            assert forall|i: int, j: int| 0 <= i < j < out@.len() implies out@[i].date.days < out@[j].date.days by {
                                if j < p {
                                } else if j == p {
                                } else if i < p {
                                    assert(out@[j] == old_out[j - 1]);
                                    if p < old_out.len() {
                                        assert(old_out[p as int].date.days > sample.date.days);
                                        assert(old_out[p as int].date.days <= old_out[j - 1].date.days);
                                    }
                                } else if i == p {
                                    assert(out@[j] == old_out[j - 1]);
                                    assert(old_out[p as int].date.days > sample.date.days);
                                    assert(old_out[p as int].date.days <= old_out[j - 1].date.days);
                                } else {
                                    assert(out@[i] == old_out[i - 1]);
                                    assert(out@[j] == old_out[j - 1]);
                                }
                            }
                        }
                    }
                }
            },
            None => {},
        }
        k = k + 1;
    }
    proof {
        assert(samples@.subrange(0, n as int) =~= samples@);
    }
    out
}

} // verus!

verus! {

/// Items joined with a separator between consecutive items.
pub open spec fn joined(parts: Seq<Seq<char>>, sep: Seq<char>) -> Seq<char>
    decreases parts.len(),
{
    if parts.len() == 0 {
        Seq::empty()
    } else if parts.len() == 1 {
        parts[0]
    } else {
        joined(parts.drop_last(), sep) + sep + parts.last()
    }
}

pub open spec fn views_of(items: Seq<&str>) -> Seq<Seq<char>> {
    items.map_values(|e: &str| e@)
}

/// The intraday query for the given tickers, from `start` to `end`.
pub open spec fn intraday_url(tickers: Seq<Seq<char>>, start: Seq<char>, end: Seq<char>, api_key: Seq<char>) -> Seq<char> {
    "https://api.databursatil.com/v2/intradia?token="@ + api_key + "&emisora_serie="@ + joined(tickers, ","@)
        + "&bolsa=BMV&intervalo=1h&inicio="@ + start + "&final="@ + end
}

/// Builds the provider's intraday query URL for one or more tickers
/// (joined by commas); an empty ticker list is rejected.
pub fn construir_url_intradia(emisoras: &[&str], inicio: &str, final_: &str, api_key: &str) -> (r: Result<String, crate::error::SyncError>)
    ensures
        r is Err <==> emisoras@.len() == 0,
        r matches Err(e) ==> e is ValidationError,
        r matches Ok(u) ==> u@ == intraday_url(views_of(emisoras@), inicio@, final_@, api_key@),
{
    if emisoras.len() == 0 {
        return Err(crate::error::SyncError::ValidationError);
    }
    let mut url = "https://api.databursatil.com/v2/intradia?token=".to_owned();
    url.append(api_key);
    url.append("&emisora_serie=");
    let ghost head = url@;
    let n = emisoras.len();
    let mut i: usize = 0;
    while i < n
        invariant
            n == emisoras@.len(),
            i <= n,
            url@ == head + joined(views_of(emisoras@.subrange(0, i as int)), ","@),
        decreases n - i,
    {
        proof {
            let parts = views_of(emisoras@.subrange(0, i + 1));
            assert(parts.drop_last() =~= views_of(emisoras@.subrange(0, i as int)));
            assert(parts.last() == emisoras@[i as int]@);
            if i == 0 {
                assert(views_of(emisoras@.subrange(0, 0)) =~= Seq::<Seq<char>>::empty());
            }
        }
        if i > 0 {
            url.append(",");
        }
        url.append(emisoras[i]);
        proof {
            if i == 0 {
                assert(url@ =~= head + joined(views_of(emisoras@.subrange(0, 1)), ","@));
            } else {
                assert(url@ =~= head + joined(views_of(emisoras@.subrange(0, i + 1)), ","@));
            }
        }
        i = i + 1;
    }
    proof {
        assert(emisoras@.subrange(0, n as int) =~= emisoras@);
    }
    url.append("&bolsa=BMV&intervalo=1h&inicio=");
    url.append(inicio);
    url.append("&final=");
    url.append(final_);
    proof {
        assert(url@ =~= intraday_url(views_of(emisoras@), inicio@, final_@, api_key@));
    }
    Ok(url)
}

/// The provider's way of failing with a success status: a body that
/// mentions an internal server error or carries a `"message"` field.
pub open spec fn error_shaped(body: Seq<char>) -> bool {
    crate::text::contains(body, "Internal Server Error"@) || crate::text::contains(body, "\"message\""@)
}

/// Whether a provider response body is error-shaped.
pub fn is_error_body(body: &str) -> (r: bool)
    ensures
        r == error_shaped(body@),
{
    crate::text::contains_text(body, "Internal Server Error") || crate::text::contains_text(body, "\"message\"")
}

/// Day number of the date of a provider timestamp
/// (`YYYY-MM-DD HH:MM:SS`), or `None` when it does not parse.
pub uninterp spec fn timestamp_day_of(s: Seq<char>) -> Option<int>;

/// Relies on chrono's `NaiveDateTime::parse_from_str` with the format
/// `%Y-%m-%d %H:%M:%S`, then `Datelike::num_days_from_ce` of its date: the
/// result depends on the text alone.
#[verifier::external_body]
fn parse_timestamp_day(s: &str) -> (r: Option<i32>)
    ensures
        match r {
            Some(n) => timestamp_day_of(s@) == Some(n as int),
            None => timestamp_day_of(s@) is None,
        },
{
    match chrono::NaiveDateTime::parse_from_str(s, "%Y-%m-%d %H:%M:%S") {
        Ok(t) => Some(t.date().num_days_from_ce()),
        Err(_) => None,
    }
}

pub open spec fn sample_of_day(day: Option<int>, price: Option<i64>) -> Option<PriceSample> {
    match day {
        Some(n) => if 1 <= n <= MAX_DAYS {
            Some(PriceSample { date: Date { days: n as i32 }, price })
        } else {
            None
        },
        None => None,
    }
}

/// A reading for a parsed timestamp day; `None` when the timestamp did not
/// parse or lies outside the supported years.
pub fn sample_from_parsed(day: Option<i32>, price: Option<i64>) -> (r: Option<PriceSample>)
    ensures
        r == sample_of_day(match day {
            Some(n) => Some(n as int),
            None => None,
        }, price),
{
    match day {
        Some(n) => {
            if 1 <= n && n <= MAX_DAYS {
                Some(PriceSample { date: Date { days: n }, price })
            } else {
                None
            }
        },
        None => None,
    }
}

/// One reading of the provider's nested map: a timestamp and its price in
/// millionths (`None` when the value was not a finite number).
#[derive(Debug)]
pub struct ProviderReading {
    pub timestamp: String,
    pub price: Option<i64>,
}

/// The readings whose timestamp parses, as samples, in order.
pub open spec fn samples_of(rs: Seq<ProviderReading>) -> Seq<PriceSample>
    decreases rs.len(),
{
    if rs.len() == 0 {
        Seq::empty()
    } else {
        let rest = samples_of(rs.drop_last());
        match sample_of_day(timestamp_day_of(rs.last().timestamp@), rs.last().price) {
            Some(s) => rest.push(s),
            None => rest,
        }
    }
}

/// Turns provider readings into samples, skipping unparseable timestamps.
pub fn samples_from_provider(readings: &[ProviderReading]) -> (r: Vec<PriceSample>)
    ensures
        r@ == samples_of(readings@),
{
    let mut out: Vec<PriceSample> = Vec::new();
    let n = readings.len();
    let mut i: usize = 0;
    while i < n
        invariant
            n == readings@.len(),
            i <= n,
            out@ == samples_of(readings@.subrange(0, i as int)),
        decreases n - i,
    {
        proof {
            assert(readings@.subrange(0, i + 1).drop_last() =~= readings@.subrange(0, i as int));
        }
        let day = parse_timestamp_day(readings[i].timestamp.as_str());
        let s = sample_from_parsed(day, readings[i].price);
        if let Some(s) = s {
            out.push(s);
        }
        i = i + 1;
    }
    proof {
        assert(readings@.subrange(0, n as int) =~= readings@);
    }
    out
}

/// The daily closes of a provider response: readings with an unparseable
/// timestamp are skipped, then the readings are folded per day.
pub fn daily_series_from_provider(readings: &[ProviderReading]) -> (r: Vec<DailyClose>)
    ensures
        daily_closes_of(samples_of(readings@), r@),
{
    let samples = samples_from_provider(readings);
    collapse_daily(samples.as_slice())
}

} // verus!
