//! Financial statements: which provider bucket to keep, which line items
//! to read from it, the row that is stored, and the lossy view served to
//! callers, where an unreported item reads as zero.
use vstd::prelude::*;
use crate::calendar::{Date, MAX_DAYS};
use crate::text::lex_less;
use chrono::Datelike;

verus! {

/// The three statements kept per issuer and period.
#[derive(Clone, Copy, Debug, PartialEq, Eq, Structural)]
pub enum StatementKind {
    CashFlow,
    Position,
    QuarterlyIncome,
}

/// A line item: the provider's field name and the store's column name.
#[derive(Clone, Copy, Debug)]
pub struct LineField {
    pub provider: &'static str,
    pub column: &'static str,
}

/// Provider field and store column of each line item of a statement kind,
/// in column order.
pub open spec fn line_fields(kind: StatementKind) -> Seq<(Seq<char>, Seq<char>)> {
    match kind {
        StatementKind::CashFlow => seq![
            ("cashflowsfromusedinoperatingactivities"@, "flujo_operacion"@),
            ("profitloss"@, "utilidad_neta"@),
            ("adjustmentsfordepreciationandamortisationexpense"@, "depreciacion"@),
            ("adjustmentsfordecreaseincreaseininventories"@, "cambio_inventarios"@),
            ("adjustmentsfordecreaseincreaseintradeaccountreceivable"@, "cambio_cxc"@),
            ("adjustmentsforincreasedecreaseintradeaccountpayable"@, "cambio_cxp"@),
            ("incometaxespaidrefundclassifiedasoperatingactivities"@, "impuestos_pagados"@),
            ("interestpaidclassifiedasoperatingactivities"@, "intereses_pagados"@),
            ("cashflowsfromusedininvestingactivities"@, "flujo_inversion"@),
            ("purchaseofpropertyplantandequipmentclassifiedasinvestingactivities"@, "capex"@),
            ("proceedsfromsalesofpropertyplantandequipmentclassifiedasinvestingactivities"@, "venta_activos"@),
            ("purchaseofintangibleassetsclassifiedasinvestingactivities"@, "compra_intangibles"@),
            ("cashflowsfromusedinfinancingactivities"@, "flujo_financiamiento"@),
            ("proceedsfromborrowingsclassifiedasfinancingactivities"@, "prestamos_obtenidos"@),
            ("repaymentsofborrowingsclassifiedasfinancingactivities"@, "pago_deuda"@),
            ("dividendspaidclassifiedasfinancingactivities"@, "dividendos_pagados"@),
            ("paymentstoacquireorredeementitysshares"@, "recompras"@),
            ("increasedecreaseincashandcashequivalents"@, "cambio_efectivo"@),
            ("cashandcashequivalents_ending"@, "efectivo_final"@),
            ("effectofexchangeratechangesoncashandcashequivalents"@, "efecto_tc"@),
            ("adjustmentsforimpairmentlossreversalofimpairmentlossrecognisedinprofitorloss"@, "deterioros"@),
            ("otheradjustmentsfornoncashitems"@, "partidas_no_monetarias"@),
            ("adjustmentsforfinancecosts"@, "costos_financieros"@)
        ],
        StatementKind::Position => seq![
            ("currentassets"@, "currentassets"@),
            ("currentliabilities"@, "currentliabilities"@),
            ("cashandcashequivalents"@, "cashandcashequivalents"@),
            ("inventories"@, "inventories"@),
            ("tradeandothercurrentreceivables"@, "tradeandothercurrentreceivables"@),
            ("tradeandothercurrentpayables"@, "tradeandothercurrentpayables"@),
            ("equity"@, "equity"@),
            ("liabilities"@, "liabilities"@),
            ("noncurrentliabilities"@, "noncurrentliabilities"@),
            ("equityattributabletoownersofparent"@, "equityattributabletoownersofparent"@),
            ("noncontrollinginterests"@, "noncontrollinginterests"@),
            ("propertyplantandequipment"@, "propertyplantandequipment"@),
            ("intangibleassetsotherthangoodwill"@, "intangibleassetsotherthangoodwill"@),
            ("goodwill"@, "goodwill"@),
            ("rightofuseassetsthatdonotmeetdefinitionofinvestmentproperty"@, "rightofuseassetsthatdonotmeetdefinitionofinvestmentproperty"@),
            ("deferredtaxassets"@, "deferredtaxassets"@),
            ("deferredtaxliabilities"@, "deferredtaxliabilities"@),
            ("noncurrentassetsordisposalgroupsclassifiedasheldforsale"@, "noncurrentassetsordisposalgroupsclassifiedasheldforsale"@),
            ("retainedearnings"@, "retainedearnings"@),
            ("issuedcapital"@, "issuedcapital"@),
            ("otherreserves"@, "otherreserves"@),
            ("noncurrentleaseliabilities"@, "noncurrentleaseliabilities"@),
            ("othernoncurrentfinancialliabilities"@, "othernoncurrentfinancialliabilities"@),
            ("noncurrentprovisionsforemployeebenefits"@, "noncurrentprovisionsforemployeebenefits"@)
        ],
        StatementKind::QuarterlyIncome => seq![
            ("revenue"@, "revenue"@),
            ("grossprofit"@, "grossprofit"@),
            ("profitlossfromoperatingactivities"@, "profitlossfromoperatingactivities"@),
            ("profitloss"@, "profitloss"@),
            ("profitlossbeforetax"@, "profitlossbeforetax"@),
            ("costofsales"@, "costofsales"@),
            ("distributioncost"@, "distributioncosts"@),
            ("administrativeexpense"@, "administrativeexpense"@),
            ("financecosts"@, "financecosts"@),
            ("financeincome"@, "financeincome"@),
            ("incometaxexpensecontinuingoperations"@, "incometaxexpensecontinuingoperations"@),
            ("profitlossattributabletoownersofparent"@, "profitlossattributabletoownersofparent"@),
            ("basicearningslosspershare"@, "basicearningslosspershare"@),
            ("dilutedearningslosspershare"@, "dilutedearningslosspershare"@),
            ("otherincome"@, "otherincome"@),
            ("shareofprofitlossofassociatesandjointventuresaccountedforusinge"@, "shareofprofitlossofassociatesandjointventuresaccountedforusinge"@),
            ("profitlossfromdiscontinuedoperations"@, "profitlossfromdiscontinuedoperations"@),
            ("depreciacion"@, "depreciacion"@)
        ],
    }
}

pub open spec fn field_views(fields: Seq<LineField>) -> Seq<(Seq<char>, Seq<char>)> {
    fields.map_values(|f: LineField| (f.provider@, f.column@))
}

/// The line items of a statement kind.
pub fn statement_fields(kind: StatementKind) -> (r: Vec<LineField>)
    ensures
        field_views(r@) == line_fields(kind),
{
    let r = match kind {
        StatementKind::CashFlow => vec![
            LineField { provider: "cashflowsfromusedinoperatingactivities", column: "flujo_operacion" },
            LineField { provider: "profitloss", column: "utilidad_neta" },
            LineField { provider: "adjustmentsfordepreciationandamortisationexpense", column: "depreciacion" },
            LineField { provider: "adjustmentsfordecreaseincreaseininventories", column: "cambio_inventarios" },
            LineField { provider: "adjustmentsfordecreaseincreaseintradeaccountreceivable", column: "cambio_cxc" },
            LineField { provider: "adjustmentsforincreasedecreaseintradeaccountpayable", column: "cambio_cxp" },
            LineField { provider: "incometaxespaidrefundclassifiedasoperatingactivities", column: "impuestos_pagados" },
            LineField { provider: "interestpaidclassifiedasoperatingactivities", column: "intereses_pagados" },
            LineField { provider: "cashflowsfromusedininvestingactivities", column: "flujo_inversion" },
            LineField { provider: "purchaseofpropertyplantandequipmentclassifiedasinvestingactivities", column: "capex" },
            LineField { provider: "proceedsfromsalesofpropertyplantandequipmentclassifiedasinvestingactivities", column: "venta_activos" },
            LineField { provider: "purchaseofintangibleassetsclassifiedasinvestingactivities", column: "compra_intangibles" },
            LineField { provider: "cashflowsfromusedinfinancingactivities", column: "flujo_financiamiento" },
            LineField { provider: "proceedsfromborrowingsclassifiedasfinancingactivities", column: "prestamos_obtenidos" },
            LineField { provider: "repaymentsofborrowingsclassifiedasfinancingactivities", column: "pago_deuda" },
            LineField { provider: "dividendspaidclassifiedasfinancingactivities", column: "dividendos_pagados" },
            LineField { provider: "paymentstoacquireorredeementitysshares", column: "recompras" },
            LineField { provider: "increasedecreaseincashandcashequivalents", column: "cambio_efectivo" },
            LineField { provider: "cashandcashequivalents_ending", column: "efectivo_final" },
            LineField { provider: "effectofexchangeratechangesoncashandcashequivalents", column: "efecto_tc" },
            LineField { provider: "adjustmentsforimpairmentlossreversalofimpairmentlossrecognisedinprofitorloss", column: "deterioros" },
            LineField { provider: "otheradjustmentsfornoncashitems", column: "partidas_no_monetarias" },
            LineField { provider: "adjustmentsforfinancecosts", column: "costos_financieros" }
        ],
        StatementKind::Position => vec![
            LineField { provider: "currentassets", column: "currentassets" },
            LineField { provider: "currentliabilities", column: "currentliabilities" },
            LineField { provider: "cashandcashequivalents", column: "cashandcashequivalents" },
            LineField { provider: "inventories", column: "inventories" },
            LineField { provider: "tradeandothercurrentreceivables", column: "tradeandothercurrentreceivables" },
            LineField { provider: "tradeandothercurrentpayables", column: "tradeandothercurrentpayables" },
            LineField { provider: "equity", column: "equity" },
            LineField { provider: "liabilities", column: "liabilities" },
            LineField { provider: "noncurrentliabilities", column: "noncurrentliabilities" },
            LineField { provider: "equityattributabletoownersofparent", column: "equityattributabletoownersofparent" },
            LineField { provider: "noncontrollinginterests", column: "noncontrollinginterests" },
            LineField { provider: "propertyplantandequipment", column: "propertyplantandequipment" },
            LineField { provider: "intangibleassetsotherthangoodwill", column: "intangibleassetsotherthangoodwill" },
            LineField { provider: "goodwill", column: "goodwill" },
            LineField { provider: "rightofuseassetsthatdonotmeetdefinitionofinvestmentproperty", column: "rightofuseassetsthatdonotmeetdefinitionofinvestmentproperty" },
            LineField { provider: "deferredtaxassets", column: "deferredtaxassets" },
            LineField { provider: "deferredtaxliabilities", column: "deferredtaxliabilities" },
            LineField { provider: "noncurrentassetsordisposalgroupsclassifiedasheldforsale", column: "noncurrentassetsordisposalgroupsclassifiedasheldforsale" },
            LineField { provider: "retainedearnings", column: "retainedearnings" },
            LineField { provider: "issuedcapital", column: "issuedcapital" },
            LineField { provider: "otherreserves", column: "otherreserves" },
            LineField { provider: "noncurrentleaseliabilities", column: "noncurrentleaseliabilities" },
            LineField { provider: "othernoncurrentfinancialliabilities", column: "othernoncurrentfinancialliabilities" },
            LineField { provider: "noncurrentprovisionsforemployeebenefits", column: "noncurrentprovisionsforemployeebenefits" }
        ],
        StatementKind::QuarterlyIncome => vec![
            LineField { provider: "revenue", column: "revenue" },
            LineField { provider: "grossprofit", column: "grossprofit" },
            LineField { provider: "profitlossfromoperatingactivities", column: "profitlossfromoperatingactivities" },
            LineField { provider: "profitloss", column: "profitloss" },
            LineField { provider: "profitlossbeforetax", column: "profitlossbeforetax" },
            LineField { provider: "costofsales", column: "costofsales" },
            LineField { provider: "distributioncost", column: "distributioncosts" },
            LineField { provider: "administrativeexpense", column: "administrativeexpense" },
            LineField { provider: "financecosts", column: "financecosts" },
            LineField { provider: "financeincome", column: "financeincome" },
            LineField { provider: "incometaxexpensecontinuingoperations", column: "incometaxexpensecontinuingoperations" },
            LineField { provider: "profitlossattributabletoownersofparent", column: "profitlossattributabletoownersofparent" },
            LineField { provider: "basicearningslosspershare", column: "basicearningslosspershare" },
            LineField { provider: "dilutedearningslosspershare", column: "dilutedearningslosspershare" },
            LineField { provider: "otherincome", column: "otherincome" },
            LineField { provider: "shareofprofitlossofassociatesandjointventuresaccountedforusinge", column: "shareofprofitlossofassociatesandjointventuresaccountedforusinge" },
            LineField { provider: "profitlossfromdiscontinuedoperations", column: "profitlossfromdiscontinuedoperations" },
            LineField { provider: "depreciacion", column: "depreciacion" }
        ],
    };
    proof {
        assert(field_views(r@) =~= line_fields(kind));
    }
    r
}

/// Number of line items of a statement kind.
pub fn line_item_count(kind: StatementKind) -> (r: usize)
    ensures
        r == line_fields(kind).len(),
{
    statement_fields(kind).len()
}

/// One line item of a provider bucket; `value` is its numeric amount in
/// millionths, `None` when the provider gave no number.
#[derive(Debug)]
pub struct ProviderItem {
    pub name: String,
    pub value: Option<i64>,
}

/// The line items the provider lists under one sub-period label.
#[derive(Debug)]
pub struct PeriodBucket {
    pub label: String,
    pub items: Vec<ProviderItem>,
}

pub open spec fn labels_of(bs: Seq<PeriodBucket>) -> Seq<Seq<char>> {
    bs.map_values(|b: PeriodBucket| b.label@)
}

/// Label `i` is the greatest, and the last of the greatest.
pub open spec fn is_latest(labels: Seq<Seq<char>>, i: int) -> bool {
    &&& 0 <= i < labels.len()
    &&& forall|j: int|
        0 <= j < labels.len() && j != i ==> lex_less(#[trigger] labels[j], labels[i]) || (labels[j]
            == labels[i] && j < i)
}

/// Index of the lexicographically greatest label.
pub open spec fn latest_index(labels: Seq<Seq<char>>) -> int {
    choose|i: int| is_latest(labels, i)
}

proof fn lemma_latest_unique(labels: Seq<Seq<char>>, i: int, k: int)
    requires
        is_latest(labels, i),
        is_latest(labels, k),
    ensures
        i == k,
{
    if i != k {
        assert(lex_less(labels[k], labels[i]) || (labels[k] == labels[i] && k < i));
        assert(lex_less(labels[i], labels[k]) || (labels[i] == labels[k] && i < k));
        crate::text::lemma_lex_less_irreflexive(labels[i]);
        if lex_less(labels[k], labels[i]) && lex_less(labels[i], labels[k]) {
            crate::text::lemma_lex_less_transitive(labels[i], labels[k], labels[i]);
        }
    }
}

/// Index of the bucket with the lexicographically greatest label (the last
/// such bucket on ties); `None` when there are no buckets.
pub fn latest_bucket(buckets: &[PeriodBucket]) -> (r: Option<usize>)
    ensures
        buckets@.len() == 0 <==> r is None,
        r matches Some(i) ==> i == latest_index(labels_of(buckets@)) && is_latest(labels_of(buckets@), i as int),
{
    let n = buckets.len();
    if n == 0 {
        return None;
    }
    let ghost labels = labels_of(buckets@);
    let mut best: usize = 0;
    let mut i: usize = 1;
    while i < n
        invariant
            n == buckets@.len(),
            labels == labels_of(buckets@),
            1 <= i <= n,
            best < i,
            forall|j: int|
                0 <= j < i && j != best ==> lex_less(#[trigger] labels[j], labels[best as int])
                    || (labels[j] == labels[best as int] && j < best),
        decreases n - i,
    {
        let later = crate::text::text_less(buckets[i].label.as_str(), buckets[best].label.as_str());
        if !later {
            proof {
                let b = best as int;
                if labels[i as int] != labels[b] {
                    crate::text::lemma_lex_less_total(labels[i as int], labels[b]);
                }
                assert forall|j: int|
                    0 <= j < i + 1 && j != i implies lex_less(#[trigger] labels[j], labels[i as int])
                        || (labels[j] == labels[i as int] && j < i) by {
                    if j != b && lex_less(labels[j], labels[b]) && lex_less(labels[b], labels[i as int]) {
                        crate::text::lemma_lex_less_transitive(labels[j], labels[b], labels[i as int]);
                    }
                }
            }
            best = i;
        }
        i = i + 1;
    }
    proof {
        assert(is_latest(labels, best as int));
        lemma_latest_unique(labels, best as int, latest_index(labels));
    }
    Some(best)
}

/// The characters after the last underscore (all of them when there is
/// none).
pub open spec fn date_part(s: Seq<char>) -> Seq<char>
    decreases s.len(),
{
    if s.len() == 0 {
        s
    } else if s.last() == '_' {
        Seq::empty()
    } else {
        date_part(s.drop_last()).push(s.last())
    }
}

/// The text after the last underscore of a bucket label.
pub fn label_date_text(label: &str) -> (r: &str)
    ensures
        r@ == date_part(label@),
{
    let n = label.unicode_len();
    let mut i: usize = n;
    proof {
        assert(label@.subrange(0, n as int) =~= label@);
    }
    while i > 0 && label.get_char(i - 1) != '_'
        invariant
            n == label@.len(),
            i <= n,
            date_part(label@) == date_part(label@.subrange(0, i as int)) + label@.subrange(i as int, n as int),
        decreases i,
    {
        proof {
            let pre = label@.subrange(0, i as int);
            assert(pre.drop_last() =~= label@.subrange(0, i - 1));
            assert(label@.subrange(i - 1, n as int) =~= seq![label@[i - 1]] + label@.subrange(i as int, n as int));
            assert(date_part(pre) == date_part(label@.subrange(0, i - 1)).push(label@[i - 1]));
            assert(date_part(pre) + label@.subrange(i as int, n as int) =~= date_part(label@.subrange(0, i - 1))
                + label@.subrange(i - 1, n as int));
        }
        i = i - 1;
    }
    proof {
        if i > 0 {
            assert(label@.subrange(0, i as int).last() == '_');
        }
        assert(date_part(label@.subrange(0, i as int)) =~= Seq::<char>::empty());
        assert(date_part(label@) =~= label@.subrange(i as int, n as int));
    }
    label.substring_char(i, n)
}

/// Day number of an ISO date text (`YYYY-MM-DD`), or `None` when it does
/// not parse.
pub uninterp spec fn iso_day_of(s: Seq<char>) -> Option<int>;

/// Relies on chrono's `NaiveDate::parse_from_str` with the format
/// `%Y-%m-%d`, then `Datelike::num_days_from_ce`: the result depends on the
/// text alone.
#[verifier::external_body]
fn parse_iso_day(s: &str) -> (r: Option<i32>)
    ensures
        match r {
            Some(n) => iso_day_of(s@) == Some(n as int),
            None => iso_day_of(s@) is None,
        },
{
    match chrono::NaiveDate::parse_from_str(s, "%Y-%m-%d") {
        Ok(d) => Some(d.num_days_from_ce()),
        Err(_) => None,
    }
}

pub open spec fn date_of_day(day: Option<int>) -> Option<Date> {
    match day {
        Some(n) => if 1 <= n <= MAX_DAYS { Some(Date { days: n as i32 }) } else { None },
        None => None,
    }
}

/// The date for a parsed day number, if it is in range.
pub fn date_from_parsed(day: Option<i32>) -> (r: Option<Date>)
    ensures
        r == date_of_day(match day {
            Some(n) => Some(n as int),
            None => None,
        }),
{
    match day {
        Some(n) => Date::from_days(n),
        None => None,
    }
}

/// The effective date of a bucket: its label's text after the last
/// underscore, read as an ISO date.
pub open spec fn effective_date_of(label: Seq<char>) -> Option<Date> {
    date_of_day(iso_day_of(date_part(label)))
}

pub fn effective_date(label: &str) -> (r: Option<Date>)
    ensures
        r == effective_date_of(label@),
{
    date_from_parsed(parse_iso_day(label_date_text(label)))
}

/// Amount of the first item named `name`; `None` when there is none.
pub open spec fn item_value(items: Seq<ProviderItem>, name: Seq<char>) -> Option<i64>
    decreases items.len(),
{
    if items.len() == 0 {
        None
    } else if items[0].name@ == name {
        items[0].value
    } else {
        item_value(items.drop_first(), name)
    }
}

/// Looks up the amount of a line item by name.
pub fn lookup_item(items: &[ProviderItem], name: &str) -> (r: Option<i64>)
    ensures
        r == item_value(items@, name@),
{
    let n = items.len();
    let mut i: usize = 0;
    proof {
        assert(items@.subrange(0, n as int) =~= items@);
    }
    while i < n
        invariant
            n == items@.len(),
            i <= n,
            item_value(items@, name@) == item_value(items@.subrange(i as int, n as int), name@),
        decreases n - i,
    {
        proof {
            assert(items@.subrange(i as int, n as int).drop_first() =~= items@.subrange(i + 1, n as int));
        }
        if crate::text::text_eq(items[i].name.as_str(), name) {
            return items[i].value;
        }
        i = i + 1;
    }
    None
}

/// The amounts of the given line items, NULL (`None`) where unreported.
pub open spec fn values_for(items: Seq<ProviderItem>, fields: Seq<(Seq<char>, Seq<char>)>) -> Seq<Option<i64>> {
    fields.map_values(|f: (Seq<char>, Seq<char>)| item_value(items, f.0))
}

/// The stored row of one statement of an issuer for a period.
#[derive(Debug)]
pub struct StatementRecord {
    pub issuer: String,
    pub period: String,
    pub kind: StatementKind,
    pub effective_date: Option<Date>,
    /// One amount per line item of the kind, in column order; `None` is
    /// "not reported".
    pub values: Vec<Option<i64>>,
}

/// The period requested when a caller names none.
pub const DEFAULT_PERIOD: &'static str = "1T_2025";

/// Builds the row to store from the provider's buckets: the bucket with the
/// greatest label is used, each line item read by its provider name.
/// The effective date is NULL (`None`) when the label holds no readable
/// date. `None` only when there is no bucket.
pub fn build_statement_record(kind: StatementKind, issuer: &str, period: &str, buckets: &[PeriodBucket]) -> (r: Option<StatementRecord>)
    ensures
        r is None <==> buckets@.len() == 0,
        buckets@.len() > 0 ==> ({
            let b = buckets@[latest_index(labels_of(buckets@))];
            let date = effective_date_of(b.label@);
            &&& (r matches Some(rec) ==> {
                &&& rec.issuer@ == issuer@
                &&& rec.period@ == period@
                &&& rec.kind == kind
                &&& rec.effective_date == date
                &&& rec.values@ == values_for(b.items@, line_fields(kind))
            })
        }),
{
    let i = match latest_bucket(buckets) {
        Some(i) => i,
        None => return None,
    };
    let bucket = &buckets[i];
    let date = effective_date(bucket.label.as_str());
    let fields = statement_fields(kind);
    let mut values: Vec<Option<i64>> = Vec::new();
    let n = fields.len();
    let mut k: usize = 0;
    while k < n
        invariant
            n == fields@.len(),
            field_views(fields@) == line_fields(kind),
            k <= n,
            values@ == values_for(bucket.items@, line_fields(kind)).subrange(0, k as int),
        decreases n - k,
    {
        let v = lookup_item(bucket.items.as_slice(), fields[k].provider);
        proof {
            assert(line_fields(kind)[k as int].0 == fields@[k as int].provider@);
        }
        values.push(v);
        proof {
            assert(values@ =~= values_for(bucket.items@, line_fields(kind)).subrange(0, k + 1));
        }
        k = k + 1;
    }
    proof {
        assert(values@ =~= values_for(bucket.items@, line_fields(kind)));
    }
    Some(StatementRecord {
        issuer: issuer.to_owned(),
        period: period.to_owned(),
        kind,
        effective_date: date,
        values,
    })
}

/// A line item as served to callers.
#[derive(Debug)]
pub struct ReportedItem {
    pub name: String,
    pub value: i64,
}

/// The served amount: an unreported item reads as zero.
pub open spec fn reported(v: Option<i64>) -> i64 {
    match v {
        Some(x) => x,
        None => 0,
    }
}

/// The caller-facing view of stored amounts: each column with its amount,
/// NULL flattened to zero. This is the one place where "not reported" and
/// "reported as zero" become the same.
pub fn flatten_statement(kind: StatementKind, values: &[Option<i64>]) -> (r: Vec<ReportedItem>)
    requires
        values@.len() == line_fields(kind).len(),
    ensures
        r@.len() == values@.len(),
        forall|i: int| 0 <= i < r@.len() ==> (#[trigger] r@[i]).name@ == line_fields(kind)[i].1 && r@[i].value
            == reported(values@[i]),
{
    let fields = statement_fields(kind);
    let mut out: Vec<ReportedItem> = Vec::new();
    let n = values.len();
    let mut k: usize = 0;
    while k < n
        invariant
            n == values@.len(),
            n == fields@.len(),
            field_views(fields@) == line_fields(kind),
            k <= n,
            out@.len() == k,
            forall|i: int| 0 <= i < k ==> (#[trigger] out@[i]).name@ == line_fields(kind)[i].1 && out@[i].value
                == reported(values@[i]),
        decreases n - k,
    {
        let value = match values[k] {
            Some(x) => x,
            None => 0,
        };
        proof {
            assert(line_fields(kind)[k as int].1 == fields@[k as int].column@);
        }
        out.push(ReportedItem { name: fields[k].column.to_owned(), value });
        k = k + 1;
    }
    out
}

} // verus!
