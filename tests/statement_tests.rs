use daliatrac::calendar::Date;
use daliatrac::statement::{build_statement_record, date_from_parsed, effective_date, flatten_statement, label_date_text, latest_bucket, lookup_item, statement_fields, PeriodBucket, ProviderItem, StatementKind};

fn item(name: &str, v: Option<i64>) -> ProviderItem {
    ProviderItem { name: name.to_string(), value: v }
}

fn bucket(label: &str, items: Vec<ProviderItem>) -> PeriodBucket {
    PeriodBucket { label: label.to_string(), items }
}

#[test]
fn greatest_label_is_latest() {
    let bs = vec![bucket("1T_2025_2025-03-31", vec![]), bucket("4T_2024_2024-12-31", vec![]), bucket("2T_2024_2024-06-30", vec![])];
    assert_eq!(latest_bucket(&bs), Some(1));
    assert_eq!(latest_bucket(&[]), None);
    let ties = vec![bucket("b", vec![]), bucket("a", vec![]), bucket("b", vec![])];
    assert_eq!(latest_bucket(&ties), Some(2));
}

#[test]
fn date_text_follows_last_underscore() {
    assert_eq!(label_date_text("1T_2025_2025-03-31"), "2025-03-31");
    assert_eq!(label_date_text("2025-03-31"), "2025-03-31");
    assert_eq!(label_date_text("trailing_"), "");
    assert_eq!(effective_date("acumulado_2025-03-31"), Date::from_ymd(2025, 3, 31));
    assert_eq!(effective_date("acumulado_2025-02-30"), None);
    assert_eq!(effective_date("sin fecha"), None);
    assert_eq!(date_from_parsed(Some(0)), None);
}

#[test]
fn lookup_finds_first_item() {
    let items = vec![item("equity", Some(5)), item("goodwill", None), item("equity", Some(7))];
    assert_eq!(lookup_item(&items, "equity"), Some(5));
    assert_eq!(lookup_item(&items, "goodwill"), None);
    assert_eq!(lookup_item(&items, "inventories"), None);
}

#[test]
fn position_record_keeps_nulls() {
    let bs = vec![
        bucket("1T_2025_2025-03-31", vec![item("currentassets", Some(100)), item("equity", Some(0))]),
        bucket("0T_2024_2024-12-31", vec![item("currentassets", Some(1))]),
    ];
    let rec = build_statement_record(StatementKind::Position, "AMX", "1T_2025", &bs).unwrap();
    assert_eq!(rec.issuer, "AMX");
    assert_eq!(rec.period, "1T_2025");
    assert_eq!(rec.effective_date, Date::from_ymd(2025, 3, 31));
    let fields = statement_fields(StatementKind::Position);
    assert_eq!(rec.values.len(), fields.len());
    assert_eq!(rec.values[0], Some(100));
    assert_eq!(fields[6].column, "equity");
    assert_eq!(rec.values[6], Some(0));
    assert_eq!(rec.values[1], None);
}

#[test]
fn income_record_reads_distribution_cost() {
    let bs = vec![bucket("x_2025-03-31", vec![item("distributioncost", Some(42)), item("revenue", Some(1000))])];
    let rec = build_statement_record(StatementKind::QuarterlyIncome, "AMX", "1T_2025", &bs).unwrap();
    let fields = statement_fields(StatementKind::QuarterlyIncome);
    let k = fields.iter().position(|f| f.column == "distributioncosts").unwrap();
    assert_eq!(fields[k].provider, "distributioncost");
    assert_eq!(rec.values[k], Some(42));
    assert_eq!(rec.values[0], Some(1000));
}

#[test]
fn undated_bucket_is_stored_with_null_date() {
    let undated = vec![bucket("acumulado", vec![item("profitloss", Some(3))])];
    let rec = build_statement_record(StatementKind::CashFlow, "AMX", "1T_2025", &undated).unwrap();
    assert_eq!(rec.effective_date, None);
    assert_eq!(rec.values[1], Some(3));
    let rec = build_statement_record(StatementKind::Position, "AMX", "1T_2025", &undated).unwrap();
    assert_eq!(rec.effective_date, None);
    let dated = vec![bucket("acumulado_2025-03-31", vec![item("profitloss", Some(3))])];
    let rec = build_statement_record(StatementKind::CashFlow, "AMX", "1T_2025", &dated).unwrap();
    assert_eq!(rec.values[1], Some(3));
    assert!(build_statement_record(StatementKind::CashFlow, "AMX", "1T_2025", &[]).is_none());
}

#[test]
fn flattening_reads_null_as_zero() {
    let n = statement_fields(StatementKind::CashFlow).len();
    let mut values = vec![None; n];
    values[0] = Some(12);
    let out = flatten_statement(StatementKind::CashFlow, &values);
    assert_eq!(out.len(), n);
    assert_eq!(out[0].name, "flujo_operacion");
    assert_eq!(out[0].value, 12);
    assert_eq!(out[1].name, "utilidad_neta");
    assert_eq!(out[1].value, 0);
}

#[test]
fn field_lists_have_expected_sizes() {
    assert_eq!(statement_fields(StatementKind::CashFlow).len(), 23);
    assert_eq!(statement_fields(StatementKind::Position).len(), 24);
    assert_eq!(statement_fields(StatementKind::QuarterlyIncome).len(), 18);
}
