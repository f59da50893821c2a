use daliatrac::directory;
use daliatrac::error::SyncError;
use daliatrac::text::{contains_text, starts_with, text_eq, text_less};
use daliatrac::ticker::{full_ticker, resolve_index, resolve_ticker, ticker_variants, EmisoraBusqueda, IssuerIdentity, TickerInfo};

fn entry(issuer: &str, series: &str) -> IssuerIdentity {
    IssuerIdentity {
        issuer_code: issuer.to_string(),
        series_code: series.to_string(),
        display_name: format!("{} {}", issuer, series),
        security_type: None,
    }
}

fn directory() -> Vec<IssuerIdentity> {
    vec![
        entry("WALMEX", "*"),
        entry("AMX", "B"),
        entry("AMX", "L"),
        entry("GF", "O"),
        entry("GFNORTE", "O"),
        entry("GRUPOBIMBO", "A"),
    ]
}

#[test]
fn prefix_query_resolves_to_issuer_and_series() {
    let dir = vec![entry("AMX", "B")];
    let id = resolve_ticker("AMXB", &dir).unwrap();
    assert_eq!(id.issuer_code, "AMX");
    assert_eq!(id.series_code, "B");
}

#[test]
fn every_full_code_resolves_to_itself() {
    let dir = directory();
    for (i, e) in dir.iter().enumerate() {
        let q = format!("{}{}", e.issuer_code, e.series_code);
        assert_eq!(resolve_index(&q, &dir), Some(i));
        let id = resolve_ticker(&q, &dir).unwrap();
        assert_eq!(id.issuer_code, e.issuer_code);
        assert_eq!(id.series_code, e.series_code);
        assert_eq!(id.display_name, e.display_name);
    }
}

#[test]
fn exact_issuer_match_takes_first_entry() {
    let dir = directory();
    assert_eq!(resolve_index("AMX", &dir), Some(1));
    assert_eq!(resolve_index("WALMEX", &dir), Some(0));
}

#[test]
fn longest_prefix_wins() {
    let dir = directory();
    assert_eq!(resolve_index("GFNORTEX", &dir), Some(4));
    assert_eq!(resolve_index("GFX", &dir), Some(3));
    assert_eq!(resolve_index("AMXZ", &dir), Some(1));
}

#[test]
fn similarity_stage_uses_first_six_characters() {
    let dir = directory();
    // the query occurs inside an issuer code
    assert_eq!(resolve_index("BIMBO", &dir), Some(5));
    // an issuer code inside the query's first six characters
    assert_eq!(resolve_index("XXAMXYYY", &dir), Some(1));
    // an issuer code that only occurs after the sixth character is not found
    assert_eq!(resolve_index("XXXXXXAMX", &dir), None);
}

#[test]
fn unknown_ticker_is_not_found_with_query_echoed() {
    let dir = directory();
    match resolve_ticker("ZZZ", &dir) {
        Err(SyncError::NotFound { query }) => assert_eq!(query, "ZZZ"),
        other => panic!("unexpected {:?}", other),
    }
}

#[test]
fn variants_cover_the_marker_spellings() {
    assert_eq!(ticker_variants("WALMEX*"), vec!["WALMEX*".to_string(), "WALMEX**".to_string(), "WALMEX".to_string()]);
    assert_eq!(ticker_variants("AMXB"), vec!["AMXB".to_string(), "AMXB*".to_string(), "AMXB".to_string()]);
}

#[test]
fn full_ticker_joins_issuer_and_series() {
    assert_eq!(full_ticker("AMX", &Some("B".to_string())), "AMXB");
    assert_eq!(full_ticker("AMX", &None), "AMX");
    let hit = EmisoraBusqueda::new("America Movil".to_string(), "AMX".to_string(), Some("L".to_string()));
    assert_eq!(hit.ticker, "AMXL");
    let info = TickerInfo::new("BIMBO".to_string(), None);
    assert_eq!(info.ticker, "BIMBO");
}

#[test]
fn listing_becomes_identity() {
    let l = directory::EmisoraBusqueda { razon_social: "Walmart".to_string(), emisoras: "WALMEX".to_string(), serie: "*".to_string() };
    let id = l.to_identity(Some("ACCIONES".to_string()));
    assert_eq!(id.issuer_code, "WALMEX");
    assert_eq!(id.series_code, "*");
    assert_eq!(id.display_name, "Walmart");
    assert_eq!(id.security_type, Some("ACCIONES".to_string()));
}

#[test]
fn text_helpers() {
    assert!(text_eq("abc", "abc"));
    assert!(!text_eq("abc", "abd"));
    assert!(starts_with("GFNORTEO", "GFNORTE"));
    assert!(!starts_with("GF", "GFNORTE"));
    assert!(contains_text("GRUPOBIMBO", "BIMBO"));
    assert!(contains_text("abc", ""));
    assert!(!contains_text("BIM", "BIMBO"));
    assert!(text_less("1T_2025", "4T_2024"));
    assert!(text_less("ab", "abc"));
    assert!(!text_less("abc", "abc"));
    assert!(!text_less("b", "abc"));
}

#[test]
fn describe_errors() {
    assert_eq!(SyncError::NotFound { query: "X".to_string() }.describe(), "no issuer found for ticker: X");
    assert_eq!(SyncError::ValidationError.describe(), "malformed range or period");
}
