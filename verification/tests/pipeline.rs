//! End-to-end tests of the extraction pipeline.

use card_catalog::extract::cards_from_text;
use card_catalog::extract::CatalogError;
use card_catalog::render::price_rank_csv;
use card_catalog::render::render_top_lines;
use card_catalog::query::top_cards_under_price;
use card_catalog::price::parse_price;
use card_catalog::price::Price;

const EXAMPLE: &str = r#"[{"name":"Sol Ring","type_line":"Artifact","edhrec_rank":1,"prices":{"usd":"2.00"}}, {"name":"Obscure Card","type_line":"Creature","edhrec_rank":9999,"prices":{"usd":null}}]"#;

fn lines_to_strings(lines: &[Vec<u8>]) -> Vec<String> {
    lines.iter().map(|l| String::from_utf8(l.clone()).unwrap()).collect()
}

#[test]
fn dump_example_single_line() {
    let cards = cards_from_text(EXAMPLE).unwrap();
    assert_eq!(cards.len(), 1);
    let lines = lines_to_strings(&price_rank_csv(&cards));
    assert_eq!(lines, vec!["2, 1".to_string()]);
}

#[test]
fn top_example_single_line() {
    let cards = cards_from_text(EXAMPLE).unwrap();
    let max = parse_price(&b"10.0".to_vec()).unwrap();
    let top = top_cards_under_price(&cards, 5, &max, None);
    let lines = lines_to_strings(&render_top_lines(&top));
    assert_eq!(lines, vec!["1 Sol Ring".to_string()]);
}

#[test]
fn top_example_type_filter_empty() {
    let cards = cards_from_text(EXAMPLE).unwrap();
    let max = parse_price(&b"10.0".to_vec()).unwrap();
    let filter = b"Creature".to_vec();
    let top = top_cards_under_price(&cards, 5, &max, Some(&filter));
    assert_eq!(top.len(), 0);
}

#[test]
fn unranked_record_is_skipped() {
    let text = r#"[{"name":"No Rank","type_line":"Artifact","prices":{"usd":"1.00"}},
                   {"name":"Ranked","type_line":"Artifact","edhrec_rank":2,"prices":{"usd":"3.5"}}]"#;
    let cards = cards_from_text(text).unwrap();
    assert_eq!(cards.len(), 1);
    assert_eq!(cards[0].name, b"Ranked".to_vec());
    let lines = lines_to_strings(&price_rank_csv(&cards));
    assert_eq!(lines, vec!["3.5, 2".to_string()]);
}

#[test]
fn null_price_is_skipped() {
    let text = r#"[{"name":"A","type_line":"T","edhrec_rank":1,"prices":{"usd":null}}]"#;
    let cards = cards_from_text(text).unwrap();
    assert_eq!(cards.len(), 0);
}

#[test]
fn absent_price_is_skipped() {
    let text = r#"[{"name":"A","type_line":"T","edhrec_rank":1,"prices":{"eur":"4.00"}}]"#;
    let cards = cards_from_text(text).unwrap();
    assert_eq!(cards.len(), 0);
}

#[test]
fn ranked_record_missing_name_is_fatal() {
    let text = r#"[{"name":"Fine","type_line":"T","edhrec_rank":1,"prices":{"usd":"1.0"}},
                   {"type_line":"T","edhrec_rank":2,"prices":{"usd":"1.0"},"extra":"x"}]"#;
    match cards_from_text(text) {
        Err(CatalogError::MalformedRecord(keys)) => {
            assert_eq!(keys, vec![b"extra".to_vec()]);
        },
        other => panic!("expected a malformed-record error, got {:?}", other.is_ok()),
    }
}

#[test]
fn ranked_record_missing_prices_is_fatal() {
    let text = r#"[{"name":"A","type_line":"T","edhrec_rank":2}]"#;
    assert!(matches!(cards_from_text(text), Err(CatalogError::MalformedRecord(_))));
}

#[test]
fn non_text_name_is_fatal() {
    let text = r#"[{"name":7,"type_line":"T","edhrec_rank":2,"prices":{"usd":"1.0"}}]"#;
    assert!(matches!(cards_from_text(text), Err(CatalogError::MalformedRecord(_))));
}

#[test]
fn non_object_prices_is_fatal() {
    let text = r#"[{"name":"A","type_line":"T","edhrec_rank":2,"prices":"1.0"}]"#;
    assert!(matches!(cards_from_text(text), Err(CatalogError::MalformedRecord(_))));
}

#[test]
fn top_level_not_array_is_structure_error() {
    let text = r#"{"name":"A"}"#;
    assert!(matches!(cards_from_text(text), Err(CatalogError::Structure)));
}

#[test]
fn bad_json_is_parse_error() {
    let text = "[{\"name\": ";
    assert!(matches!(cards_from_text(text), Err(CatalogError::Parse(_))));
}

#[test]
fn bad_price_text_is_numeric_error() {
    let text = r#"[{"name":"A","type_line":"T","edhrec_rank":2,"prices":{"usd":"abc"}}]"#;
    assert!(matches!(cards_from_text(text), Err(CatalogError::NumericFormat)));
}

#[test]
fn negative_rank_is_numeric_error() {
    let text = r#"[{"name":"A","type_line":"T","edhrec_rank":-5,"prices":{"usd":"1.0"}}]"#;
    assert!(matches!(cards_from_text(text), Err(CatalogError::NumericFormat)));
}

#[test]
fn fractional_rank_is_numeric_error() {
    let text = r#"[{"name":"A","type_line":"T","edhrec_rank":1.5,"prices":{"usd":"1.0"}}]"#;
    assert!(matches!(cards_from_text(text), Err(CatalogError::NumericFormat)));
}

#[test]
fn textual_rank_is_fatal() {
    let text = r#"[{"name":"A","type_line":"T","edhrec_rank":"1","prices":{"usd":"1.0"}}]"#;
    assert!(matches!(cards_from_text(text), Err(CatalogError::MalformedRecord(_))));
}

#[test]
fn non_object_listing_entry_is_skipped() {
    let text = r#"[7, {"name":"A","type_line":"T","edhrec_rank":3,"prices":{"usd":"1.0"}}, "x"]"#;
    let cards = cards_from_text(text).unwrap();
    assert_eq!(cards.len(), 1);
}

#[test]
fn prices_normalize_to_natural_decimal_text() {
    // Leading and trailing zeros disappear from the rendered price.
    let text = r#"[{"name":"A","type_line":"T","edhrec_rank":10,"prices":{"usd":"007.250"}},
                   {"name":"B","type_line":"T","edhrec_rank":11,"prices":{"usd":"0.25"}},
                   {"name":"C","type_line":"T","edhrec_rank":12,"prices":{"usd":"40.00"}}]"#;
    let cards = cards_from_text(text).unwrap();
    let lines = lines_to_strings(&price_rank_csv(&cards));
    assert_eq!(
        lines,
        vec!["7.25, 10".to_string(), "0.25, 11".to_string(), "40, 12".to_string()]
    );
}

#[test]
fn parse_price_exact_values() {
    assert_eq!(parse_price(&b"2.00".to_vec()), Some(Price { mantissa: 2, scale: 0 }));
    assert_eq!(parse_price(&b"2.50".to_vec()), Some(Price { mantissa: 25, scale: 1 }));
    assert_eq!(parse_price(&b"0.25".to_vec()), Some(Price { mantissa: 25, scale: 2 }));
    assert_eq!(parse_price(&b"1234".to_vec()), Some(Price { mantissa: 1234, scale: 0 }));
    assert_eq!(parse_price(&b"".to_vec()), None);
    assert_eq!(parse_price(&b".5".to_vec()), None);
    assert_eq!(parse_price(&b"5.".to_vec()), None);
    assert_eq!(parse_price(&b"-1".to_vec()), None);
    assert_eq!(parse_price(&b"1.2.3".to_vec()), None);
    assert_eq!(parse_price(&b"1e3".to_vec()), None);
}
