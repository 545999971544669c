//! Tests of the query engine and the formatter over in-memory collections.

use card_catalog::card::Card;
use card_catalog::price::parse_price;
use card_catalog::price::price_le_exec;
use card_catalog::price::render_price;
use card_catalog::price::Price;
use card_catalog::query::price_rank_pairs;
use card_catalog::query::top_cards_under_price;
use card_catalog::render::render_top_lines;
use card_catalog::render::price_rank_csv;
use card_catalog::text::contains_sub;

fn card(name: &str, type_line: &str, price_text: &str, rank: u64) -> Card {
    Card {
        name: name.as_bytes().to_vec(),
        type_line: type_line.as_bytes().to_vec(),
        price: parse_price(&price_text.as_bytes().to_vec()).unwrap(),
        popularity_rank: rank,
    }
}

fn names(cards: &[Card]) -> Vec<String> {
    cards.iter().map(|c| String::from_utf8(c.name.clone()).unwrap()).collect()
}

#[test]
fn dump_is_order_and_filter_free() {
    let cards = vec![
        card("A", "Artifact", "100.00", 9),
        card("B", "Creature", "0.10", 1),
        card("C", "Land", "3.5", 5),
    ];
    let pairs = price_rank_pairs(&cards);
    assert_eq!(pairs.len(), 3);
    assert_eq!(pairs[0], (Price { mantissa: 100, scale: 0 }, 9));
    assert_eq!(pairs[1], (Price { mantissa: 1, scale: 1 }, 1));
    assert_eq!(pairs[2], (Price { mantissa: 35, scale: 1 }, 5));
    let lines: Vec<String> = price_rank_csv(&cards)
        .iter()
        .map(|l| String::from_utf8(l.clone()).unwrap())
        .collect();
    assert_eq!(lines, vec!["100, 9", "0.1, 1", "3.5, 5"]);
}

#[test]
fn top_k_filters_by_price_and_type() {
    let cards = vec![
        card("Cheap Artifact", "Artifact", "1.00", 4),
        card("Pricey Creature", "Legendary Creature", "50.00", 1),
        card("Cheap Creature", "Creature - Bird", "2.00", 3),
    ];
    let max = parse_price(&b"10.00".to_vec()).unwrap();
    let filter = b"Creature".to_vec();
    let top = top_cards_under_price(&cards, 10, &max, Some(&filter));
    assert_eq!(names(&top), vec!["Cheap Creature"]);
}

#[test]
fn top_k_sorts_by_rank_ascending() {
    let cards = vec![
        card("Third", "T", "1.0", 30),
        card("First", "T", "1.0", 10),
        card("Second", "T", "1.0", 20),
    ];
    let max = parse_price(&b"5".to_vec()).unwrap();
    let top = top_cards_under_price(&cards, 10, &max, None);
    assert_eq!(names(&top), vec!["First", "Second", "Third"]);
}

#[test]
fn top_k_sort_is_stable_on_equal_ranks() {
    let cards = vec![
        card("A", "T", "1.0", 5),
        card("B", "T", "1.0", 3),
        card("C", "T", "1.0", 5),
        card("D", "T", "1.0", 3),
    ];
    let max = parse_price(&b"5".to_vec()).unwrap();
    let top = top_cards_under_price(&cards, 10, &max, None);
    assert_eq!(names(&top), vec!["B", "D", "A", "C"]);
}

#[test]
fn top_k_length_is_min_of_k_and_retained() {
    let cards = vec![
        card("A", "T", "1.0", 1),
        card("B", "T", "2.0", 2),
        card("C", "T", "9.0", 3),
    ];
    let max = parse_price(&b"5".to_vec()).unwrap();
    assert_eq!(top_cards_under_price(&cards, 0, &max, None).len(), 0);
    assert_eq!(top_cards_under_price(&cards, 1, &max, None).len(), 1);
    assert_eq!(top_cards_under_price(&cards, 2, &max, None).len(), 2);
    assert_eq!(top_cards_under_price(&cards, 99, &max, None).len(), 2);
}

#[test]
fn queries_are_repeatable() {
    let cards = vec![
        card("A", "T", "1.0", 2),
        card("B", "T", "2.0", 1),
    ];
    let max = parse_price(&b"5".to_vec()).unwrap();
    let first = top_cards_under_price(&cards, 5, &max, None);
    let second = top_cards_under_price(&cards, 5, &max, None);
    assert_eq!(names(&first), names(&second));
    let d1 = price_rank_pairs(&cards);
    let d2 = price_rank_pairs(&cards);
    assert_eq!(d1, d2);
}

#[test]
fn type_filter_is_case_sensitive() {
    let cards = vec![card("A", "Creature", "1.0", 1)];
    let max = parse_price(&b"5".to_vec()).unwrap();
    let lower = b"creature".to_vec();
    assert_eq!(top_cards_under_price(&cards, 5, &max, Some(&lower)).len(), 0);
    let exact = b"Creature".to_vec();
    assert_eq!(top_cards_under_price(&cards, 5, &max, Some(&exact)).len(), 1);
}

#[test]
fn substring_containment() {
    assert!(contains_sub(&b"Legendary Creature - Human".to_vec(), &b"Creature".to_vec()));
    assert!(contains_sub(&b"abc".to_vec(), &b"".to_vec()));
    assert!(!contains_sub(&b"abc".to_vec(), &b"abcd".to_vec()));
    assert!(!contains_sub(&b"Artifact".to_vec(), &b"Creature".to_vec()));
}

#[test]
fn price_order_is_exact() {
    let p = |t: &str| parse_price(&t.as_bytes().to_vec()).unwrap();
    assert!(price_le_exec(&p("2.5"), &p("2.50")));
    assert!(price_le_exec(&p("2.50"), &p("2.5")));
    assert!(price_le_exec(&p("0.25"), &p("0.3")));
    assert!(!price_le_exec(&p("0.3"), &p("0.25")));
    assert!(price_le_exec(&p("10"), &p("10.01")));
    assert!(!price_le_exec(&p("10.01"), &p("10")));
}

#[test]
fn price_renders_naturally() {
    let p = |t: &str| parse_price(&t.as_bytes().to_vec()).unwrap();
    let s = |v: Vec<u8>| String::from_utf8(v).unwrap();
    assert_eq!(s(render_price(&p("2.00"))), "2");
    assert_eq!(s(render_price(&p("2.50"))), "2.5");
    assert_eq!(s(render_price(&p("0.25"))), "0.25");
    assert_eq!(s(render_price(&p("0.00"))), "0");
    assert_eq!(s(render_price(&p("123.456"))), "123.456");
}

#[test]
fn top_lines_use_deck_list_prefix() {
    let cards = vec![card("Sol Ring", "Artifact", "2.00", 1)];
    let lines: Vec<String> = render_top_lines(&cards)
        .iter()
        .map(|l| String::from_utf8(l.clone()).unwrap())
        .collect();
    assert_eq!(lines, vec!["1 Sol Ring"]);
}
