use slot_observer::text::{push_decimal, str_contains, str_less, str_same};
use std::collections::BTreeSet;

fn samples() -> Vec<&'static str> {
    vec![
        "",
        "a",
        "A",
        "ab",
        "abc",
        "abd",
        "b",
        "ProgA",
        "ProgB",
        "Prog",
        "11111111111111111111111111111111",
        "Vote111111111111111111111111111111111111111",
        "é",
        "e",
        "z",
        "zz",
        "日本",
        "日",
        "\u{7f}",
        "\u{80}",
        "\u{10ffff}",
        "\u{ffff}",
    ]
}

fn decimal_of(n: u64) -> String {
    let mut out = String::new();
    push_decimal(&mut out, n);
    out
}

#[test]
fn order_agrees_with_the_order_of_strings() {
    for a in samples() {
        for b in samples() {
            assert_eq!(str_less(a, b), a < b, "{:?} < {:?}", a, b);
        }
    }
}

#[test]
fn order_is_strict() {
    for a in samples() {
        assert!(!str_less(a, a));
    }
    assert!(str_less("", "a"));
    assert!(!str_less("a", ""));
    assert!(str_less("ProgA", "ProgB"));
    assert!(str_less("Prog", "ProgA"));
    assert!(!str_less("ProgB", "ProgA"));
}

#[test]
fn sameness_agrees_with_equality() {
    for a in samples() {
        for b in samples() {
            assert_eq!(str_same(a, b), a == b, "{:?} == {:?}", a, b);
        }
    }
}

#[test]
fn search_agrees_with_contains() {
    let hays = vec![
        "",
        "Block not available for slot 42",
        "RPC response error -32004: Block not available for slot 7; retry later",
        "block not available for slot 42",
        "Block not available for slo",
        "connection refused",
        "aaab",
        "日本語のテキスト",
    ];
    let needles =
        vec!["", "Block not available for slot", "aab", "ab", "b", "本語", "slot 42", "x"];
    for hay in hays.iter() {
        for needle in needles.iter() {
            let found = str_contains(hay, needle);
            assert_eq!(found, hay.contains(needle), "{:?} in {:?}", needle, hay);
        }
    }
}

#[test]
fn search_finds_a_needle_at_either_end() {
    assert!(str_contains("needle in hay", "needle"));
    assert!(str_contains("hay with needle", "needle"));
    assert!(str_contains("needle", "needle"));
    assert!(!str_contains("needl", "needle"));
    assert!(str_contains("anything", ""));
}

#[test]
fn decimal_numerals_are_exact() {
    assert_eq!(decimal_of(0), "0");
    assert_eq!(decimal_of(3), "3");
    assert_eq!(decimal_of(9), "9");
    assert_eq!(decimal_of(10), "10");
    assert_eq!(decimal_of(42), "42");
    assert_eq!(decimal_of(100), "100");
    assert_eq!(decimal_of(1000000007), "1000000007");
    assert_eq!(decimal_of(u64::MAX), "18446744073709551615");
}

#[test]
fn decimal_numerals_are_appended() {
    let mut out = String::from("slot-");
    push_decimal(&mut out, 120);
    assert_eq!(out, "slot-120");
    push_decimal(&mut out, 0);
    assert_eq!(out, "slot-1200");
}

#[test]
fn sorted_samples_match_an_ordered_set() {
    let mut sorted: Vec<&str> = samples();
    sorted.sort_by(|a, b| {
        if str_less(a, b) {
            std::cmp::Ordering::Less
        } else if str_less(b, a) {
            std::cmp::Ordering::Greater
        } else {
            std::cmp::Ordering::Equal
        }
    });
    let set: BTreeSet<&str> = samples().into_iter().collect();
    let expected: Vec<&str> = set.into_iter().collect();
    assert_eq!(sorted, expected);
}
