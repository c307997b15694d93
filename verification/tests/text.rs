//! The string operations the crate is built from, held against `std`.

use slack2buzz::order::{sort_pairs, sort_set, sort_texts};
use slack2buzz::tally::Tally;
use slack2buzz::text::{
    decimal, has, is_blank, is_white, left_aligned, less, lines_of, parse_integer, right_aligned,
    same_ignoring_case, split_char, trim, trim_start_char,
};

const SAMPLES: [&str; 12] = [
    "",
    " ",
    "a",
    "  padded \t",
    "\u{3000}wide\u{a0}",
    "line\r\nline\n\nlast",
    "trailing\n",
    "ends in cr\r",
    "##double#",
    "żółć",
    "𝕊𝕝𝕒𝕔𝕜",
    "-12",
];

#[test]
fn white_space_is_what_std_says() {
    for n in 0..=0x10FFFFu32 {
        if let Some(c) = char::from_u32(n) {
            assert_eq!(is_white(c), c.is_whitespace(), "{n:x}");
        }
    }
}

#[test]
fn trimming_and_lines_are_those_of_std() {
    for s in SAMPLES {
        assert_eq!(trim(s), s.trim(), "{s:?}");
        assert_eq!(is_blank(s), s.trim().is_empty(), "{s:?}");
        assert_eq!(trim_start_char(s, '#'), s.trim_start_matches('#'), "{s:?}");
        assert_eq!(lines_of(s), s.lines().collect::<Vec<_>>(), "{s:?}");
        assert_eq!(split_char(s, '#'), s.split('#').collect::<Vec<_>>(), "{s:?}");
        assert_eq!(parse_integer(s), s.parse::<i64>().ok(), "{s:?}");
        for t in SAMPLES {
            assert_eq!(less(s, t), s < t, "{s:?} {t:?}");
            assert_eq!(has(s, t), s.contains(t), "{s:?} {t:?}");
        }
    }
}

#[test]
fn case_is_ignored_for_ascii_only() {
    for (a, b) in [("Alice", "aLICE"), ("ż", "Ż"), ("a", "ab"), ("[", "{"), ("@", "`")] {
        assert_eq!(same_ignoring_case(a, b), a.eq_ignore_ascii_case(b));
    }
}

#[test]
fn numbers_and_padding_are_those_of_format() {
    for n in [0, 7, 10, 4096, u64::MAX] {
        assert_eq!(decimal(n), format!("{n}"));
        assert_eq!(right_aligned(&decimal(n), ' ', 6), format!("{n:>6}"));
    }
    for s in SAMPLES {
        assert_eq!(left_aligned(s, 8), format!("{s:<8}"));
        assert_eq!(right_aligned(s, ' ', 8), format!("{s:>8}"));
    }
}

#[test]
fn sorting_is_that_of_std() {
    let list: Vec<String> = ["b", "a", "ż", "a", "", "B", "𝕊", "\u{ffff}"]
        .iter()
        .map(|s| s.to_string())
        .collect();
    let mut sorted = list.clone();
    sorted.sort();
    assert_eq!(sort_texts(&list), sorted);
    sorted.dedup();
    assert_eq!(sort_set(&list), sorted);
    let pairs: Vec<(String, String)> = list
        .iter()
        .rev()
        .zip(list.iter())
        .map(|(a, b)| (a.clone(), b.clone()))
        .collect();
    let mut sorted = pairs.clone();
    sorted.sort();
    assert_eq!(sort_pairs(&pairs), sorted);
}

#[test]
fn a_tally_counts_by_name() {
    let mut t = Tally::new();
    for name in ["b", "a", "b"] {
        t.bump(name);
    }
    assert_eq!(t.get("b"), Some(&2));
    assert_eq!(t.get("c"), None);
    assert!(t.contains_key("a"));
    assert_eq!(
        t.entries(),
        &vec![("a".to_string(), 1), ("b".to_string(), 2)]
    );
    assert_eq!(Tally::of_entries(t.entries().clone()), Some(t));
    assert_eq!(
        Tally::of_entries(vec![("b".to_string(), 1), ("a".to_string(), 2)]),
        None
    );
    assert_eq!(
        Tally::of_entries(vec![("a".to_string(), 1), ("a".to_string(), 2)]),
        None
    );
    assert_eq!(Tally::of_entries(vec![]), Some(Tally::default()));
}
