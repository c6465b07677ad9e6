use btrust::roots::{discover_roots, parse_digits, parse_roots, trim_non_digits};

#[test]
fn roots_come_newest_first() {
    let out = b"Superblock thinks the generation is 10\nWell block 5(gen: 1 level: 0)\nWell block 100(gen: 9 level: 0)\nWell block 3(gen: 1 level: 0)\n";
    assert_eq!(discover_roots(out), vec![100, 5, 3]);
}

#[test]
fn real_discovery_lines_parse() {
    let out = b"Well block 29917184(gen: 9 level: 0) seems good, but generation/level doesn't match, want gen: 10 level: 0\nFound tree root at 30031872 gen 10 level 0\n";
    assert_eq!(discover_roots(out), vec![29917184]);
}

#[test]
fn lines_without_a_number_are_skipped() {
    let out = b"Well block\nWell block abc\nWell block 1x2\nWell block 99999999999999999999\nWell block 18446744073709551615\n";
    assert_eq!(discover_roots(out), vec![18446744073709551615]);
}

#[test]
fn no_roots_give_an_empty_list() {
    assert!(discover_roots(b"nothing here\n").is_empty());
    assert!(discover_roots(b"").is_empty());
}

#[test]
fn repeated_roots_are_kept() {
    let text: Vec<char> = "Well block 7\nWell block 7\nWell block 8\n".chars().collect();
    assert_eq!(parse_roots(&text), vec![8, 7, 7]);
}

#[test]
fn only_the_word_after_the_first_marker_counts() {
    let text: Vec<char> = "x Well block 12Well block 40\n".chars().collect();
    assert_eq!(parse_roots(&text), vec![12]);
}

#[test]
fn trimming_keeps_the_inner_digits() {
    let s: Vec<char> = "(#42)".chars().collect();
    assert_eq!(trim_non_digits(&s), vec!['4', '2']);
    let none: Vec<char> = "abc".chars().collect();
    assert!(trim_non_digits(&none).is_empty());
}

#[test]
fn digits_parse_within_range() {
    let d: Vec<char> = "0042".chars().collect();
    assert_eq!(parse_digits(&d), Some(42));
    let big: Vec<char> = "18446744073709551616".chars().collect();
    assert_eq!(parse_digits(&big), None);
    assert_eq!(parse_digits(&[]), None);
    let mixed: Vec<char> = "4a2".chars().collect();
    assert_eq!(parse_digits(&mixed), None);
}
