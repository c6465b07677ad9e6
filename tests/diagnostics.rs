use btrust::diagnostics::{extract_paths, restored_paths};

#[test]
fn restoring_lines_are_sorted_and_deduplicated() {
    let out = b"Restoring /a/b\nRestoring /a/b\nRestoring /c\nnoise line\n";
    assert_eq!(extract_paths(out), vec!["/a/b".to_string(), "/c".to_string()]);
}

#[test]
fn extraction_is_repeatable() {
    let out = b"Restoring /z\nRestoring /m\nRestoring /z\nRestoring /a\n";
    let first = extract_paths(out);
    let second = extract_paths(out);
    assert_eq!(first, second);
    assert_eq!(first, vec!["/a", "/m", "/z"]);
    for w in first.windows(2) {
        assert_ne!(w[0], w[1]);
    }
}

#[test]
fn marker_anywhere_takes_the_second_word() {
    let out = b"  [x] Restoring /y extra\nRestoring\nSkipping /q\n";
    assert_eq!(extract_paths(out), vec!["Restoring".to_string()]);
}

#[test]
fn line_with_marker_and_one_word_names_nothing() {
    assert!(extract_paths(b"Restoring\n").is_empty());
    assert!(extract_paths(b"").is_empty());
}

#[test]
fn invalid_utf8_is_replaced() {
    let out = b"Restoring /bad\xff\nRestoring /ok\n";
    assert_eq!(extract_paths(out), vec!["/bad\u{fffd}".to_string(), "/ok".to_string()]);
}

#[test]
fn tabs_and_carriage_returns_separate_words() {
    let out = b"Restoring\t/t1\r\nRestoring   /t0\r\n";
    assert_eq!(extract_paths(out), vec!["/t0".to_string(), "/t1".to_string()]);
}

#[test]
fn unicode_spaces_separate_words() {
    let text: Vec<char> = "Restoring\u{3000}/wide\n".chars().collect();
    assert_eq!(restored_paths(&text), vec!["/wide".to_string()]);
}

#[test]
fn order_is_by_code_point() {
    let text: Vec<char> = "Restoring /b\nRestoring /B\nRestoring /ä\nRestoring /a\n".chars().collect();
    assert_eq!(restored_paths(&text), vec!["/B", "/a", "/b", "/ä"]);
}
