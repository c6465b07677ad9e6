use btrust::summary::{summarize, summarize_output};

#[test]
fn one_remaining_file_counts_one() {
    let s = summarize_output(b"/out/keep.bin\n");
    assert_eq!(s.count, 1);
    assert_eq!(s.sample, vec!["/out/keep.bin".to_string()]);
}

#[test]
fn sample_holds_the_first_five() {
    let s = summarize_output(b"/1\n/2\n/3\n/4\n/5\n/6\n/7\n");
    assert_eq!(s.count, 7);
    assert_eq!(s.sample, vec!["/1", "/2", "/3", "/4", "/5"]);
}

#[test]
fn empty_listing_counts_nothing() {
    let s = summarize(&[]);
    assert_eq!(s.count, 0);
    assert!(s.sample.is_empty());
}

#[test]
fn last_line_without_newline_counts() {
    let text: Vec<char> = "/a\n/b".chars().collect();
    let s = summarize(&text);
    assert_eq!(s.count, 2);
    assert_eq!(s.sample, vec!["/a", "/b"]);
}
