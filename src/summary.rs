use vstd::prelude::*;
use crate::text::{decode_lossy, lines_of, lossy_chars, split_lines, string_of, string_views, views};

verus! {

/// How many recovered files the summary shows by name.
pub const SAMPLE_SIZE: usize = 5;

/// The lines of a file listing: the pieces between newlines, without the
/// empty piece that a final newline (or empty text) leaves.
pub open spec fn listing_lines(s: Seq<char>) -> Seq<Seq<char>> {
    let l = split_lines(s);
    if l.last().len() == 0 {
        l.drop_last()
    } else {
        l
    }
}

/// What the end of a recovery reports: how many files remain, and the first
/// few of them in listing order.
pub struct Summary {
    pub count: usize,
    pub sample: Vec<String>,
}

/// Summarises a listing of the non-empty files left after recovery.
pub fn summarize(listing: &[char]) -> (r: Summary)
    ensures
        r.count == listing_lines(listing@).len(),
        string_views(r.sample@) == listing_lines(listing@).take(
            if listing_lines(listing@).len() < SAMPLE_SIZE {
                listing_lines(listing@).len() as int
            } else {
                SAMPLE_SIZE as int
            },
        ),
{
    let lines = lines_of(listing);
    let ghost ls = split_lines(listing@);
    assert(ls.len() >= 1) by {
        reveal(split_lines);
    }
    let mut count: usize = lines.len();
    if lines[count - 1].len() == 0 {
        count = count - 1;
    }
    let ghost names = listing_lines(listing@);
    assert(count == names.len());
    assert(names =~= ls.take(count as int));
    let mut sample: Vec<String> = Vec::new();
    let mut i: usize = 0;
    while i < count && i < SAMPLE_SIZE
        invariant
            views(lines@) == ls,
            count == names.len(),
            count <= lines@.len(),
            names == ls.take(count as int),
            i <= count,
            i <= SAMPLE_SIZE,
            string_views(sample@) == names.take(i as int),
        decreases count - i,
    {
        let ghost before = sample@;
        sample.push(string_of(lines[i].as_slice()));
        assert(lines@[i as int]@ == names[i as int]);
        assert(string_views(sample@) =~= string_views(before).push(names[i as int]));
        assert(names.take(i + 1) =~= names.take(i as int).push(names[i as int]));
        i = i + 1;
    }
    assert(i == (if names.len() < SAMPLE_SIZE { names.len() as int } else { SAMPLE_SIZE as int }));
    Summary { count, sample }
}

/// Summarises the raw output of the listing of recovered files; invalid
/// UTF-8 is replaced, never refused.
pub fn summarize_output(output: &[u8]) -> (r: Summary)
    ensures
        r.count == listing_lines(lossy_chars(output@)).len(),
        string_views(r.sample@) == listing_lines(lossy_chars(output@)).take(
            if listing_lines(lossy_chars(output@)).len() < SAMPLE_SIZE {
                listing_lines(lossy_chars(output@)).len() as int
            } else {
                SAMPLE_SIZE as int
            },
        ),
{
    let text = decode_lossy(output);
    summarize(text.as_slice())
}

} // verus!
