use vstd::prelude::*;
use crate::order::{insert_sorted_unique, lemma_lex_irreflexive, lemma_strictly_sorted_unique, strictly_sorted};
use crate::text::{
    contains, decode_lossy, find, lines_of, lossy_chars, split_lines, string_views, strings_of,
    views, words, words_of,
};

verus! {

/// The word that marks a restore diagnostic line.
#[verifier::opaque]
pub open spec fn restore_marker() -> Seq<char> {
    seq!['R', 'e', 's', 't', 'o', 'r', 'i', 'n', 'g']
}

/// The path that one diagnostic line names: the second word of a line that
/// holds the marker.
pub open spec fn line_path(line: Seq<char>) -> Option<Seq<char>> {
    if contains(line, restore_marker()) && words(line).len() >= 2 {
        Some(words(line)[1])
    } else {
        None
    }
}

/// The paths named by the first `n` lines of `lines`.
pub open spec fn paths_in_lines(lines: Seq<Seq<char>>, n: int) -> Set<Seq<char>> {
    Set::new(|p: Seq<char>| exists|i: int| 0 <= i < n && line_path(lines[i]) == Some(p))
}

proof fn lemma_paths_step(lines: Seq<Seq<char>>, k: int)
    requires
        0 <= k < lines.len(),
    ensures
        paths_in_lines(lines, k + 1) == (match line_path(lines[k]) {
            Some(p) => paths_in_lines(lines, k).insert(p),
            None => paths_in_lines(lines, k),
        }),
{
    let next = paths_in_lines(lines, k + 1);
    let prev = paths_in_lines(lines, k);
    match line_path(lines[k]) {
        Some(p) => {
            assert forall|q: Seq<char>| next.contains(q) <==> prev.insert(p).contains(q) by {
                if q == p {
                    assert(line_path(lines[k]) == Some(q));
                }
                if prev.contains(q) {
                    let i = choose|i: int| 0 <= i < k && line_path(lines[i]) == Some(q);
                    assert(0 <= i < k + 1 && line_path(lines[i]) == Some(q));
                }
            }
            assert(next =~= prev.insert(p));
        },
        None => {
            assert forall|q: Seq<char>| next.contains(q) <==> prev.contains(q) by {
                if next.contains(q) {
                    let i = choose|i: int| 0 <= i < k + 1 && line_path(lines[i]) == Some(q);
                    assert(i != k);
                }
                if prev.contains(q) {
                    let i = choose|i: int| 0 <= i < k && line_path(lines[i]) == Some(q);
                    assert(0 <= i < k + 1 && line_path(lines[i]) == Some(q));
                }
            }
            assert(next =~= prev);
        },
    }
}

/// The paths that diagnostic text names.
pub open spec fn named_paths(text: Seq<char>) -> Set<Seq<char>> {
    paths_in_lines(split_lines(text), split_lines(text).len() as int)
}

/// `r` lists the paths that `text` names, each once, in ascending order.
pub open spec fn is_listing(text: Seq<char>, r: Seq<Seq<char>>) -> bool {
    strictly_sorted(r) && r.to_set() == named_paths(text)
}

/// The path that one diagnostic line names, if any.
fn path_of_line(line: &[char], marker: &[char]) -> (r: Option<Vec<char>>)
    requires
        marker@ == restore_marker(),
    ensures
        match r {
            Some(p) => line_path(line@) == Some(p@),
            None => line_path(line@) is None,
        },
{
    let found = find(line, marker);
    if found.is_none() {
        assert(!contains(line@, restore_marker()));
        return None;
    }
    assert(contains(line@, restore_marker()));
    let mut w = words_of(line);
    let ghost ws = words(line@);
    assert(ws.len() == w@.len());
    if w.len() < 2 {
        return None;
    }
    assert(w@[1]@ == ws[1]);
    let p = w.remove(1);
    assert(p@ == ws[1]);
    Some(p)
}

/// The paths that restore diagnostics name, sorted and without repeats.
pub fn restored_paths(text: &[char]) -> (r: Vec<String>)
    ensures
        is_listing(text@, string_views(r@)),
{
    let marker: Vec<char> = vec!['R', 'e', 's', 't', 'o', 'r', 'i', 'n', 'g'];
    assert(marker@ =~= restore_marker()) by {
        reveal(restore_marker);
    }
    let lines = lines_of(text);
    let ghost ls = split_lines(text@);
    let mut out: Vec<Vec<char>> = Vec::new();
    let mut k: usize = 0;
    assert(views(out@).to_set() =~= paths_in_lines(ls, 0));
    assert(views(out@) =~= Seq::<Seq<char>>::empty());
    while k < lines.len()
        invariant
            views(lines@) == ls,
            marker@ == restore_marker(),
            k <= lines@.len(),
            strictly_sorted(views(out@)),
            views(out@).to_set() == paths_in_lines(ls, k as int),
        decreases lines@.len() - k,
    {
        let line = lines[k].as_slice();
        assert(line@ == ls[k as int]);
        proof {
            lemma_paths_step(ls, k as int);
        }
        match path_of_line(line, marker.as_slice()) {
            Some(p) => insert_sorted_unique(&mut out, p),
            None => {},
        }
        k = k + 1;
    }
    strings_of(&out)
}

/// The paths that a restore run's raw diagnostic output names, sorted and
/// without repeats; invalid UTF-8 is replaced, never refused.
pub fn extract_paths(output: &[u8]) -> (r: Vec<String>)
    ensures
        is_listing(lossy_chars(output@), string_views(r@)),
{
    let text = decode_lossy(output);
    restored_paths(text.as_slice())
}

/// Listing is deterministic and free of repeats: any two listings of the same
/// text are equal, and no entry equals the one after it.
pub proof fn lemma_listing_stable(text: Seq<char>, a: Seq<Seq<char>>, b: Seq<Seq<char>>)
    requires
        is_listing(text, a),
        is_listing(text, b),
    ensures
        a == b,
        forall|i: int| 0 <= i < a.len() - 1 ==> a[i] != #[trigger] a[i + 1],
{
    lemma_strictly_sorted_unique(a, b);
    assert forall|i: int| 0 <= i < a.len() - 1 implies a[i] != #[trigger] a[i + 1] by {
        lemma_lex_irreflexive(a[i]);
    }
}

} // verus!
