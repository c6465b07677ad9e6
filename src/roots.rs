use vstd::prelude::*;
use crate::text::{
    contains, decode_lossy, find, first_occurrence, lines_of, lossy_chars, split_lines,
    views, words, words_of,
};

verus! {

/// The phrase that marks a line of root discovery output.
#[verifier::opaque]
pub open spec fn root_marker() -> Seq<char> {
    seq!['W', 'e', 'l', 'l', ' ', 'b', 'l', 'o', 'c', 'k']
}

pub open spec fn is_digit(c: char) -> bool {
    '0' <= c && c <= '9'
}

/// `s` without its leading non-digits.
pub open spec fn trim_front(s: Seq<char>) -> Seq<char>
    decreases s.len(),
{
    if s.len() > 0 && !is_digit(s[0]) {
        trim_front(s.drop_first())
    } else {
        s
    }
}

/// `s` without its trailing non-digits.
pub open spec fn trim_back(s: Seq<char>) -> Seq<char>
    decreases s.len(),
{
    if s.len() > 0 && !is_digit(s.last()) {
        trim_back(s.drop_last())
    } else {
        s
    }
}

/// The number that a string of decimal digits denotes.
pub open spec fn decimal(s: Seq<char>) -> nat
    decreases s.len(),
{
    if s.len() == 0 {
        0
    } else {
        decimal(s.drop_last()) * 10 + ((s.last() as u32) - ('0' as u32)) as nat
    }
}

/// What `u64`'s parser gives for a string that starts with a digit: the
/// value of a non-empty run of digits that fits.
pub open spec fn parse_decimal(s: Seq<char>) -> Option<u64> {
    if s.len() > 0 && (forall|i: int| 0 <= i < s.len() ==> is_digit(#[trigger] s[i])) && decimal(s)
        <= u64::MAX {
        Some(decimal(s) as u64)
    } else {
        None
    }
}

/// The root identifier on one line of discovery output: the first word
/// after the first occurrence of the marker, stripped of non-digits at both
/// ends and read as a `u64`.
#[verifier::opaque]
pub open spec fn line_root(line: Seq<char>) -> Option<u64> {
    if contains(line, root_marker()) {
        let rest = line.subrange(
            first_occurrence(line, root_marker()) + root_marker().len(),
            line.len() as int,
        );
        root_in_words(rest)
    } else {
        None
    }
}

/// The identifier that the first word of `rest` holds, if any.
pub open spec fn root_in_words(rest: Seq<char>) -> Option<u64> {
    if words(rest).len() > 0 {
        parse_decimal(trim_back(trim_front(words(rest)[0])))
    } else {
        None
    }
}

/// The identifiers on the first `n` lines, in the order of the lines.
pub open spec fn roots_in_lines(lines: Seq<Seq<char>>, n: int) -> Seq<u64>
    decreases n,
{
    if n <= 0 {
        Seq::empty()
    } else {
        match line_root(lines[n - 1]) {
            Some(r) => roots_in_lines(lines, n - 1).push(r),
            None => roots_in_lines(lines, n - 1),
        }
    }
}

/// The identifiers that discovery output reports, in the order of its lines.
pub open spec fn found_roots(text: Seq<char>) -> Seq<u64> {
    roots_in_lines(split_lines(text), split_lines(text).len() as int)
}

/// Newest first: no identifier is followed by a larger one.
pub open spec fn newest_first(s: Seq<u64>) -> bool {
    forall|i: int, j: int| 0 <= i < j < s.len() ==> s[i] >= s[j]
}

proof fn lemma_decimal_grows(s: Seq<char>, n: int)
    requires
        0 <= n <= s.len(),
    ensures
        decimal(s.subrange(0, n)) <= decimal(s),
    decreases s.len() - n,
{
    if n < s.len() {
        lemma_decimal_grows(s, n + 1);
        assert(s.subrange(0, n + 1).drop_last() =~= s.subrange(0, n));
    } else {
        assert(s.subrange(0, n) =~= s);
    }
}

/// Reads `s` as a `u64` when it is a non-empty run of digits that fits.
pub fn parse_digits(s: &[char]) -> (r: Option<u64>)
    ensures
        r == parse_decimal(s@),
{
    if s.len() == 0 {
        return None;
    }
    let mut acc: u64 = 0;
    let mut i: usize = 0;
    while i < s.len()
        invariant
            i <= s@.len(),
            acc as nat == decimal(s@.subrange(0, i as int)),
            forall|j: int| 0 <= j < i ==> is_digit(#[trigger] s@[j]),
        decreases s@.len() - i,
    {
        let c = s[i];
        assert(s@.subrange(0, i + 1).drop_last() =~= s@.subrange(0, i as int));
        if !('0' <= c && c <= '9') {
            return None;
        }
        let d = (c as u32 - '0' as u32) as u64;
        proof {
            lemma_decimal_grows(s@, i + 1);
        }
        match acc.checked_mul(10) {
            Some(m) => match m.checked_add(d) {
                Some(v) => {
                    acc = v;
                },
                None => {
                    return None;
                },
            },
            None => {
                assert(decimal(s@.subrange(0, i + 1)) >= acc * 10);
                return None;
            },
        }
        i = i + 1;
    }
    assert(s@.subrange(0, i as int) =~= s@);
    Some(acc)
}

/// The digits of `s` between its leading and trailing non-digits.
pub fn trim_non_digits(s: &[char]) -> (r: Vec<char>)
    ensures
        r@ == trim_back(trim_front(s@)),
{
    let mut lo: usize = 0;
    assert(s@.subrange(0, s@.len() as int) =~= s@);
    while lo < s.len() && !('0' <= s[lo] && s[lo] <= '9')
        invariant
            lo <= s@.len(),
            trim_front(s@) == trim_front(s@.subrange(lo as int, s@.len() as int)),
        decreases s@.len() - lo,
    {
        assert(s@.subrange(lo as int, s@.len() as int).drop_first() =~= s@.subrange(lo + 1, s@.len() as int));
        lo = lo + 1;
    }
    let ghost front = s@.subrange(lo as int, s@.len() as int);
    assert(trim_front(s@) == front);
    let mut hi: usize = s.len();
    assert(front.subrange(0, front.len() as int) =~= front);
    while hi > lo && !('0' <= s[hi - 1] && s[hi - 1] <= '9')
        invariant
            lo <= hi <= s@.len(),
            front == s@.subrange(lo as int, s@.len() as int),
            trim_back(front) == trim_back(s@.subrange(lo as int, hi as int)),
        decreases hi,
    {
        assert(s@.subrange(lo as int, hi as int).drop_last() =~= s@.subrange(lo as int, hi - 1));
        hi = hi - 1;
    }
    let mut r: Vec<char> = Vec::new();
    let mut k: usize = lo;
    while k < hi
        invariant
            lo <= k <= hi <= s@.len(),
            r@ == s@.subrange(lo as int, k as int),
        decreases hi - k,
    {
        r.push(s[k]);
        assert(s@.subrange(lo as int, k + 1) =~= s@.subrange(lo as int, k as int).push(s@[k as int]));
        k = k + 1;
    }
    r
}

/// The characters of `s` from index `from` on.
fn suffix(s: &[char], from: usize) -> (r: Vec<char>)
    requires
        from <= s@.len(),
    ensures
        r@ == s@.subrange(from as int, s@.len() as int),
{
    let mut r: Vec<char> = Vec::new();
    let mut k: usize = from;
    while k < s.len()
        invariant
            from <= k <= s@.len(),
            r@ == s@.subrange(from as int, k as int),
        decreases s@.len() - k,
    {
        r.push(s[k]);
        assert(s@.subrange(from as int, k + 1) =~= s@.subrange(from as int, k as int).push(s@[k as int]));
        k = k + 1;
    }
    r
}

/// The root identifier that one line of discovery output reports, if any.
fn root_of_line(line: &[char], marker: &[char]) -> (r: Option<u64>)
    requires
        marker@ == root_marker(),
    ensures
        r == line_root(line@),
{
    let found = find(line, marker);
    match found {
        None => {
            assert(line_root(line@) is None) by {
                reveal(line_root);
            }
            None
        },
        Some(at) => {
            let ghost m = root_marker();
            assert(contains(line@, m));
            assert(at == first_occurrence(line@, m));
            assert(at + marker@.len() <= line@.len());
            assert(line@.len() == line.len());
            let tail = suffix(line, at + marker.len());
            assert(tail@ == line@.subrange(first_occurrence(line@, m) + m.len(), line@.len() as int));
            let r = first_word_root(tail.as_slice());
            assert(r == line_root(line@)) by {
                reveal(line_root);
            }
            r
        },
    }
}

/// The identifier that the first word of `rest` holds, if any.
fn first_word_root(rest: &[char]) -> (r: Option<u64>)
    ensures
        r == root_in_words(rest@),
{
    let w = words_of(rest);
    if w.len() == 0 {
        return None;
    }
    assert(w@[0]@ == words(rest@)[0]);
    let core = trim_non_digits(w[0].as_slice());
    parse_digits(core.as_slice())
}

/// Inserts `x` into a vector ordered newest first.
pub fn insert_newest_first(v: &mut Vec<u64>, x: u64)
    requires
        newest_first(old(v)@),
    ensures
        newest_first(final(v)@),
        final(v)@.to_multiset() == old(v)@.to_multiset().insert(x),
{
    let mut i: usize = 0;
    while i < v.len() && v[i] >= x
        invariant
            i <= v@.len(),
            forall|j: int| 0 <= j < i ==> v@[j] >= x,
        decreases v@.len() - i,
    {
        i = i + 1;
    }
    let ghost before = v@;
    v.insert(i, x);
    proof {
        assert(v@.remove(i as int) =~= before);
        broadcast use vstd::seq_lib::group_to_multiset_ensures;
        assert(v@.to_multiset().count(x) > 0);
        assert(before.to_multiset() == v@.to_multiset().remove(x));
        assert(v@.to_multiset() =~= before.to_multiset().insert(x));
    }
}

/// The root identifiers that discovery output reports, newest first.
pub fn parse_roots(text: &[char]) -> (r: Vec<u64>)
    ensures
        newest_first(r@),
        r@.to_multiset() == found_roots(text@).to_multiset(),
{
    let marker: Vec<char> = vec!['W', 'e', 'l', 'l', ' ', 'b', 'l', 'o', 'c', 'k'];
    assert(marker@ =~= root_marker()) by {
        reveal(root_marker);
    }
    let lines = lines_of(text);
    let ghost ls = split_lines(text@);
    let mut out: Vec<u64> = Vec::new();
    let mut k: usize = 0;
    proof {
        assert(out@ =~= roots_in_lines(ls, 0));
    }
    while k < lines.len()
        invariant
            views(lines@) == ls,
            marker@ == root_marker(),
            k <= lines@.len(),
            newest_first(out@),
            out@.to_multiset() == roots_in_lines(ls, k as int).to_multiset(),
        decreases lines@.len() - k,
    {
        let line = lines[k].as_slice();
        assert(line@ == ls[k as int]);
        match root_of_line(line, marker.as_slice()) {
            Some(x) => {
                insert_newest_first(&mut out, x);
                proof {
                    assert(roots_in_lines(ls, k + 1) == roots_in_lines(ls, k as int).push(x));
                    roots_in_lines(ls, k as int).to_multiset_ensures();
                }
            },
            None => {
                assert(roots_in_lines(ls, k + 1) == roots_in_lines(ls, k as int));
            },
        }
        k = k + 1;
    }
    out
}

/// The order of the discovered roots is fixed by the identifiers alone: two
/// newest-first sequences that hold the same identifiers, as often each, are
/// equal.
pub proof fn lemma_newest_first_unique(a: Seq<u64>, b: Seq<u64>)
    requires
        newest_first(a),
        newest_first(b),
        a.to_multiset() == b.to_multiset(),
    ensures
        a == b,
    decreases a.len(),
{
    broadcast use vstd::seq_lib::group_to_multiset_ensures;

    assert(a.to_multiset().len() == a.len());
    assert(b.to_multiset().len() == b.len());
    if a.len() == 0 {
        assert(a =~= b);
    } else {
        assert(b.contains(b[0]));
        assert(b.to_multiset().count(b[0]) > 0);
        assert(a.to_multiset().count(b[0]) > 0);
        assert(a.contains(b[0]));
        assert(a.contains(a[0]));
        assert(a.to_multiset().count(a[0]) > 0);
        assert(b.to_multiset().count(a[0]) > 0);
        assert(b.contains(a[0]));
        let i = choose|i: int| 0 <= i < a.len() && a[i] == b[0];
        let j = choose|j: int| 0 <= j < b.len() && b[j] == a[0];
        assert(a[0] >= a[i]);
        assert(b[0] >= b[j]);
        assert(a[0] == b[0]);
        assert(a.remove(0) =~= a.drop_first());
        assert(b.remove(0) =~= b.drop_first());
        assert(a.drop_first().to_multiset() == a.to_multiset().remove(a[0]));
        assert(b.drop_first().to_multiset() == b.to_multiset().remove(b[0]));
        lemma_newest_first_unique(a.drop_first(), b.drop_first());
        assert(a =~= seq![a[0]] + a.drop_first());
        assert(b =~= seq![b[0]] + b.drop_first());
    }
}

/// The root identifiers that the raw output of root discovery reports,
/// newest first; invalid UTF-8 is replaced, never refused.
pub fn discover_roots(output: &[u8]) -> (r: Vec<u64>)
    ensures
        newest_first(r@),
        r@.to_multiset() == found_roots(lossy_chars(output@)).to_multiset(),
{
    let text = decode_lossy(output);
    parse_roots(text.as_slice())
}

} // verus!
