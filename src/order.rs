use vstd::prelude::*;

verus! {

/// Lexicographic order on character sequences, by code point: the order of
/// `String`'s `<`.
pub open spec fn lex_lt(a: Seq<char>, b: Seq<char>) -> bool
    decreases a.len(),
{
    if a.len() == 0 {
        b.len() > 0
    } else if b.len() == 0 {
        false
    } else if a[0] != b[0] {
        a[0] < b[0]
    } else {
        lex_lt(a.drop_first(), b.drop_first())
    }
}

/// Every element comes strictly before the next ones.
pub open spec fn strictly_sorted(s: Seq<Seq<char>>) -> bool {
    forall|i: int, j: int| 0 <= i < j < s.len() ==> lex_lt(s[i], s[j])
}

pub proof fn lemma_lex_irreflexive(a: Seq<char>)
    ensures
        !lex_lt(a, a),
    decreases a.len(),
{
    if a.len() > 0 {
        lemma_lex_irreflexive(a.drop_first());
    }
}

pub proof fn lemma_lex_transitive(a: Seq<char>, b: Seq<char>, c: Seq<char>)
    requires
        lex_lt(a, b),
        lex_lt(b, c),
    ensures
        lex_lt(a, c),
    decreases a.len(),
{
    if a.len() > 0 && b.len() > 0 && c.len() > 0 {
        if a[0] == b[0] && b[0] == c[0] {
            lemma_lex_transitive(a.drop_first(), b.drop_first(), c.drop_first());
        }
    }
}

pub proof fn lemma_lex_total(a: Seq<char>, b: Seq<char>)
    ensures
        lex_lt(a, b) || lex_lt(b, a) || a == b,
    decreases a.len(),
{
    if a.len() > 0 && b.len() > 0 {
        if a[0] == b[0] {
            lemma_lex_total(a.drop_first(), b.drop_first());
            if a.drop_first() == b.drop_first() {
                assert(a =~= seq![a[0]] + a.drop_first());
                assert(b =~= seq![b[0]] + b.drop_first());
            }
        }
    } else if a.len() == 0 && b.len() == 0 {
        assert(a =~= b);
    }
}

/// Two strictly sorted sequences with the same elements are equal.
pub proof fn lemma_strictly_sorted_unique(a: Seq<Seq<char>>, b: Seq<Seq<char>>)
    requires
        strictly_sorted(a),
        strictly_sorted(b),
        a.to_set() == b.to_set(),
    ensures
        a == b,
    decreases a.len(),
{
    if a.len() == 0 {
        if b.len() > 0 {
            assert(b.to_set().contains(b[0]));
        }
        assert(a =~= b);
    } else if b.len() == 0 {
        assert(a.to_set().contains(a[0]));
    } else {
        // The least elements agree.
        assert(a.to_set().contains(a[0]));
        assert(b.to_set().contains(b[0]));
        let j = choose|j: int| 0 <= j < b.len() && b[j] == a[0];
        let i = choose|i: int| 0 <= i < a.len() && a[i] == b[0];
        if j > 0 {
            lemma_lex_irreflexive(a[0]);
            if i > 0 {
                lemma_lex_transitive(a[0], a[i], b[j]);
            } else {
            }
        }
        assert(a[0] == b[0]) by {
            if j > 0 {
                if i == 0 {
                    lemma_lex_irreflexive(b[0]);
                } else {
                    lemma_lex_transitive(a[0], a[i], a[0]);
                }
            }
        }
        let a1 = a.drop_first();
        let b1 = b.drop_first();
        assert(a1.to_set() =~= b1.to_set()) by {
            assert forall|x: Seq<char>| a1.to_set().contains(x) implies b1.to_set().contains(x) by {
                let k = choose|k: int| 0 <= k < a1.len() && a1[k] == x;
                assert(a.to_set().contains(x));
                let l = choose|l: int| 0 <= l < b.len() && b[l] == x;
                assert(lex_lt(a[0], a[k + 1]));
                if l == 0 {
                    lemma_lex_irreflexive(x);
                }
                assert(b1[l - 1] == x);
            }
            assert forall|x: Seq<char>| b1.to_set().contains(x) implies a1.to_set().contains(x) by {
                let k = choose|k: int| 0 <= k < b1.len() && b1[k] == x;
                assert(b.to_set().contains(x));
                let l = choose|l: int| 0 <= l < a.len() && a[l] == x;
                assert(lex_lt(b[0], b[k + 1]));
                if l == 0 {
                    lemma_lex_irreflexive(x);
                }
                assert(a1[l - 1] == x);
            }
        }
        lemma_strictly_sorted_unique(a1, b1);
        assert(a =~= seq![a[0]] + a1);
        assert(b =~= seq![b[0]] + b1);
    }
}

/// Compares two character sequences lexicographically.
pub fn lex_less(a: &[char], b: &[char]) -> (r: bool)
    ensures
        r == lex_lt(a@, b@),
{
    let mut i: usize = 0;
    assert(a@.subrange(0, a@.len() as int) =~= a@);
    assert(b@.subrange(0, b@.len() as int) =~= b@);
    while i < a.len() && i < b.len()
        invariant
            i <= a@.len(),
            i <= b@.len(),
            lex_lt(a@, b@) == lex_lt(a@.subrange(i as int, a@.len() as int), b@.subrange(i as int, b@.len() as int)),
        decreases a@.len() - i,
    {
        let ghost sa = a@.subrange(i as int, a@.len() as int);
        let ghost sb = b@.subrange(i as int, b@.len() as int);
        assert(sa[0] == a@[i as int] && sb[0] == b@[i as int]);
        if a[i] != b[i] {
            return a[i] < b[i];
        }
        assert(sa.drop_first() =~= a@.subrange(i + 1, a@.len() as int));
        assert(sb.drop_first() =~= b@.subrange(i + 1, b@.len() as int));
        i = i + 1;
    }
    i < b.len()
}

/// Inserts `x` into a strictly sorted vector, unless it is already there.
pub fn insert_sorted_unique(v: &mut Vec<Vec<char>>, x: Vec<char>)
    requires
        strictly_sorted(crate::text::views(old(v)@)),
    ensures
        strictly_sorted(crate::text::views(final(v)@)),
        crate::text::views(final(v)@).to_set() == crate::text::views(old(v)@).to_set().insert(x@),
{
    let ghost vs = crate::text::views(v@);
    let mut i: usize = 0;
    while i < v.len() && lex_less(v[i].as_slice(), x.as_slice())
        invariant
            v@ == old(v)@,
            vs == crate::text::views(v@),
            i <= v@.len(),
            forall|j: int| 0 <= j < i ==> lex_lt(#[trigger] vs[j], x@),
        decreases v@.len() - i,
    {
        i = i + 1;
    }
    if i < v.len() && !lex_less(x.as_slice(), v[i].as_slice()) {
        proof {
            lemma_lex_total(vs[i as int], x@);
            assert(vs.to_set().contains(vs[i as int]));
            assert(vs.to_set().insert(x@) =~= vs.to_set());
        }
        return;
    }
    proof {
        if i < v@.len() {
            lemma_lex_total(vs[i as int], x@);
        }
    }
    v.insert(i, x);
    proof {
        let ns = crate::text::views(v@);
        assert(ns =~= vs.insert(i as int, x@));
        assert forall|a: int, b: int| 0 <= a < b < ns.len() implies lex_lt(ns[a], ns[b]) by {
            if b < i {
            } else if b == i {
            } else if a < i {
                if b - 1 > i {
                    lemma_lex_transitive(x@, vs[i as int], vs[b - 1]);
                }
                lemma_lex_transitive(vs[a], x@, vs[b - 1]);
            } else if a == i {
                if b - 1 > i {
                    lemma_lex_transitive(x@, vs[i as int], vs[b - 1]);
                }
            } else {
            }
        }
        assert forall|y: Seq<char>| ns.to_set().contains(y) <==> vs.to_set().insert(x@).contains(y) by {
            if ns.to_set().contains(y) {
                let k = choose|k: int| 0 <= k < ns.len() && ns[k] == y;
                if k < i {
                    assert(vs[k] == y);
                } else if k > i {
                    assert(vs[k - 1] == y);
                }
            }
            if vs.to_set().contains(y) {
                let k = choose|k: int| 0 <= k < vs.len() && vs[k] == y;
                if k < i {
                    assert(ns[k] == y);
                } else {
                    assert(ns[k + 1] == y);
                }
            }
            if y == x@ {
                assert(ns[i as int] == y);
            }
        }
        assert(ns.to_set() =~= vs.to_set().insert(x@));
    }
}

} // verus!
