use vstd::prelude::*;
use vstd::string::StrSliceExecFns;
use crate::text::string_of;

verus! {

/// The path argument that selects every file.
pub open spec fn wildcard() -> Seq<char> {
    seq!['*']
}

/// The pattern that matches every absolute path.
pub open spec fn catch_all() -> Seq<char> {
    seq!['^', '/', '.', '*', '$']
}

/// `p` without its leading `/` characters.
pub open spec fn strip_slashes(p: Seq<char>) -> Seq<char>
    decreases p.len(),
{
    if p.len() > 0 && p[0] == '/' {
        strip_slashes(p.drop_first())
    } else {
        p
    }
}

/// The fragment that matches exactly the absolute path `p` names.
pub open spec fn anchored(p: Seq<char>) -> Seq<char> {
    seq!['^', '/'] + strip_slashes(p) + seq!['$']
}

/// The fragments joined by `|`.
pub open spec fn join_alternatives(frags: Seq<Seq<char>>) -> Seq<char>
    decreases frags.len(),
{
    if frags.len() == 0 {
        Seq::empty()
    } else if frags.len() == 1 {
        frags[0]
    } else {
        join_alternatives(frags.drop_last()) + seq!['|'] + frags.last()
    }
}

/// The anchored fragment of each path, in order.
pub open spec fn branches(paths: Seq<Seq<char>>) -> Seq<Seq<char>> {
    paths.map_values(|p: Seq<char>| anchored(p))
}

/// The pattern that selects the given paths.
pub open spec fn regex_for(paths: Seq<Seq<char>>) -> Seq<char> {
    if paths.len() == 1 && paths[0] == wildcard() {
        catch_all()
    } else {
        join_alternatives(branches(paths))
    }
}

/// The characters of `s`.
fn chars_of(s: &str) -> (r: Vec<char>)
    ensures
        r@ == s@,
{
    let n = s.unicode_len();
    let mut r: Vec<char> = Vec::new();
    let mut i: usize = 0;
    while i < n
        invariant
            n == s@.len(),
            i <= n,
            r@ == s@.subrange(0, i as int),
        decreases n - i,
    {
        r.push(s.get_char(i));
        assert(s@.subrange(0, i + 1) =~= s@.subrange(0, i as int).push(s@[i as int]));
        i = i + 1;
    }
    assert(s@.subrange(0, i as int) =~= s@);
    r
}

/// Appends the anchored fragment of `p` to `out`.
fn push_anchored(out: &mut Vec<char>, p: &str)
    ensures
        final(out)@ == old(out)@ + anchored(p@),
{
    let cs = chars_of(p);
    let mut i: usize = 0;
    assert(cs@.subrange(0, cs@.len() as int) =~= cs@);
    while i < cs.len() && cs[i] == '/'
        invariant
            i <= cs@.len(),
            strip_slashes(cs@) == strip_slashes(cs@.subrange(i as int, cs@.len() as int)),
        decreases cs@.len() - i,
    {
        assert(cs@.subrange(i as int, cs@.len() as int).drop_first() =~= cs@.subrange(i + 1, cs@.len() as int));
        i = i + 1;
    }
    let ghost start = out@;
    assert(strip_slashes(cs@) == cs@.subrange(i as int, cs@.len() as int));
    out.push('^');
    out.push('/');
    while i < cs.len()
        invariant
            i <= cs@.len(),
            out@ + cs@.subrange(i as int, cs@.len() as int) == start + seq!['^', '/'] + strip_slashes(cs@),
        decreases cs@.len() - i,
    {
        let ghost before = out@;
        out.push(cs[i]);
        assert(cs@.subrange(i as int, cs@.len() as int) =~= seq![cs@[i as int]] + cs@.subrange(i + 1, cs@.len() as int));
        assert(out@ + cs@.subrange(i + 1, cs@.len() as int) =~= before + cs@.subrange(i as int, cs@.len() as int));
        i = i + 1;
    }
    assert(out@ + cs@.subrange(i as int, cs@.len() as int) =~= out@);
    out.push('$');
    assert(out@ =~= start + anchored(p@));
}

/// Builds the single pattern that selects `paths`: the catch-all pattern for
/// the lone wildcard, otherwise each path anchored as `^/<path>$` with its
/// leading slashes removed, joined by `|`. Paths are not escaped: they are
/// taken as pattern fragments.
pub fn build_regex(paths: &[String]) -> (r: String)
    ensures
        r@ == regex_for(paths@.map_values(|s: String| s@)),
{
    let ghost ps = paths@.map_values(|s: String| s@);
    if paths.len() == 1 {
        let p = paths[0].as_str();
        if p.unicode_len() == 1 && p.get_char(0) == '*' {
            assert(ps[0] =~= wildcard());
            let all: Vec<char> = vec!['^', '/', '.', '*', '$'];
            assert(all@ =~= catch_all());
            return string_of(all.as_slice());
        }
        assert(ps[0] != wildcard()) by {
            if ps[0] == wildcard() {
                assert(ps[0][0] == '*');
            }
        }
    }
    let mut out: Vec<char> = Vec::new();
    let mut i: usize = 0;
    while i < paths.len()
        invariant
            i <= paths@.len(),
            ps == paths@.map_values(|s: String| s@),
            out@ == join_alternatives(branches(ps.subrange(0, i as int))),
        decreases paths@.len() - i,
    {
        let ghost before = out@;
        if i > 0 {
            out.push('|');
        }
        push_anchored(&mut out, paths[i].as_str());
        proof {
            let prev = ps.subrange(0, i as int);
            let next = ps.subrange(0, i + 1);
            assert(branches(next).drop_last() =~= branches(prev));
            assert(branches(next).last() == anchored(ps[i as int]));
            if i == 0 {
                assert(out@ =~= join_alternatives(branches(next)));
            } else {
                assert(out@ =~= join_alternatives(branches(next)));
            }
        }
        i = i + 1;
    }
    assert(ps.subrange(0, i as int) =~= ps);
    string_of(out.as_slice())
}

/// With anything but the lone wildcard, the pattern is an alternation of
/// one branch per path, in order, each anchored by `^/` and `$`.
pub proof fn lemma_one_branch_per_path(paths: Seq<Seq<char>>)
    requires
        !(paths.len() == 1 && paths[0] == wildcard()),
    ensures
        regex_for(paths) == join_alternatives(branches(paths)),
        branches(paths).len() == paths.len(),
        forall|i: int|
            0 <= i < paths.len() ==> {
                let b = #[trigger] branches(paths)[i];
                &&& b.len() >= 3
                &&& b.subrange(0, 2) == seq!['^', '/']
                &&& b.last() == '$'
                &&& b.subrange(2, b.len() - 1) == strip_slashes(paths[i])
            },
{
    assert forall|i: int| 0 <= i < paths.len() implies {
        let b = #[trigger] branches(paths)[i];
        &&& b.len() >= 3
        &&& b.subrange(0, 2) == seq!['^', '/']
        &&& b.last() == '$'
        &&& b.subrange(2, b.len() - 1) == strip_slashes(paths[i])
    } by {
        let b = branches(paths)[i];
        assert(b == anchored(paths[i]));
        assert(b.subrange(0, 2) =~= seq!['^', '/']);
        assert(b.subrange(2, b.len() - 1) =~= strip_slashes(paths[i]));
    }
}

/// The lone wildcard selects every file.
pub proof fn lemma_wildcard_selects_all()
    ensures
        regex_for(seq![wildcard()]) == catch_all(),
{
}

} // verus!
