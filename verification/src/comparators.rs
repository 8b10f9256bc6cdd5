//! The topic matcher: a symmetric predicate over two dot-delimited topic
//! strings, with `*` matching exactly one segment and `#` absorbing the rest
//! of the path on both sides.

use vstd::prelude::*;
use vstd::slice::{slice_subrange, slice_to_vec};
use vstd::string::StrSliceExecFns;

verus! {

/// The segment that absorbs the rest of the path on both sides.
pub open spec fn seg_hash() -> Seq<char> {
    seq!['#']
}

/// The segment that matches any single segment.
pub open spec fn seg_star() -> Seq<char> {
    seq!['*']
}

/// The segments of a topic string: the pieces between the dots, in order.
/// The empty string has one empty segment, as `split` gives.
pub open spec fn split_topic(s: Seq<char>) -> Seq<Seq<char>>
    decreases s.len(),
{
    if s.len() == 0 {
        seq![Seq::<char>::empty()]
    } else if s[0] == '.' {
        seq![Seq::<char>::empty()] + split_topic(s.drop_first())
    } else {
        let rest = split_topic(s.drop_first());
        seq![seq![s[0]] + rest[0]] + rest.drop_first()
    }
}

/// The lock-step walk over two segment sequences, from index `i` on: a `#`
/// segment on either side succeeds at once, a `*` segment matches any single
/// segment, other segments must be equal, and when the shorter sequence is
/// exhausted the walk succeeds exactly when the lengths agree.
pub open spec fn walk_from(a: Seq<Seq<char>>, b: Seq<Seq<char>>, i: int) -> bool
    recommends
        0 <= i,
    decreases a.len() - i,
{
    if i >= a.len() || i >= b.len() {
        a.len() == b.len()
    } else if a[i] == seg_hash() || b[i] == seg_hash() {
        true
    } else if a[i] == seg_star() || b[i] == seg_star() {
        walk_from(a, b, i + 1)
    } else if a[i] == b[i] {
        walk_from(a, b, i + 1)
    } else {
        false
    }
}

/// Whether two topic strings match: a whole string equal to `#` matches
/// anything; otherwise both are split on dots and walked in lock-step.
pub open spec fn topics_match(a: Seq<char>, b: Seq<char>) -> bool {
    if a == seg_hash() || b == seg_hash() {
        true
    } else {
        walk_from(split_topic(a), split_topic(b), 0)
    }
}

/// The walk treats its two sides interchangeably.
proof fn lemma_walk_symmetric(a: Seq<Seq<char>>, b: Seq<Seq<char>>, i: int)
    requires
        0 <= i,
    ensures
        walk_from(a, b, i) == walk_from(b, a, i),
    decreases a.len() - i,
{
    if i >= a.len() || i >= b.len() {
    } else if a[i] == seg_hash() || b[i] == seg_hash() {
    } else if a[i] == seg_star() || b[i] == seg_star() {
        lemma_walk_symmetric(a, b, i + 1);
    } else if a[i] == b[i] {
        lemma_walk_symmetric(a, b, i + 1);
    }
}

/// The matcher is symmetric: the two topic strings play the same role.
pub proof fn lemma_topics_match_symmetric(a: Seq<char>, b: Seq<char>)
    ensures
        topics_match(a, b) == topics_match(b, a),
{
    lemma_walk_symmetric(split_topic(a), split_topic(b), 0);
}

/// A whole-string `#` matches any topic.
pub proof fn lemma_hash_matches_all(t: Seq<char>)
    ensures
        topics_match(seg_hash(), t),
{
}

/// A `*` segment matches any single segment: the pattern `a.*.c` matches
/// `a.<x>.c` for every dot-free middle piece `x`.
pub proof fn lemma_star_matches_single_segment(x: Seq<char>)
    requires
        forall|k: int| 0 <= k < x.len() ==> x[k] != '.',
    ensures
        topics_match(seq!['a', '.', '*', '.', 'c'], seq!['a', '.'] + x + seq!['.', 'c']),
{
    let p = seq!['a', '.', '*', '.', 'c'];
    let t = seq!['a', '.'] + x + seq!['.', 'c'];
    assert(t.len() == x.len() + 4);
    lemma_split_at_dot(p, 1);
    assert(p.subrange(2, 5) =~= seq!['*', '.', 'c']);
    lemma_split_at_dot(seq!['*', '.', 'c'], 1);
    assert(seq!['*', '.', 'c'].subrange(2, 3) =~= seq!['c']);
    lemma_split_no_dot(seq!['c']);
    assert(p.subrange(0, 1) =~= seq!['a']);
    assert(seq!['*', '.', 'c'].subrange(0, 1) =~= seg_star());
    let sp = seq![seq!['a'], seg_star(), seq!['c']];
    assert(split_topic(p) =~~= sp);
    assert(t[1] == '.');
    lemma_split_at_dot(t, 1);
    assert(t.subrange(0, 1) =~= seq!['a']);
    let u = x + seq!['.', 'c'];
    assert(t.subrange(2, t.len() as int) =~= u);
    assert(u[x.len() as int] == '.');
    lemma_split_at_dot(u, x.len() as int);
    assert(u.subrange(0, x.len() as int) =~= x);
    assert(u.subrange(x.len() as int + 1, u.len() as int) =~= seq!['c']);
    lemma_split_no_dot(seq!['c']);
    let st = seq![seq!['a'], x, seq!['c']];
    assert(split_topic(t) =~~= st);
    assert(seq!['a'][0] == 'a' && seg_hash()[0] == '#' && seg_star()[0] == '*' && seq!['c'][0]
        == 'c');
    assert(walk_from(sp, st, 3));
    assert(walk_from(sp, st, 2));
    assert(walk_from(sp, st, 1));
    assert(walk_from(sp, st, 0));
}

/// A string without dots is its own single segment.
proof fn lemma_split_no_dot(s: Seq<char>)
    requires
        forall|k: int| 0 <= k < s.len() ==> s[k] != '.',
    ensures
        split_topic(s) == seq![s],
    decreases s.len(),
{
    if s.len() == 0 {
        assert(split_topic(s) =~~= seq![s]);
    } else {
        lemma_split_no_dot(s.drop_first());
        assert(seq![s[0]] + s.drop_first() =~= s);
        assert(split_topic(s) =~~= seq![s]);
    }
}

/// Splitting at the first dot: the piece before it is the first segment,
/// and the rest of the string is split on its own.
proof fn lemma_split_at_dot(s: Seq<char>, j: int)
    requires
        0 <= j < s.len(),
        s[j] == '.',
        forall|k: int| 0 <= k < j ==> s[k] != '.',
    ensures
        split_topic(s) == seq![s.subrange(0, j)] + split_topic(
            s.subrange(j + 1, s.len() as int),
        ),
    decreases j,
{
    if j == 0 {
        assert(s.subrange(1, s.len() as int) =~= s.drop_first());
        assert(s.subrange(0, 0) =~= Seq::<char>::empty());
        assert(split_topic(s) =~~= seq![s.subrange(0, 0)] + split_topic(
            s.subrange(1, s.len() as int),
        ));
    } else {
        let d = s.drop_first();
        assert(d[j - 1] == '.');
        lemma_split_at_dot(d, j - 1);
        let rest = split_topic(d);
        assert(rest[0] == d.subrange(0, j - 1));
        assert(rest.drop_first() =~~= split_topic(d.subrange(j, d.len() as int)));
        assert(seq![s[0]] + d.subrange(0, j - 1) =~= s.subrange(0, j));
        assert(d.subrange(j, d.len() as int) =~= s.subrange(j + 1, s.len() as int));
        assert(split_topic(s) =~~= seq![s.subrange(0, j)] + split_topic(
            s.subrange(j + 1, s.len() as int),
        ));
    }
}

/// The characters of a string, in order.
fn chars_of(s: &str) -> (v: Vec<char>)
    ensures
        v@ == s@,
{
    let n: usize = s.unicode_len();
    let mut v: Vec<char> = Vec::new();
    let mut i: usize = 0;
    while i < n
        invariant
            n == s@.len(),
            i <= n,
            v@ == s@.subrange(0, i as int),
        decreases n - i,
    {
        v.push(s.get_char(i));
        proof {
            assert(s@.subrange(0, i as int).push(s@[i as int]) =~= s@.subrange(0, i + 1));
        }
        i = i + 1;
    }
    proof {
        assert(s@.subrange(0, n as int) =~= s@);
    }
    v
}

/// Whether the characters are exactly the one given.
fn is_single(v: &Vec<char>, c: char) -> (r: bool)
    ensures
        r == (v@ == seq![c]),
{
    let r: bool = v.len() == 1 && v[0] == c;
    proof {
        if r {
            assert(v@ =~= seq![c]);
        }
        if v@ == seq![c] {
            assert(v@.len() == 1 && v@[0] == c);
        }
    }
    r
}

/// Whether two character vectors hold the same characters.
fn eq_chars(x: &Vec<char>, y: &Vec<char>) -> (r: bool)
    ensures
        r == (x@ == y@),
{
    if x.len() != y.len() {
        return false;
    }
    let n: usize = x.len();
    let mut i: usize = 0;
    while i < n
        invariant
            n == x@.len() == y@.len(),
            i <= n,
            forall|k: int| 0 <= k < i ==> x@[k] == y@[k],
        decreases n - i,
    {
        if x[i] != y[i] {
            return false;
        }
        i = i + 1;
    }
    proof {
        assert(x@ =~= y@);
    }
    true
}

/// The segments of the characters, split on dots.
fn split_segments(v: &Vec<char>) -> (segs: Vec<Vec<char>>)
    ensures
        segs.deep_view() == split_topic(v@),
{
    let n: usize = v.len();
    let mut segs: Vec<Vec<char>> = Vec::new();
    let mut start: usize = 0;
    let mut i: usize = 0;
    proof {
        assert(v@.subrange(0, n as int) =~= v@);
        assert(segs.deep_view() =~~= Seq::<Seq<char>>::empty());
    }
    while i < n
        invariant
            n == v@.len(),
            start <= i <= n,
            forall|k: int| start <= k < i ==> v@[k] != '.',
            split_topic(v@) =~~= segs.deep_view() + split_topic(
                v@.subrange(start as int, n as int),
            ),
        decreases n - i,
    {
        if v[i] == '.' {
            let seg: Vec<char> = slice_to_vec(slice_subrange(v.as_slice(), start, i));
            let ghost before = segs.deep_view();
            segs.push(seg);
            proof {
                let suffix = v@.subrange(start as int, n as int);
                lemma_split_at_dot(suffix, i - start);
                assert(suffix.subrange(0, i - start) =~= v@.subrange(start as int, i as int));
                assert(suffix.subrange(i - start + 1, suffix.len() as int) =~= v@.subrange(
                    i + 1,
                    n as int,
                ));
                assert(segs.deep_view() =~~= before + seq![seg@]);
                assert(split_topic(v@) =~~= segs.deep_view() + split_topic(
                    v@.subrange(i + 1, n as int),
                ));
            }
            start = i + 1;
        }
        i = i + 1;
    }
    let seg: Vec<char> = slice_to_vec(slice_subrange(v.as_slice(), start, n));
    let ghost before = segs.deep_view();
    segs.push(seg);
    proof {
        lemma_split_no_dot(v@.subrange(start as int, n as int));
        assert(segs.deep_view() =~~= before + seq![seg@]);
        assert(segs.deep_view() =~~= split_topic(v@));
    }
    segs
}

/// Whether the two topic strings match: true when either whole string is
/// `#`; otherwise both are split on dots and compared segment by segment,
/// where `#` on either side succeeds at once, `*` matches any one segment,
/// other segments must be equal, and sequences of unequal length with no
/// absorbing wildcard fail.
pub fn compare(a: &str, b: &str) -> (r: bool)
    ensures
        r == topics_match(a@, b@),
{
    let av: Vec<char> = chars_of(a);
    let bv: Vec<char> = chars_of(b);
    if is_single(&av, '#') || is_single(&bv, '#') {
        return true;
    }
    let asegs: Vec<Vec<char>> = split_segments(&av);
    let bsegs: Vec<Vec<char>> = split_segments(&bv);
    let ghost sa = asegs.deep_view();
    let ghost sb = bsegs.deep_view();
    let an: usize = asegs.len();
    let bn: usize = bsegs.len();
    let count: usize = if an < bn {
        an
    } else {
        bn
    };
    let def: bool = an == bn;
    let mut i: usize = 0;
    while i < count
        invariant
            sa == asegs.deep_view(),
            sb == bsegs.deep_view(),
            topics_match(a@, b@) == walk_from(sa, sb, 0),
            an == sa.len() == asegs@.len(),
            bn == sb.len() == bsegs@.len(),
            count <= an,
            count <= bn,
            count == an || count == bn,
            i <= count,
            walk_from(sa, sb, 0) == walk_from(sa, sb, i as int),
        decreases count - i,
    {
        let first: &Vec<char> = &asegs[i];
        let second: &Vec<char> = &bsegs[i];
        proof {
            assert(first@ =~= sa[i as int]);
            assert(second@ =~= sb[i as int]);
        }
        if is_single(first, '#') || is_single(second, '#') {
            return true;
        }
        if is_single(first, '*') || is_single(second, '*') {
            i = i + 1;
        } else if eq_chars(first, second) {
            i = i + 1;
        } else {
            return false;
        }
    }
    proof {
        assert(walk_from(sa, sb, count as int) == (an == bn));
    }
    def
}

} // verus!
