//! Glob patterns with `*` wildcards, as used by `--include` and `--exclude`.

use vstd::prelude::*;

use crate::text::chars_of;

verus! {

/// The pieces of `p` between `*` characters, in order; a pattern without `*` is one piece.
pub open spec fn split_star(p: Seq<char>) -> Seq<Seq<char>>
    decreases p.len(),
{
    if p.len() == 0 {
        seq![Seq::<char>::empty()]
    } else {
        let s = split_star(p.drop_last());
        if p.last() == '*' {
            s.push(Seq::<char>::empty())
        } else {
            s.update(s.len() - 1, s.last().push(p.last()))
        }
    }
}

/// `seg` occurs in `t` starting at index `at`.
pub open spec fn occurs_at(t: Seq<char>, seg: Seq<char>, at: int) -> bool {
    0 <= at && at + seg.len() <= t.len() && t.subrange(at, at + seg.len()) == seg
}

/// `starts` places every piece of `segs` in `t`, in order and without overlap, the
/// first piece at the start of `t` and the last piece at its end.
pub open spec fn is_placement(segs: Seq<Seq<char>>, t: Seq<char>, starts: Seq<int>) -> bool {
    &&& segs.len() > 0
    &&& starts.len() == segs.len()
    &&& starts[0] == 0
    &&& forall|i: int| 0 <= i < segs.len() ==> occurs_at(t, #[trigger] segs[i], starts[i])
    &&& forall|i: int|
        0 <= i < segs.len() - 1 ==> #[trigger] starts[i] + segs[i].len() <= starts[i + 1]
    &&& starts[segs.len() - 1] + segs[segs.len() - 1].len() == t.len()
}

/// `t` matches the glob `p`: each `*` stands for any run of characters (possibly
/// empty) and every other character stands for itself.
pub open spec fn spec_glob_matches(p: Seq<char>, t: Seq<char>) -> bool {
    exists|starts: Seq<int>| is_placement(split_star(p), t, starts)
}

proof fn lemma_split_star_nonempty(p: Seq<char>)
    ensures
        split_star(p).len() >= 1,
    decreases p.len(),
{
    if p.len() > 0 {
        lemma_split_star_nonempty(p.drop_last());
    }
}

/// Splits `p` at every `*`.
fn split_pattern(p: &Vec<char>) -> (segs: Vec<Vec<char>>)
    ensures
        segs@.len() == split_star(p@).len(),
        forall|i: int| 0 <= i < segs@.len() ==> (#[trigger] segs@[i])@ == split_star(p@)[i],
{
    let mut segs: Vec<Vec<char>> = Vec::new();
    let mut cur: Vec<char> = Vec::new();
    let mut i: usize = 0;
    while i < p.len()
        invariant
            i <= p@.len(),
            segs@.len() + 1 == split_star(p@.subrange(0, i as int)).len(),
            forall|j: int|
                0 <= j < segs@.len() ==> (#[trigger] segs@[j])@ == split_star(
                    p@.subrange(0, i as int),
                )[j],
            cur@ == split_star(p@.subrange(0, i as int)).last(),
        decreases p@.len() - i,
    {
        let ghost old_pre = p@.subrange(0, i as int);
        let ghost new_pre = p@.subrange(0, i as int + 1);
        assert(new_pre.drop_last() =~= old_pre);
        let c = p[i];
        if c == '*' {
            segs.push(cur);
            cur = Vec::new();
        } else {
            cur.push(c);
        }
        i = i + 1;
        proof {
            lemma_split_star_nonempty(old_pre);
        }
    }
    assert(p@.subrange(0, p@.len() as int) =~= p@);
    segs.push(cur);
    segs
}

/// Whether `seg` occurs in `t` at index `at`.
fn occurs(t: &Vec<char>, seg: &Vec<char>, at: usize) -> (b: bool)
    ensures
        b == occurs_at(t@, seg@, at as int),
{
    let tl = t.len();
    if at > tl || seg.len() > tl - at {
        return false;
    }
    let mut k: usize = 0;
    while k < seg.len()
        invariant
            tl == t@.len(),
            at + seg@.len() <= t@.len(),
            k <= seg@.len(),
            forall|j: int| 0 <= j < k ==> t@[at + j] == seg@[j],
        decreases seg@.len() - k,
    {
        if t[at + k] != seg[k] {
            assert(t@.subrange(at as int, at + seg@.len())[k as int] != seg@[k as int]);
            return false;
        }
        k = k + 1;
    }
    assert(t@.subrange(at as int, at + seg@.len()) =~= seg@);
    true
}

/// The leftmost occurrence of `seg` in `t` at or after `from`.
fn find_from(t: &Vec<char>, seg: &Vec<char>, from: usize) -> (r: Option<usize>)
    requires
        from <= t@.len(),
    ensures
        r matches Some(o) ==> o >= from && occurs_at(t@, seg@, o as int) && forall|j: int|
            from <= j < o ==> !occurs_at(t@, seg@, j),
        r is None ==> forall|j: int| from <= j ==> !occurs_at(t@, seg@, j),
{
    let tl = t.len();
    let mut j: usize = from;
    loop
        invariant
            tl == t@.len(),
            from <= j <= tl,
            forall|k: int| from <= k < j ==> !occurs_at(t@, seg@, k),
        decreases tl - j,
    {
        if occurs(t, seg, j) {
            return Some(j);
        }
        if j == tl {
            assert forall|k: int| from <= k implies !occurs_at(t@, seg@, k) by {
                if k > tl {
                    assert(!occurs_at(t@, seg@, k));
                }
            }
            return None;
        }
        j = j + 1;
    }
}

/// Returns true if `text` matches a glob `pattern` containing `*` wildcards.
///
/// Each `*` matches zero or more characters; every other character matches itself,
/// case-sensitively. `"org.junit:*"` matches any artifact starting with `"org.junit:"`,
/// `"*:core"` any artifact ending with `":core"`, and `"*"` everything.
pub fn glob_matches(pattern: &str, text: &str) -> (b: bool)
    ensures
        b == spec_glob_matches(pattern@, text@),
{
    let p = chars_of(pattern);
    let t = chars_of(text);
    let segments = split_pattern(&p);
    let ghost segs = split_star(pattern@);
    let n = segments.len();
    let tl = t.len();
    proof {
        lemma_split_star_nonempty(pattern@);
    }
    if n == 1 {
        let b = crate::text::str_eq(pattern, text);
        proof {
            if b {
                let starts = seq![0int];
                assert(segs[0] == pattern@) by {
                    assert(split_star(pattern@).len() == 1);
                    lemma_single_segment(pattern@);
                }
                assert(text@.subrange(0, segs[0].len() as int) =~= segs[0]);
                assert(is_placement(segs, text@, starts));
            } else {
                lemma_single_segment(pattern@);
                assert forall|starts: Seq<int>| !is_placement(segs, text@, starts) by {
                    if is_placement(segs, text@, starts) {
                        assert(occurs_at(text@, segs[0], starts[0]));
                        assert(text@.subrange(0, text@.len() as int) =~= text@);
                    }
                }
            }
        }
        return b;
    }
    let mut pos: usize = 0;
    let ghost mut starts: Seq<int> = Seq::empty();
    let mut i: usize = 0;
    loop
        invariant
            tl == t@.len(),
            n == segments@.len(),
            n == segs.len(),
            n >= 2,
            segs == split_star(pattern@),
            forall|k: int| 0 <= k < n ==> (#[trigger] segments@[k])@ == segs[k],
            t@ == text@,
            i < n,
            pos <= t@.len(),
            starts.len() == i,
            i > 0 ==> starts[0] == 0,
            forall|k: int| 0 <= k < i ==> occurs_at(t@, #[trigger] segs[k], starts[k]),
            forall|k: int| 0 <= k < i - 1 ==> #[trigger] starts[k] + segs[k].len() <= starts[k + 1],
            i > 0 ==> starts[i - 1] + segs[i - 1].len() == pos,
            i == 0 ==> pos == 0,
            forall|w: Seq<int>|
                #[trigger] is_placement(segs, t@, w) && i > 0 ==> pos <= w[i - 1] + segs[i
                    - 1].len(),
        decreases n - i,
    {
        let segment = &segments[i];
        let ghost old_starts = starts;
        let ghost old_pos = pos;
        if segment.len() == 0 {
            if i == n - 1 {
                proof {
                    starts = starts.push(t@.len() as int);
                    assert(t@.subrange(t@.len() as int, t@.len() as int) =~= segs[i as int]);
                    assert(is_placement(segs, text@, starts));
                }
                return true;
            }
            proof {
                starts = starts.push(pos as int);
                assert(t@.subrange(pos as int, pos as int) =~= segs[i as int]);
                if i > 0 {
                    lemma_placement_monotone(segs, t@, i as int);
                }
            }
            i = i + 1;
            continue;
        }
        if i == 0 {
            if !occurs(&t, segment, 0) {
                proof {
                    assert forall|w: Seq<int>| !is_placement(segs, t@, w) by {
                        if is_placement(segs, t@, w) {
                            assert(occurs_at(t@, segs[0], w[0]));
                        }
                    }
                }
                return false;
            }
            pos = segment.len();
            proof {
                starts = starts.push(0int);
            }
        } else if i == n - 1 {
            let len = segment.len();
            if len > tl - pos || !occurs(&t, segment, t.len() - len) {
                proof {
                    assert forall|w: Seq<int>| !is_placement(segs, t@, w) by {
                        if is_placement(segs, t@, w) {
                            lemma_placement_monotone(segs, t@, i as int);
                            assert(occurs_at(t@, segs[i as int], w[i as int]));
                        }
                    }
                }
                return false;
            }
            proof {
                starts = starts.push(t@.len() - len);
                assert(is_placement(segs, text@, starts));
            }
            return true;
        } else {
            match find_from(&t, segment, pos) {
                Some(offset) => {
                    pos = offset + segment.len();
                    proof {
                        starts = starts.push(offset as int);
                        assert forall|w: Seq<int>| #[trigger] is_placement(segs, t@, w) implies pos
                            <= w[i as int] + segs[i as int].len() by {
                            lemma_placement_monotone(segs, t@, i as int);
                            assert(occurs_at(t@, segs[i as int], w[i as int]));
                        }
                    }
                },
                None => {
                    proof {
                        assert forall|w: Seq<int>| !is_placement(segs, t@, w) by {
                            if is_placement(segs, t@, w) {
                                lemma_placement_monotone(segs, t@, i as int);
                                assert(occurs_at(t@, segs[i as int], w[i as int]));
                            }
                        }
                    }
                    return false;
                },
            }
        }
        i = i + 1;
    }
}

/// In any placement, piece `i` starts no earlier than piece `i - 1` ends.
proof fn lemma_placement_monotone(segs: Seq<Seq<char>>, t: Seq<char>, i: int)
    requires
        0 < i < segs.len(),
    ensures
        forall|w: Seq<int>| #[trigger]
            is_placement(segs, t, w) ==> w[i - 1] + segs[i - 1].len() <= w[i],
{
    assert forall|w: Seq<int>| #[trigger] is_placement(segs, t, w) implies w[i - 1] + segs[i
        - 1].len() <= w[i] by {
        assert(w[i - 1] + segs[i - 1].len() <= w[(i - 1) + 1]);
    }
}

/// A pattern that splits into one piece has no `*` and that piece is the pattern itself.
proof fn lemma_single_segment(p: Seq<char>)
    requires
        split_star(p).len() == 1,
    ensures
        split_star(p)[0] == p,
    decreases p.len(),
{
    if p.len() > 0 {
        let q = p.drop_last();
        lemma_split_star_nonempty(q);
        if p.last() == '*' {
            assert(false);
        } else {
            lemma_single_segment(q);
            assert(q.push(p.last()) =~= p);
        }
    }
}

/// A pattern without `*` splits into itself alone.
proof fn lemma_split_star_free(p: Seq<char>)
    requires
        !p.contains('*'),
    ensures
        split_star(p) == seq![p],
    decreases p.len(),
{
    if p.len() > 0 {
        let q = p.drop_last();
        assert(!q.contains('*')) by {
            if q.contains('*') {
                let i = choose|i: int| 0 <= i < q.len() && q[i] == '*';
                assert(p[i] == '*');
            }
        }
        lemma_split_star_free(q);
        assert(p[p.len() - 1] == p.last());
        assert(q.push(p.last()) =~= p);
        assert(split_star(p) =~= seq![p]);
    } else {
        assert(p =~= Seq::<char>::empty());
    }
}

/// The pattern `*` matches every text.
pub proof fn lemma_star_matches_everything(t: Seq<char>)
    ensures
        spec_glob_matches(seq!['*'], t),
{
    let p = seq!['*'];
    assert(p.drop_last() =~= Seq::<char>::empty());
    assert(split_star(Seq::<char>::empty()) =~= seq![Seq::<char>::empty()]);
    assert(p.last() == '*');
    assert(split_star(p) =~= seq![Seq::<char>::empty(), Seq::<char>::empty()]);
    let starts = seq![0int, t.len() as int];
    assert(t.subrange(0, 0) =~= Seq::<char>::empty());
    assert(t.subrange(t.len() as int, t.len() as int) =~= Seq::<char>::empty());
    assert(is_placement(split_star(p), t, starts));
}

/// A pattern without `*` matches exactly the text equal to it.
pub proof fn lemma_literal_pattern_matches_only_itself(p: Seq<char>, t: Seq<char>)
    requires
        !p.contains('*'),
    ensures
        spec_glob_matches(p, t) <==> p == t,
{
    lemma_split_star_free(p);
    if p == t {
        let starts = seq![0int];
        assert(t.subrange(0, t.len() as int) =~= t);
        assert(is_placement(split_star(p), t, starts));
    }
    if spec_glob_matches(p, t) {
        let starts = choose|starts: Seq<int>| is_placement(split_star(p), t, starts);
        assert(occurs_at(t, split_star(p)[0], starts[0]));
        assert(t.subrange(0, t.len() as int) =~= t);
    }
}

/// A pattern `q*` with `q` free of `*` matches exactly the texts that start with `q`.
pub proof fn lemma_trailing_star_matches_prefix(q: Seq<char>, t: Seq<char>)
    requires
        !q.contains('*'),
    ensures
        spec_glob_matches(q.push('*'), t) <==> (q.len() <= t.len() && t.subrange(0, q.len() as int) == q),
{
    let p = q.push('*');
    lemma_split_star_free(q);
    assert(p.drop_last() =~= q);
    assert(p.last() == '*');
    assert(split_star(p) =~= seq![q, Seq::<char>::empty()]);
    if q.len() <= t.len() && t.subrange(0, q.len() as int) == q {
        let starts = seq![0int, t.len() as int];
        assert(t.subrange(t.len() as int, t.len() as int) =~= Seq::<char>::empty());
        assert(is_placement(split_star(p), t, starts));
    }
    if spec_glob_matches(p, t) {
        let starts = choose|starts: Seq<int>| is_placement(split_star(p), t, starts);
        assert(occurs_at(t, split_star(p)[0], starts[0]));
        assert(starts[0] + split_star(p)[0].len() <= starts[1]);
    }
}

/// `*` followed by a `*`-free piece splits into an empty piece and that piece.
proof fn lemma_split_leading_star(q: Seq<char>)
    requires
        !q.contains('*'),
    ensures
        split_star(seq!['*'] + q) == seq![Seq::<char>::empty(), q],
    decreases q.len(),
{
    let p = seq!['*'] + q;
    if q.len() == 0 {
        assert(p =~= seq!['*']);
        assert(q =~= Seq::<char>::empty());
        assert(p.drop_last() =~= Seq::<char>::empty());
        assert(p.last() == '*');
        assert(split_star(Seq::<char>::empty()) =~= seq![Seq::<char>::empty()]);
        assert(split_star(p) =~= seq![Seq::<char>::empty(), q]);
    } else {
        let r = q.drop_last();
        assert(!r.contains('*')) by {
            if r.contains('*') {
                let i = choose|i: int| 0 <= i < r.len() && r[i] == '*';
                assert(q[i] == '*');
            }
        }
        lemma_split_leading_star(r);
        assert(p.drop_last() =~= seq!['*'] + r);
        assert(p.last() == q.last());
        assert(q[q.len() - 1] == q.last());
        assert(q.last() != '*');
        assert(split_star(p.drop_last()) == seq![Seq::<char>::empty(), r]);
        assert(r.push(q.last()) =~= q);
        assert(split_star(p) =~= seq![Seq::<char>::empty(), q]);
    }
}

/// A pattern `*q` with `q` free of `*` matches exactly the texts that end with `q`.
pub proof fn lemma_leading_star_matches_suffix(q: Seq<char>, t: Seq<char>)
    requires
        !q.contains('*'),
    ensures
        spec_glob_matches(seq!['*'] + q, t) <==> (q.len() <= t.len() && t.subrange(t.len() - q.len(), t.len() as int) == q),
{
    let p = seq!['*'] + q;
    lemma_split_leading_star(q);
    if q.len() <= t.len() && t.subrange(t.len() - q.len(), t.len() as int) == q {
        let starts = seq![0int, t.len() - q.len()];
        assert(t.subrange(0, 0) =~= Seq::<char>::empty());
        assert(is_placement(split_star(p), t, starts));
    }
    if spec_glob_matches(p, t) {
        let starts = choose|starts: Seq<int>| is_placement(split_star(p), t, starts);
        assert(occurs_at(t, split_star(p)[1], starts[1]));
    }
}

} // verus!
