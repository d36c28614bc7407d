//! Version strings: parsing, pre-release detection and ordering.
//!
//! A version is a release part followed by a qualifier. The release part is the
//! longest prefix made of ASCII digits and dots, split at the dots into numeric
//! components (an empty component counts as zero, so `3.1.0.Final` has the
//! components `3`, `1`, `0` and an empty one, and the qualifier `Final`). The
//! qualifier is the rest, without one leading `-`, `.`, `_` or `+`. A string
//! that does not start with a digit is no version.
//!
//! A version is a pre-release where its qualifier, in ASCII lower case,
//! contains `alpha`, `beta`, `rc`, `milestone`, `preview` or `snapshot`, or
//! starts with `m` and a digit (`M1`).
//!
//! Versions are ordered by their components, compared as numbers with missing
//! components counting as zero; then a release above a pre-release; then by
//! their qualifiers, in code point order.

use vstd::prelude::*;

verus! {

/// An ASCII digit.
pub open spec fn is_digit(c: char) -> bool {
    '0' <= c && c <= '9'
}

/// The length of the release part of `s` from position `i` on.
pub open spec fn release_end(s: Seq<char>, i: int) -> int
    decreases s.len() - i,
{
    if i < 0 || i >= s.len() || !(is_digit(s[i]) || s[i] == '.') {
        i
    } else {
        release_end(s, i + 1)
    }
}

/// The dot-separated components of a release part.
pub open spec fn components(r: Seq<char>) -> Seq<Seq<char>>
    decreases r.len(),
{
    if r.len() == 0 {
        seq![Seq::empty()]
    } else if r.last() == '.' {
        components(r.drop_last()).push(Seq::empty())
    } else {
        let c = components(r.drop_last());
        c.update(c.len() - 1, c.last().push(r.last()))
    }
}

proof fn lemma_components_nonempty(r: Seq<char>)
    ensures
        components(r).len() > 0,
    decreases r.len(),
{
    if r.len() > 0 {
        lemma_components_nonempty(r.drop_last());
    }
}

/// The qualifier: what follows the release part, without one leading separator.
pub open spec fn qualifier(s: Seq<char>) -> Seq<char> {
    let q = s.subrange(release_end(s, 0), s.len() as int);
    if q.len() > 0 && (q[0] == '-' || q[0] == '.' || q[0] == '_' || q[0] == '+') {
        q.drop_first()
    } else {
        q
    }
}

/// `s` is a version: it starts with a digit.
pub open spec fn parses(s: Seq<char>) -> bool {
    s.len() > 0 && is_digit(s[0])
}

/// The components of version `s`.
pub open spec fn version_components(s: Seq<char>) -> Seq<Seq<char>> {
    components(s.subrange(0, release_end(s, 0)))
}

/// `c` in ASCII lower case.
pub open spec fn ascii_lower(c: char) -> char {
    if 'A' <= c && c <= 'Z' {
        ((c as u32) + 32) as char
    } else {
        c
    }
}

/// `s` in ASCII lower case.
pub open spec fn lower(s: Seq<char>) -> Seq<char> {
    s.map_values(|c: char| ascii_lower(c))
}

/// `t` occurs in `s`.
pub open spec fn contains_seq(s: Seq<char>, t: Seq<char>) -> bool {
    exists|i: int| 0 <= i && i + t.len() <= s.len() && #[trigger] s.subrange(i, i + t.len()) == t
}

/// A qualifier that marks a pre-release.
pub open spec fn is_pre_release_qualifier(q: Seq<char>) -> bool {
    let l = lower(q);
    contains_seq(l, "alpha"@) || contains_seq(l, "beta"@) || contains_seq(l, "rc"@) || contains_seq(
        l,
        "milestone"@,
    ) || contains_seq(l, "preview"@) || contains_seq(l, "snapshot"@) || (l.len() >= 2 && l[0] == 'm'
        && is_digit(l[1]))
}

/// `s` is a version with a pre-release qualifier.
pub open spec fn spec_is_pre_release(s: Seq<char>) -> bool {
    parses(s) && is_pre_release_qualifier(qualifier(s))
}

/// A digit string without its leading zeros.
pub open spec fn strip_zeros(d: Seq<char>) -> Seq<char>
    decreases d.len(),
{
    if d.len() > 0 && d[0] == '0' {
        strip_zeros(d.drop_first())
    } else {
        d
    }
}

/// Three-way comparison of two sequences in code point order.
pub open spec fn order_seq(a: Seq<char>, b: Seq<char>) -> int
    decreases a.len(),
{
    if a.len() == 0 {
        if b.len() == 0 { 0 } else { -1 }
    } else if b.len() == 0 {
        1
    } else if (a[0] as u32) < (b[0] as u32) {
        -1
    } else if (a[0] as u32) > (b[0] as u32) {
        1
    } else {
        order_seq(a.drop_first(), b.drop_first())
    }
}

/// Three-way comparison of two digit strings as numbers.
pub open spec fn order_number(a: Seq<char>, b: Seq<char>) -> int {
    let x = strip_zeros(a);
    let y = strip_zeros(b);
    if x.len() < y.len() {
        -1
    } else if x.len() > y.len() {
        1
    } else {
        order_seq(x, y)
    }
}

/// Component `i` of `c`, or zero past its end.
pub open spec fn component_at(c: Seq<Seq<char>>, i: int) -> Seq<char> {
    if 0 <= i < c.len() {
        c[i]
    } else {
        Seq::empty()
    }
}

/// Three-way comparison of component lists from position `i` on.
pub open spec fn order_components(a: Seq<Seq<char>>, b: Seq<Seq<char>>, i: int) -> int
    decreases (if a.len() > b.len() { a.len() } else { b.len() }) - i,
{
    if i < 0 || (i >= a.len() && i >= b.len()) {
        0
    } else {
        let c = order_number(component_at(a, i), component_at(b, i));
        if c != 0 {
            c
        } else {
            order_components(a, b, i + 1)
        }
    }
}

/// Three-way comparison of two versions.
pub open spec fn order_versions(a: Seq<char>, b: Seq<char>) -> int {
    let c = order_components(version_components(a), version_components(b), 0);
    if c != 0 {
        c
    } else if spec_is_pre_release(a) != spec_is_pre_release(b) {
        if spec_is_pre_release(a) { -1 } else { 1 }
    } else {
        order_seq(qualifier(a), qualifier(b))
    }
}

/// `latest` is a newer version than `current`.
pub open spec fn spec_is_newer(current: Seq<char>, latest: Seq<char>) -> bool {
    parses(current) && parses(latest) && order_versions(latest, current) > 0
}

/// The greatest version of the list, the first of equals; `None` where no
/// entry is a version.
pub open spec fn spec_find_latest(vs: Seq<Seq<char>>) -> Option<Seq<char>>
    decreases vs.len(),
{
    if vs.len() == 0 {
        None
    } else {
        let v = vs.last();
        match spec_find_latest(vs.drop_last()) {
            None => if parses(v) { Some(v) } else { None },
            Some(b) => if parses(v) && order_versions(v, b) > 0 { Some(v) } else { Some(b) },
        }
    }
}

// ---------------------------------------------------------------------------
// Executable counterparts
// ---------------------------------------------------------------------------

fn is_digit_exec(c: char) -> (b: bool)
    ensures
        b == is_digit(c),
{
    '0' <= c && c <= '9'
}

/// The release part's length, components and qualifier of `s`.
fn split_version(s: &Vec<char>) -> (r: (usize, Vec<Vec<char>>, Vec<char>))
    ensures
        r.0 == release_end(s@, 0),
        r.1@.map_values(|c: Vec<char>| c@) == components(s@.subrange(0, r.0 as int)),
        r.2@ == qualifier(s@),
{
    let n = s.len();
    let mut i: usize = 0;
    let mut done: Vec<Vec<char>> = Vec::new();
    let mut cur: Vec<char> = Vec::new();
    assert(s@.subrange(0, 0) =~= Seq::<char>::empty());
    assert(done@.map_values(|c: Vec<char>| c@).push(cur@) =~= components(s@.subrange(0, 0)));
    while i < n && (is_digit_exec(s[i]) || s[i] == '.')
        invariant
            n == s@.len(),
            i <= n,
            release_end(s@, 0) == release_end(s@, i as int),
            done@.map_values(|c: Vec<char>| c@).push(cur@) == components(s@.subrange(0, i as int)),
        decreases n - i,
    {
        let ghost prev = done@.map_values(|c: Vec<char>| c@).push(cur@);
        let ghost t = s@.subrange(0, i as int + 1);
        assert(t.drop_last() =~= s@.subrange(0, i as int));
        if s[i] == '.' {
            let finished = cur;
            done.push(finished);
            cur = Vec::new();
            assert(done@.map_values(|c: Vec<char>| c@).push(cur@) =~= prev.push(Seq::empty()));
        } else {
            let ghost old_cur = cur@;
            cur.push(s[i]);
            assert(done@.map_values(|c: Vec<char>| c@).push(cur@) =~= prev.update(
                prev.len() - 1,
                old_cur.push(s@[i as int]),
            ));
        }
        i = i + 1;
    }
    done.push(cur);
    let mut q: Vec<char> = Vec::new();
    let mut j: usize = i;
    if j < n && (s[j] == '-' || s[j] == '.' || s[j] == '_' || s[j] == '+') {
        j = j + 1;
    }
    let start = j;
    while j < n
        invariant
            n == s@.len(),
            start <= j <= n,
            q@ == s@.subrange(start as int, j as int),
        decreases n - j,
    {
        q.push(s[j]);
        j = j + 1;
        assert(q@ =~= s@.subrange(start as int, j as int));
    }
    proof {
        let rest = s@.subrange(i as int, n as int);
        if start > i {
            assert(rest.drop_first() =~= s@.subrange(start as int, n as int));
        } else {
            assert(rest =~= s@.subrange(start as int, n as int));
        }
    }
    (i, done, q)
}

fn lower_exec(s: &Vec<char>) -> (r: Vec<char>)
    ensures
        r@ == lower(s@),
{
    let mut r: Vec<char> = Vec::new();
    let mut i: usize = 0;
    while i < s.len()
        invariant
            i <= s@.len(),
            r@ == lower(s@.subrange(0, i as int)),
        decreases s@.len() - i,
    {
        let c = s[i];
        let l = if 'A' <= c && c <= 'Z' {
            let u: u32 = c as u32;
            let b: u8 = (u as u8) + 32;
            b as char
        } else {
            c
        };
        r.push(l);
        i = i + 1;
        assert(r@ =~= lower(s@.subrange(0, i as int)));
    }
    assert(s@.subrange(0, s@.len() as int) =~= s@);
    r
}

pub(crate) fn contains_chars(s: &Vec<char>, t: &str) -> (b: bool)
    ensures
        b == contains_seq(s@, t@),
{
    let tv = crate::text::chars_of(t);
    let n = s.len();
    let m = tv.len();
    if m > n {
        assert forall|i: int| 0 <= i && i + t@.len() <= s@.len() implies #[trigger] s@.subrange(i, i + t@.len()) != t@ by {}
        return false;
    }
    let mut i: usize = 0;
    while i <= n - m
        invariant
            n == s@.len(),
            m == tv@.len(),
            tv@ == t@,
            m <= n,
            i <= n - m + 1,
            forall|k: int| 0 <= k < i ==> #[trigger] s@.subrange(k, k + m) != t@,
        decreases n - i,
    {
        let mut j: usize = 0;
        let mut ok = true;
        while j < m
            invariant
                n == s@.len(),
                m == tv@.len(),
                i + m <= n,
                j <= m,
                ok == (forall|k: int| 0 <= k < j ==> s@[i + k] == tv@[k]),
            decreases m - j,
        {
            if s[i + j] != tv[j] {
                ok = false;
            }
            j = j + 1;
        }
        if ok {
            assert(s@.subrange(i as int, i + m) =~= t@);
            return true;
        }
        assert(s@.subrange(i as int, i + m)[0] == s@[i as int]);
        proof {
            let k0 = choose|k: int| 0 <= k < m && s@[i + k] != tv@[k];
            assert(s@.subrange(i as int, i + m)[k0] == s@[i + k0]);
        }
        i = i + 1;
    }
    assert forall|k: int| 0 <= k && k + t@.len() <= s@.len() implies #[trigger] s@.subrange(k, k + t@.len()) != t@ by {
        assert(k < i);
    }
    false
}

fn is_pre_release_qualifier_exec(q: &Vec<char>) -> (b: bool)
    ensures
        b == is_pre_release_qualifier(q@),
{
    let l = lower_exec(q);
    contains_chars(&l, "alpha") || contains_chars(&l, "beta") || contains_chars(&l, "rc") || contains_chars(
        &l,
        "milestone",
    ) || contains_chars(&l, "preview") || contains_chars(&l, "snapshot") || (l.len() >= 2 && l[0] == 'm'
        && is_digit_exec(l[1]))
}

/// Whether `v` is a version with a pre-release qualifier.
pub fn is_pre_release(v: &str) -> (b: bool)
    ensures
        b == spec_is_pre_release(v@),
{
    let s = crate::text::chars_of(v);
    if s.len() == 0 || !is_digit_exec(s[0]) {
        return false;
    }
    let (_, _, q) = split_version(&s);
    is_pre_release_qualifier_exec(&q)
}

fn strip_zeros_exec(d: &Vec<char>) -> (r: Vec<char>)
    ensures
        r@ == strip_zeros(d@),
{
    let n = d.len();
    let mut i: usize = 0;
    assert(d@.subrange(0, n as int) =~= d@);
    while i < n && d[i] == '0'
        invariant
            n == d@.len(),
            i <= n,
            strip_zeros(d@) == strip_zeros(d@.subrange(i as int, n as int)),
        decreases n - i,
    {
        assert(d@.subrange(i as int, n as int).drop_first() =~= d@.subrange(i + 1, n as int));
        i = i + 1;
    }
    let mut r: Vec<char> = Vec::new();
    let mut j: usize = i;
    while j < n
        invariant
            n == d@.len(),
            i <= j <= n,
            r@ == d@.subrange(i as int, j as int),
        decreases n - j,
    {
        r.push(d[j]);
        j = j + 1;
        assert(r@ =~= d@.subrange(i as int, j as int));
    }
    r
}

fn order_seq_exec(a: &Vec<char>, b: &Vec<char>) -> (c: i8)
    ensures
        c as int == order_seq(a@, b@),
{
    let mut i: usize = 0;
    assert(a@.skip(0) =~= a@);
    assert(b@.skip(0) =~= b@);
    while i < a.len() && i < b.len()
        invariant
            i <= a@.len(),
            i <= b@.len(),
            order_seq(a@, b@) == order_seq(a@.skip(i as int), b@.skip(i as int)),
        decreases a@.len() - i,
    {
        assert(a@.skip(i as int)[0] == a@[i as int]);
        assert(b@.skip(i as int)[0] == b@[i as int]);
        if (a[i] as u32) < (b[i] as u32) {
            return -1;
        }
        if (a[i] as u32) > (b[i] as u32) {
            return 1;
        }
        assert(a@.skip(i as int).drop_first() =~= a@.skip(i as int + 1));
        assert(b@.skip(i as int).drop_first() =~= b@.skip(i as int + 1));
        i = i + 1;
    }
    if i == a.len() && i == b.len() {
        0
    } else if i == a.len() {
        -1
    } else {
        1
    }
}

fn order_number_exec(a: &Vec<char>, b: &Vec<char>) -> (c: i8)
    ensures
        c as int == order_number(a@, b@),
{
    let x = strip_zeros_exec(a);
    let y = strip_zeros_exec(b);
    if x.len() < y.len() {
        -1
    } else if x.len() > y.len() {
        1
    } else {
        order_seq_exec(&x, &y)
    }
}

fn order_components_exec(a: &Vec<Vec<char>>, b: &Vec<Vec<char>>) -> (c: i8)
    ensures
        c as int == order_components(
            a@.map_values(|x: Vec<char>| x@),
            b@.map_values(|x: Vec<char>| x@),
            0,
        ),
{
    let ghost av = a@.map_values(|x: Vec<char>| x@);
    let ghost bv = b@.map_values(|x: Vec<char>| x@);
    let empty: Vec<char> = Vec::new();
    let mut i: usize = 0;
    while i < a.len() || i < b.len()
        invariant
            av == a@.map_values(|x: Vec<char>| x@),
            bv == b@.map_values(|x: Vec<char>| x@),
            empty@ == Seq::<char>::empty(),
            order_components(av, bv, 0) == order_components(av, bv, i as int),
        decreases (if a@.len() > b@.len() { a@.len() } else { b@.len() }) - i,
    {
        let x = if i < a.len() { &a[i] } else { &empty };
        let y = if i < b.len() { &b[i] } else { &empty };
        assert(x@ == component_at(av, i as int));
        assert(y@ == component_at(bv, i as int));
        let c = order_number_exec(x, y);
        if c != 0 {
            return c;
        }
        i = i + 1;
    }
    0
}

fn order_versions_exec(a: &Vec<char>, b: &Vec<char>) -> (c: i8)
    requires
        parses(a@),
        parses(b@),
    ensures
        c as int == order_versions(a@, b@),
{
    let (_, ca, qa) = split_version(a);
    let (_, cb, qb) = split_version(b);
    let c = order_components_exec(&ca, &cb);
    if c != 0 {
        return c;
    }
    let pa = is_pre_release_qualifier_exec(&qa);
    let pb = is_pre_release_qualifier_exec(&qb);
    if pa != pb {
        if pa {
            -1
        } else {
            1
        }
    } else {
        order_seq_exec(&qa, &qb)
    }
}

fn parses_exec(s: &Vec<char>) -> (b: bool)
    ensures
        b == parses(s@),
{
    s.len() > 0 && is_digit_exec(s[0])
}

/// Whether `latest` is a newer version than `current`; `false` where either is
/// no version.
pub fn is_newer(current: &str, latest: &str) -> (b: bool)
    ensures
        b == spec_is_newer(current@, latest@),
{
    let c = crate::text::chars_of(current);
    let l = crate::text::chars_of(latest);
    if !parses_exec(&c) || !parses_exec(&l) {
        return false;
    }
    order_versions_exec(&l, &c) > 0
}

/// The greatest version of the list (the first of equal ones), or `None` where
/// no entry is a version.
pub fn find_latest(versions: &Vec<String>) -> (r: Option<String>)
    ensures
        crate::pom::opt_view(r) == spec_find_latest(crate::pom::strings_view(versions@)),
{
    let ghost vs = crate::pom::strings_view(versions@);
    let mut best: Option<Vec<char>> = None;
    let mut best_idx: usize = 0;
    let mut i: usize = 0;
    assert(vs.subrange(0, 0) =~= Seq::<Seq<char>>::empty());
    while i < versions.len()
        invariant
            vs == crate::pom::strings_view(versions@),
            i <= vs.len(),
            match best {
                Some(b) => best_idx < i && spec_find_latest(vs.subrange(0, i as int)) == Some(b@) && b@ == vs[best_idx as int] && parses(b@),
                None => spec_find_latest(vs.subrange(0, i as int)) is None,
            },
        decreases vs.len() - i,
    {
        let v = crate::text::chars_of(versions[i].as_str());
        assert(vs.subrange(0, i as int + 1).drop_last() =~= vs.subrange(0, i as int));
        assert(vs.subrange(0, i as int + 1).last() == v@);
        if parses_exec(&v) {
            let better = match &best {
                None => true,
                Some(b) => order_versions_exec(&v, b) > 0,
            };
            if better {
                best = Some(v);
                best_idx = i;
            }
        }
        i = i + 1;
    }
    assert(vs.subrange(0, vs.len() as int) =~= vs);
    match best {
        Some(_) => Some(versions[best_idx].clone()),
        None => None,
    }
}

} // verus!

verus! {

// ---------------------------------------------------------------------------
// The version order is a total preorder
// ---------------------------------------------------------------------------

proof fn lemma_order_seq_antisym(a: Seq<char>, b: Seq<char>)
    ensures
        order_seq(a, b) == -order_seq(b, a),
    decreases a.len(),
{
    if a.len() > 0 && b.len() > 0 && (a[0] as u32) == (b[0] as u32) {
        lemma_order_seq_antisym(a.drop_first(), b.drop_first());
    }
}

proof fn lemma_order_seq_trans(a: Seq<char>, b: Seq<char>, c: Seq<char>)
    requires
        order_seq(a, b) <= 0,
        order_seq(b, c) <= 0,
    ensures
        order_seq(a, c) <= 0,
    decreases a.len(),
{
    if a.len() > 0 && b.len() > 0 && c.len() > 0 && (a[0] as u32) == (b[0] as u32) && (b[0] as u32) == (
    c[0] as u32) {
        lemma_order_seq_trans(a.drop_first(), b.drop_first(), c.drop_first());
    }
}

proof fn lemma_order_number_antisym(a: Seq<char>, b: Seq<char>)
    ensures
        order_number(a, b) == -order_number(b, a),
{
    lemma_order_seq_antisym(strip_zeros(a), strip_zeros(b));
}

proof fn lemma_order_number_trans(a: Seq<char>, b: Seq<char>, c: Seq<char>)
    requires
        order_number(a, b) <= 0,
        order_number(b, c) <= 0,
    ensures
        order_number(a, c) <= 0,
{
    let (x, y, z) = (strip_zeros(a), strip_zeros(b), strip_zeros(c));
    if x.len() == y.len() && y.len() == z.len() {
        lemma_order_seq_trans(x, y, z);
    }
}

/// Past the end of both `a` and `b`, comparing either with `c` gives the same.
proof fn lemma_order_components_tail(a: Seq<Seq<char>>, b: Seq<Seq<char>>, c: Seq<Seq<char>>, i: int)
    requires
        i >= 0,
        i >= a.len(),
        i >= b.len(),
    ensures
        order_components(a, c, i) == order_components(b, c, i),
        order_components(c, a, i) == order_components(c, b, i),
    decreases c.len() - i,
{
    if i < c.len() {
        lemma_order_components_tail(a, b, c, i + 1);
    }
}

proof fn lemma_order_components_antisym(a: Seq<Seq<char>>, b: Seq<Seq<char>>, i: int)
    ensures
        order_components(a, b, i) == -order_components(b, a, i),
    decreases (if a.len() > b.len() { a.len() } else { b.len() }) - i,
{
    if !(i < 0 || (i >= a.len() && i >= b.len())) {
        lemma_order_number_antisym(component_at(a, i), component_at(b, i));
        lemma_order_components_antisym(a, b, i + 1);
    }
}

proof fn lemma_order_components_trans(a: Seq<Seq<char>>, b: Seq<Seq<char>>, c: Seq<Seq<char>>, i: int)
    requires
        order_components(a, b, i) <= 0,
        order_components(b, c, i) <= 0,
    ensures
        order_components(a, c, i) <= 0,
    decreases (if a.len() > b.len() { if a.len() > c.len() { a.len() } else { c.len() } } else { if b.len()
        > c.len() { b.len() } else { c.len() } }) - i,
{
    if i < 0 || (i >= a.len() && i >= c.len()) {
    } else if i >= a.len() && i >= b.len() {
        lemma_order_components_tail(a, b, c, i);
    } else if i >= b.len() && i >= c.len() {
        lemma_order_components_tail(b, c, a, i);
    } else {
        let (x, y, z) = (component_at(a, i), component_at(b, i), component_at(c, i));
        lemma_order_number_antisym(x, y);
        lemma_order_number_antisym(y, z);
        lemma_order_number_antisym(x, z);
        lemma_order_number_trans(x, y, z);
        if order_number(x, y) == 0 && order_number(y, z) == 0 {
            lemma_order_number_trans(z, y, x);
            lemma_order_components_trans(a, b, c, i + 1);
        } else if order_number(x, z) == 0 {
            // Then x and z are equivalent, so one of the two steps is strict in
            // both directions, which is impossible.
            if order_number(x, y) < 0 {
                lemma_order_number_trans(y, z, x);
            } else {
                lemma_order_number_trans(z, x, y);
            }
        }
    }
}

/// Comparing two versions one way gives the opposite of comparing them the other way.
pub proof fn lemma_order_versions_antisym(a: Seq<char>, b: Seq<char>)
    ensures
        order_versions(a, b) == -order_versions(b, a),
{
    lemma_order_components_antisym(version_components(a), version_components(b), 0);
    lemma_order_seq_antisym(qualifier(a), qualifier(b));
}

/// The version order is transitive: `a` no greater than `b` and `b` no greater
/// than `c` make `a` no greater than `c`.
pub proof fn lemma_order_versions_trans(a: Seq<char>, b: Seq<char>, c: Seq<char>)
    requires
        order_versions(a, b) <= 0,
        order_versions(b, c) <= 0,
    ensures
        order_versions(a, c) <= 0,
{
    let (ca, cb, cc) = (version_components(a), version_components(b), version_components(c));
    lemma_order_components_antisym(ca, cb, 0);
    lemma_order_components_antisym(cb, cc, 0);
    lemma_order_components_antisym(ca, cc, 0);
    lemma_order_components_trans(ca, cb, cc, 0);
    if order_components(ca, cc, 0) == 0 {
        if order_components(ca, cb, 0) < 0 {
            lemma_order_components_trans(cb, cc, ca, 0);
        }
        if order_components(cb, cc, 0) < 0 {
            lemma_order_components_trans(cc, ca, cb, 0);
        }
        if order_seq(qualifier(a), qualifier(b)) <= 0 && order_seq(qualifier(b), qualifier(c)) <= 0 {
            lemma_order_seq_trans(qualifier(a), qualifier(b), qualifier(c));
        }
    }
}

/// No version is newer than itself.
pub proof fn lemma_newer_irreflexive(v: Seq<char>)
    ensures
        !spec_is_newer(v, v),
{
    lemma_order_versions_antisym(v, v);
}

/// Of two versions, at most one is newer than the other.
pub proof fn lemma_newer_asymmetric(a: Seq<char>, b: Seq<char>)
    ensures
        spec_is_newer(a, b) ==> !spec_is_newer(b, a),
{
    lemma_order_versions_antisym(a, b);
}

/// Being newer is transitive: `b` newer than `a` and `c` newer than `b` make `c`
/// newer than `a`.
pub proof fn lemma_newer_transitive(a: Seq<char>, b: Seq<char>, c: Seq<char>)
    requires
        spec_is_newer(a, b),
        spec_is_newer(b, c),
    ensures
        spec_is_newer(a, c),
{
    lemma_order_versions_antisym(a, b);
    lemma_order_versions_antisym(b, c);
    lemma_order_versions_antisym(a, c);
    lemma_order_versions_trans(a, b, c);
    if order_versions(a, c) == 0 {
        lemma_order_versions_trans(c, a, b);
    }
}

/// The latest version of a list is one of its entries, a version, and no entry
/// is newer than it; where the list holds no version there is none.
pub proof fn lemma_find_latest_is_newest(vs: Seq<Seq<char>>)
    ensures
        match spec_find_latest(vs) {
            Some(l) => vs.contains(l) && parses(l) && forall|i: int| 0 <= i < vs.len() ==> !spec_is_newer(l, #[trigger] vs[i]),
            None => forall|i: int| 0 <= i < vs.len() ==> !parses(#[trigger] vs[i]),
        },
    decreases vs.len(),
{
    if vs.len() > 0 {
        let pre = vs.drop_last();
        let v = vs.last();
        lemma_find_latest_is_newest(pre);
        assert forall|i: int| 0 <= i < pre.len() implies #[trigger] vs[i] == pre[i] by {}
        match spec_find_latest(pre) {
            None => {
                if parses(v) {
                    assert(vs[vs.len() - 1] == v);
                    assert forall|i: int| 0 <= i < vs.len() implies !spec_is_newer(v, #[trigger] vs[i]) by {
                        if i < pre.len() {
                            assert(!parses(pre[i]));
                        } else {
                            lemma_newer_irreflexive(v);
                        }
                    }
                } else {
                    assert forall|i: int| 0 <= i < vs.len() implies !parses(#[trigger] vs[i]) by {
                        if i < pre.len() {
                            assert(!parses(pre[i]));
                        }
                    }
                }
            },
            Some(b) => {
                let j = choose|j: int| 0 <= j < pre.len() && pre[j] == b;
                assert(vs[j] == b);
                if parses(v) && order_versions(v, b) > 0 {
                    assert(vs[vs.len() - 1] == v);
                    assert forall|i: int| 0 <= i < vs.len() implies !spec_is_newer(v, #[trigger] vs[i]) by {
                        if i < pre.len() {
                            assert(!spec_is_newer(b, pre[i]));
                            lemma_order_versions_antisym(v, b);
                            if parses(pre[i]) {
                                lemma_order_versions_trans(pre[i], b, v);
                            }
                        } else {
                            lemma_newer_irreflexive(v);
                        }
                    }
                } else {
                    assert forall|i: int| 0 <= i < vs.len() implies !spec_is_newer(b, #[trigger] vs[i]) by {
                        if i < pre.len() {
                            assert(!spec_is_newer(b, pre[i]));
                        }
                    }
                }
            },
        }
    }
}

/// A release is newer than any pre-release with the same numeric components:
/// `2.0.0` is newer than `2.0.0-RC1`, `1.4` than `1.4-beta2`.
pub proof fn lemma_release_newer_than_its_pre_release(release: Seq<char>, pre: Seq<char>)
    requires
        parses(release),
        !spec_is_pre_release(release),
        spec_is_pre_release(pre),
        version_components(release) == version_components(pre),
    ensures
        spec_is_newer(pre, release),
        !spec_is_newer(release, pre),
{
    let c = version_components(release);
    lemma_order_components_antisym(c, c, 0);
    lemma_newer_asymmetric(pre, release);
}

/// The latest version of a list is never a pre-release whose release, with the
/// same numeric components, is in the list too.
pub proof fn lemma_latest_is_no_superseded_pre_release(vs: Seq<Seq<char>>, release: Seq<char>)
    requires
        vs.contains(release),
        parses(release),
        !spec_is_pre_release(release),
    ensures
        match spec_find_latest(vs) {
            Some(l) => !(spec_is_pre_release(l) && version_components(l) == version_components(release)),
            None => false,
        },
{
    lemma_find_latest_is_newest(vs);
    let k = choose|k: int| 0 <= k < vs.len() && vs[k] == release;
    match spec_find_latest(vs) {
        Some(l) => {
            if spec_is_pre_release(l) && version_components(l) == version_components(release) {
                lemma_release_newer_than_its_pre_release(release, l);
                assert(!spec_is_newer(l, vs[k]));
            }
        },
        None => {
            assert(!parses(vs[k]));
        },
    }
}

} // verus!
