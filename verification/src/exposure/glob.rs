//! Path globs: `*` stands for any run of characters within one segment, a segment
//! `**` for any run of whole segments.

use vstd::prelude::*;

use crate::text;

verus! {

broadcast use vstd::string::group_string_axioms;

/// Whether `t` is an instance of `p`, where `*` stands for any run of characters.
pub open spec fn wild(p: Seq<char>, t: Seq<char>) -> bool
    decreases p.len() + t.len(),
{
    if p.len() == 0 {
        t.len() == 0
    } else if p[0] == '*' {
        wild(p.skip(1), t) || (t.len() > 0 && wild(p, t.skip(1)))
    } else {
        t.len() > 0 && p[0] == t[0] && wild(p.skip(1), t.skip(1))
    }
}

/// The segment that stands for any run of segments.
pub open spec fn double_star() -> Seq<char> {
    seq!['*', '*']
}

/// Whether the segments `segs` are an instance of the pattern segments `pats`.
pub open spec fn segments_match(pats: Seq<Seq<char>>, segs: Seq<Seq<char>>) -> bool
    decreases pats.len() + segs.len(),
{
    if pats.len() == 0 {
        segs.len() == 0
    } else if pats[0] == double_star() {
        segments_match(pats.skip(1), segs) || (segs.len() > 0 && segments_match(pats, segs.skip(1)))
    } else {
        segs.len() > 0 && wild(pats[0], segs[0]) && segments_match(pats.skip(1), segs.skip(1))
    }
}

/// Whether `path` is an instance of the glob `pattern`.
pub open spec fn glob(pattern: Seq<char>, path: Seq<char>) -> bool {
    segments_match(text::split_on(pattern, '/'), text::split_on(path, '/'))
}

/// How many of the first `n` segments are `**`.
pub open spec fn double_stars_upto(segs: Seq<Seq<char>>, n: nat) -> nat
    decreases n,
{
    if n == 0 {
        0
    } else {
        double_stars_upto(segs, (n - 1) as nat) + if segs[n - 1] == double_star() {
            1nat
        } else {
            0
        }
    }
}

/// How many segments of `pattern` are `**`.
pub open spec fn double_stars(pattern: Seq<char>) -> nat {
    let segs = text::split_on(pattern, '/');
    double_stars_upto(segs, segs.len())
}

/// A star put before a pattern.
pub open spec fn starred(p: Seq<char>) -> Seq<char> {
    seq!['*'] + p
}

/// No `*` in the first `k` characters of `p`.
pub open spec fn plain_upto(p: Seq<char>, k: int) -> bool {
    forall|j: int| 0 <= j < k ==> #[trigger] p[j] != '*'
}

/// `c` occurs in `r` at position `f`.
pub open spec fn occurs(c: Seq<char>, r: Seq<char>, f: int) -> bool {
    0 <= f && f + c.len() <= r.len() && r.subrange(f, f + c.len()) == c
}

// ---------------------------------------------------------------------------
// Facts about the matcher
// ---------------------------------------------------------------------------

/// The characters before the first star match themselves.
proof fn lemma_plain_prefix(p: Seq<char>, t: Seq<char>, k: int)
    requires
        0 <= k <= p.len(),
        plain_upto(p, k),
    ensures
        wild(p, t) == (k <= t.len() && t.take(k) == p.take(k) && wild(p.skip(k), t.skip(k))),
    decreases k,
{
    if k == 0 {
        assert(p.skip(0) == p && t.skip(0) == t);
        assert(t.take(0) == p.take(0));
    } else {
        assert(p[0] != '*');
        if t.len() > 0 {
            let p1 = p.skip(1);
            let t1 = t.skip(1);
            assert(plain_upto(p1, k - 1)) by {
                assert forall|j: int| 0 <= j < k - 1 implies #[trigger] p1[j] != '*' by {
                    assert(p1[j] == p[j + 1]);
                }
            }
            lemma_plain_prefix(p1, t1, k - 1);
            assert(p1.skip(k - 1) == p.skip(k));
            if k <= t.len() {
                assert(t1.skip(k - 1) == t.skip(k));
                if p[0] == t[0] && t1.take(k - 1) == p1.take(k - 1) {
                    assert forall|j: int| 0 <= j < k implies #[trigger] t.take(k)[j] == p.take(k)[j] by {
                        if j > 0 {
                            assert(t1.take(k - 1)[j - 1] == t[j]);
                            assert(p1.take(k - 1)[j - 1] == p[j]);
                        }
                    }
                    assert(t.take(k) =~= p.take(k));
                }
                if t.take(k) == p.take(k) {
                    assert(t.take(k)[0] == p.take(k)[0]);
                    assert forall|j: int| 0 <= j < k - 1 implies #[trigger] t1.take(k - 1)[j]
                        == p1.take(k - 1)[j] by {
                        assert(t.take(k)[j + 1] == p.take(k)[j + 1]);
                    }
                    assert(t1.take(k - 1) =~= p1.take(k - 1));
                }
            }
        }
    }
}

/// A pattern without a star matches only itself.
proof fn lemma_plain(p: Seq<char>, t: Seq<char>)
    requires
        plain_upto(p, p.len() as int),
    ensures
        wild(p, t) == (p == t),
{
    let k = p.len() as int;
    lemma_plain_prefix(p, t, k);
    assert(p.take(k) == p);
    assert(p.skip(k).len() == 0);
    if k <= t.len() && t.take(k) == p && t.skip(k).len() == 0 {
        assert(t.take(k) == t);
    }
    if p == t {
        assert(t.take(k) == t);
    }
}

/// One step of a pattern that begins with a star.
proof fn lemma_star_step(p: Seq<char>, r: Seq<char>)
    ensures
        wild(starred(p), r) == (wild(p, r) || (r.len() > 0 && wild(starred(p), r.skip(1)))),
{
    assert(starred(p)[0] == '*');
    assert(starred(p).skip(1) == p);
}

/// A star before a plain text matches the texts that end with it.
proof fn lemma_star_suffix(p: Seq<char>, r: Seq<char>)
    requires
        plain_upto(p, p.len() as int),
    ensures
        wild(starred(p), r) == text::ends_with(r, p),
    decreases r.len(),
{
    lemma_star_step(p, r);
    lemma_plain(p, r);
    if r.len() > 0 {
        lemma_star_suffix(p, r.skip(1));
        if p.len() < r.len() {
            assert(r.skip(1).skip(r.skip(1).len() - p.len()) == r.skip(r.len() - p.len()));
        } else if p.len() == r.len() {
            assert(r.skip(0) == r);
        }
    } else {
        assert(r.skip(0) == r);
        if p.len() == 0 {
            assert(p == r);
        }
    }
}

/// What matches `*c*y` still matches `*y` after its first `c.len()` characters.
proof fn lemma_star_drop(c: Seq<char>, y: Seq<char>, r: Seq<char>)
    requires
        plain_upto(c, c.len() as int),
        wild(starred(c + starred(y)), r),
    ensures
        c.len() <= r.len(),
        wild(starred(y), r.skip(c.len() as int)),
    decreases r.len(),
{
    let cy = c + starred(y);
    let n = c.len() as int;
    lemma_star_step(cy, r);
    assert(plain_upto(cy, n)) by {
        assert forall|j: int| 0 <= j < n implies #[trigger] cy[j] != '*' by {
            assert(cy[j] == c[j]);
        }
    }
    lemma_plain_prefix(cy, r, n);
    assert(cy.skip(n) == starred(y));
    if !wild(cy, r) {
        lemma_star_drop(c, y, r.skip(1));
        assert(r.skip(1).skip(n) == r.skip(n).skip(1));
        lemma_star_step(y, r.skip(n));
    }
}

/// A middle chunk may be taken at its first occurrence.
proof fn lemma_star_first(c: Seq<char>, y: Seq<char>, r: Seq<char>, f: int)
    requires
        plain_upto(c, c.len() as int),
        occurs(c, r, f),
        forall|g: int| 0 <= g < f ==> !occurs(c, r, g),
    ensures
        wild(starred(c + starred(y)), r) == wild(starred(y), r.skip(f + c.len())),
    decreases f,
{
    let cy = c + starred(y);
    let n = c.len() as int;
    lemma_star_step(cy, r);
    assert(plain_upto(cy, n)) by {
        assert forall|j: int| 0 <= j < n implies #[trigger] cy[j] != '*' by {
            assert(cy[j] == c[j]);
        }
    }
    lemma_plain_prefix(cy, r, n);
    assert(cy.skip(n) == starred(y));
    assert(cy.take(n) == c);
    if f == 0 {
        assert(r.subrange(0, n) == r.take(n));
        if wild(starred(cy), r) {
            lemma_star_drop(c, y, r);
        }
    } else {
        assert(!occurs(c, r, 0));
        if n <= r.len() {
            assert(r.subrange(0, n) == r.take(n));
        }
        let r1 = r.skip(1);
        assert(r1.subrange(f - 1, f - 1 + n) == r.subrange(f, f + n));
        assert forall|g: int| 0 <= g < f - 1 implies !occurs(c, r1, g) by {
            if occurs(c, r1, g) {
                assert(r1.subrange(g, g + n) == r.subrange(g + 1, g + 1 + n));
                assert(occurs(c, r, g + 1));
            }
        }
        lemma_star_first(c, y, r1, f - 1);
        assert(r1.skip(f - 1 + n) == r.skip(f + n));
    }
}

/// A middle chunk that does not occur cannot be matched.
proof fn lemma_star_absent(c: Seq<char>, y: Seq<char>, r: Seq<char>)
    requires
        plain_upto(c, c.len() as int),
        forall|g: int| !occurs(c, r, g),
    ensures
        !wild(starred(c + starred(y)), r),
    decreases r.len(),
{
    let cy = c + starred(y);
    let n = c.len() as int;
    lemma_star_step(cy, r);
    assert(plain_upto(cy, n)) by {
        assert forall|j: int| 0 <= j < n implies #[trigger] cy[j] != '*' by {
            assert(cy[j] == c[j]);
        }
    }
    lemma_plain_prefix(cy, r, n);
    assert(cy.take(n) == c);
    assert(!occurs(c, r, 0));
    if n <= r.len() {
        assert(r.subrange(0, n) == r.take(n));
    }
    if r.len() > 0 {
        let r1 = r.skip(1);
        assert forall|g: int| !occurs(c, r1, g) by {
            if occurs(c, r1, g) {
                assert(r1.subrange(g, g + n) == r.subrange(g + 1, g + 1 + n));
                assert(occurs(c, r, g + 1));
            }
        }
        lemma_star_absent(c, y, r1);
    }
}

// ---------------------------------------------------------------------------
// Executable matcher
// ---------------------------------------------------------------------------

/// The first position at which `c` occurs in `r`.
fn find_chunk(c: &[char], r: &[char]) -> (res: Option<usize>)
    ensures
        match res {
            Some(f) => occurs(c@, r@, f as int) && forall|g: int|
                0 <= g < f ==> !occurs(c@, r@, g),
            None => forall|g: int| !occurs(c@, r@, g),
        },
{
    let n = c.len();
    if n > r.len() {
        return None;
    }
    let last = r.len() - n;
    let mut f: usize = 0;
    loop
        invariant
            n == c@.len(),
            last == r@.len() - n,
            r@.len() <= usize::MAX,
            f <= last,
            forall|g: int| 0 <= g < f ==> !occurs(c@, r@, g),
        decreases last - f,
    {
        if text::same_chars(&r[f..f + n], c) {
            return Some(f);
        }
        if f == last {
            return None;
        }
        f += 1;
    }
}

/// Match one path segment against one pattern segment.
pub fn segment_match(pattern: &[char], text: &[char]) -> (r: bool)
    ensures
        r == wild(pattern@, text@),
{
    let k = text::find_char(pattern, '*');
    if k == pattern.len() {
        proof {
            lemma_plain(pattern@, text@);
        }
        return text::same_chars(pattern, text);
    }
    proof {
        lemma_plain_prefix(pattern@, text@, k as int);
    }
    if k > text.len() || !text::same_chars(&text[0..k], &pattern[0..k]) {
        return false;
    }
    let mut pat = &pattern[k + 1..pattern.len()];
    let mut rest = &text[k..text.len()];
    proof {
        assert(pattern@.skip(k as int) == starred(pat@));
    }
    loop
        invariant
            wild(pattern@, text@) == wild(starred(pat@), rest@),
        decreases pat@.len(),
    {
        let m = text::find_char(pat, '*');
        if m == pat.len() {
            proof {
                lemma_star_suffix(pat@, rest@);
            }
            return m <= rest.len() && text::same_chars(&rest[rest.len() - m..rest.len()], pat);
        }
        let c = &pat[0..m];
        let next = &pat[m + 1..pat.len()];
        proof {
            assert(pat@ == c@ + starred(next@));
            assert forall|j: int| 0 <= j < m implies #[trigger] c@[j] != '*' by {
                assert(c@[j] == pat@[j]);
            }
        }
        match find_chunk(c, rest) {
            None => {
                proof {
                    lemma_star_absent(c@, next@, rest@);
                }
                return false;
            },
            Some(f) => {
                proof {
                    lemma_star_first(c@, next@, rest@, f as int);
                }
                let n = rest.len();
                rest = &rest[f + m..n];
                pat = next;
            },
        }
    }
}

/// Whether a segment is `**`.
fn is_double_star(seg: &[char]) -> (r: bool)
    ensures
        r == (seg@ == double_star()),
{
    let r = seg.len() == 2 && seg[0] == '*' && seg[1] == '*';
    proof {
        if r {
            assert(seg@ =~= double_star());
        }
    }
    r
}

/// Match path segments against pattern segments.
pub fn match_segments(pat: &[&[char]], seg: &[&[char]]) -> (r: bool)
    ensures
        r == segments_match(text::slices(pat@), text::slices(seg@)),
    decreases pat@.len(),
{
    if pat.len() == 0 {
        return seg.len() == 0;
    }
    let pat_rest = &pat[1..pat.len()];
    proof {
        assert(text::slices(pat@).skip(1) == text::slices(pat_rest@));
        assert(text::slices(pat@)[0] == pat@[0]@);
    }
    if is_double_star(pat[0]) {
        let mut tail = seg;
        loop
            invariant
                pat@.len() > 0,
                text::slices(pat@).skip(1) == text::slices(pat_rest@),
                text::slices(pat@)[0] == double_star(),
                pat_rest@.len() < pat@.len(),
                segments_match(text::slices(pat@), text::slices(seg@)) == segments_match(
                    text::slices(pat@),
                    text::slices(tail@),
                ),
            decreases tail@.len(),
        {
            if match_segments(pat_rest, tail) {
                return true;
            }
            if tail.len() == 0 {
                return false;
            }
            let next = &tail[1..tail.len()];
            proof {
                assert(text::slices(tail@).skip(1) == text::slices(next@));
            }
            tail = next;
        }
    }
    if seg.len() == 0 {
        return false;
    }
    let seg_rest = &seg[1..seg.len()];
    proof {
        assert(text::slices(seg@).skip(1) == text::slices(seg_rest@));
        assert(text::slices(seg@)[0] == seg@[0]@);
    }
    segment_match(pat[0], seg[0]) && match_segments(pat_rest, seg_rest)
}

/// Match a path against a glob.
pub fn glob_match(pattern: &str, path: &str) -> (r: bool)
    ensures
        r == glob(pattern@, path@),
{
    let p = text::chars_of(pattern);
    let q = text::chars_of(path);
    let pat = text::split(p.as_slice(), '/');
    let seg = text::split(q.as_slice(), '/');
    match_segments(pat.as_slice(), seg.as_slice())
}

/// The number of `**` segments in a glob.
pub fn double_star_count(pattern: &str) -> (n: usize)
    ensures
        n == double_stars(pattern@),
{
    let p = text::chars_of(pattern);
    let segs = text::split(p.as_slice(), '/');
    let mut n: usize = 0;
    let mut i: usize = 0;
    while i < segs.len()
        invariant
            text::slices(segs@) == text::split_on(pattern@, '/'),
            i <= segs@.len(),
            n == double_stars_upto(text::slices(segs@), i as nat),
            n <= i,
        decreases segs@.len() - i,
    {
        proof {
            assert(text::slices(segs@)[i as int] == segs@[i as int]@);
        }
        if is_double_star(segs[i]) {
            n += 1;
        }
        i += 1;
    }
    n
}

// ---------------------------------------------------------------------------
// Laws
// ---------------------------------------------------------------------------

/// Double stars are counted from either end.
proof fn lemma_count_head(h: Seq<char>, t: Seq<Seq<char>>, n: nat)
    requires
        n <= t.len(),
    ensures
        double_stars_upto(seq![h] + t, n + 1) == double_stars_upto(t, n) + if h == double_star() {
            1nat
        } else {
            0
        },
    decreases n,
{
    let all = seq![h] + t;
    if n == 0 {
        assert(double_stars_upto(all, 0) == 0);
    } else {
        lemma_count_head(h, t, (n - 1) as nat);
        assert(all[n as int] == t[n - 1]);
    }
}

/// Whether two stars stand together at `i`.
pub open spec fn star_pair(p: Seq<char>, i: int) -> bool {
    0 <= i < p.len() - 1 && p[i] == '*' && p[i + 1] == '*'
}

/// A pattern has no more `**` segments than places where two stars stand together: with
/// all of them at `k`, it has at most one.
pub proof fn double_stars_need_star_pairs(p: Seq<char>, k: int)
    requires
        forall|i: int| i != k ==> !#[trigger] star_pair(p, i),
    ensures
        double_stars(p) <= if star_pair(p, k) {
            1nat
        } else {
            0
        },
    decreases p.len(),
{
    let n = text::index_of(p, '/') as int;
    if n >= p.len() {
        let segs = text::split_on(p, '/');
        assert(double_stars_upto(segs, 0) == 0);
        assert(double_stars_upto(segs, 1) == double_stars(p));
        if p == double_star() {
            assert(star_pair(p, 0));
        }
    } else {
        let head = p.take(n);
        let rest = p.skip(n + 1);
        let segs = text::split_on(rest, '/');
        assert forall|i: int| i != k - (n + 1) implies !#[trigger] star_pair(rest, i) by {
            if star_pair(rest, i) {
                assert(star_pair(p, i + n + 1));
            }
        }
        double_stars_need_star_pairs(rest, k - (n + 1));
        lemma_count_head(head, segs, segs.len());
        if head == double_star() {
            assert(head.len() == n);
            assert(double_star().len() == 2);
            assert(p[0] == head[0]);
            assert(p[1] == head[1]);
            assert(star_pair(p, 0));
        }
        if star_pair(rest, k - (n + 1)) {
            assert(star_pair(p, k));
        }
    }
}

/// A star stands for any run of characters, of any length; any other character for itself.
pub proof fn stars_stand_for_any_run(c: char, p: Seq<char>, t: Seq<char>)
    ensures
        wild(Seq::<char>::empty(), t) <==> t.len() == 0,
        wild(seq!['*'] + p, t) <==> exists|k: int|
            0 <= k <= t.len() && wild(p, #[trigger] t.skip(k)),
        c != '*' ==> (wild(seq![c] + p, t) <==> t.len() > 0 && t[0] == c && wild(p, t.skip(1))),
    decreases t.len(),
{
    let s = seq!['*'] + p;
    assert(s.skip(1) =~= p);
    assert(s[0] == '*');
    let l = seq![c] + p;
    assert(l.skip(1) =~= p);
    assert(l[0] == c);
    assert(t.skip(0) =~= t);
    if t.len() > 0 {
        let rest = t.skip(1);
        stars_stand_for_any_run(c, p, rest);
        if wild(s, rest) {
            let k = choose|k: int| 0 <= k <= rest.len() && wild(p, #[trigger] rest.skip(k));
            assert(rest.skip(k) =~= t.skip(k + 1));
        }
        if exists|k: int| 0 <= k <= t.len() && wild(p, #[trigger] t.skip(k)) {
            let k = choose|k: int| 0 <= k <= t.len() && wild(p, #[trigger] t.skip(k));
            if k > 0 {
                assert(rest.skip(k - 1) =~= t.skip(k));
            }
        }
    } else if exists|k: int| 0 <= k <= t.len() && wild(p, #[trigger] t.skip(k)) {
        let k = choose|k: int| 0 <= k <= t.len() && wild(p, #[trigger] t.skip(k));
        assert(t.skip(k) =~= t);
    }
}

/// Two stars that are a segment stand for any run of segments, of any length; any other
/// segment for one that is an instance of it. No star of such a segment spans two.
pub proof fn double_stars_stand_for_any_run_of_segments(
    pat: Seq<char>,
    pats: Seq<Seq<char>>,
    segs: Seq<Seq<char>>,
)
    ensures
        segments_match(Seq::<Seq<char>>::empty(), segs) <==> segs.len() == 0,
        segments_match(seq![seq!['*', '*']] + pats, segs) <==> exists|k: int|
            0 <= k <= segs.len() && segments_match(pats, #[trigger] segs.skip(k)),
        pat != seq!['*', '*'] ==> (segments_match(seq![pat] + pats, segs) <==> segs.len() > 0
            && wild(pat, segs[0]) && segments_match(pats, segs.skip(1))),
    decreases segs.len(),
{
    let s = seq![seq!['*', '*']] + pats;
    assert(s.skip(1) =~= pats);
    assert(s[0] == seq!['*', '*']);
    let l = seq![pat] + pats;
    assert(l.skip(1) =~= pats);
    assert(l[0] == pat);
    assert(segs.skip(0) =~= segs);
    if segs.len() > 0 {
        let rest = segs.skip(1);
        double_stars_stand_for_any_run_of_segments(pat, pats, rest);
        if segments_match(s, rest) {
            let k = choose|k: int|
                0 <= k <= rest.len() && segments_match(pats, #[trigger] rest.skip(k));
            assert(rest.skip(k) =~= segs.skip(k + 1));
        }
        if exists|k: int| 0 <= k <= segs.len() && segments_match(pats, #[trigger] segs.skip(k)) {
            let k = choose|k: int|
                0 <= k <= segs.len() && segments_match(pats, #[trigger] segs.skip(k));
            if k > 0 {
                assert(rest.skip(k - 1) =~= segs.skip(k));
            }
        }
    } else if exists|k: int|
        0 <= k <= segs.len() && segments_match(pats, #[trigger] segs.skip(k)) {
        let k = choose|k: int|
            0 <= k <= segs.len() && segments_match(pats, #[trigger] segs.skip(k));
        assert(segs.skip(k) =~= segs);
    }
}

/// A glob and a path are matched segment by segment, as slashes part them.
pub proof fn globs_match_by_segment(pattern: Seq<char>, path: Seq<char>)
    ensures
        glob(pattern, path) <==> segments_match(
            text::split_on(pattern, '/'),
            text::split_on(path, '/'),
        ),
{
}

/// The `**` segments are counted one by one.
pub proof fn double_stars_are_counted(segs: Seq<Seq<char>>, n: nat)
    requires
        n < segs.len(),
    ensures
        double_stars_upto(segs, 0) == 0,
        segs[n as int] == seq!['*', '*'] ==> double_stars_upto(segs, n + 1) == double_stars_upto(
            segs,
            n,
        ) + 1,
        segs[n as int] != seq!['*', '*'] ==> double_stars_upto(segs, n + 1) == double_stars_upto(
            segs,
            n,
        ),
{
}

} // verus!
