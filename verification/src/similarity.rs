//! Cosine similarity over fixed-point vectors, compared exactly.
//!
//! An embedding is a vector of 16-bit fixed-point components. The cosine
//! similarity of a vector `e` and a query `q` is `dot(e, q) / (|e| * |q|)`,
//! and 0 where either has zero magnitude. Two similarities to the same query
//! are compared without division or square root: the order of
//! `dot(e, q) / |e|` is the order of its sign-preserving square
//! `sign * dot(e, q)^2 / |e|^2`, a fraction of integers, and two fractions are
//! compared by cross-multiplication.

use vstd::prelude::*;

verus! {

/// The widest embedding that the arithmetic of this module admits.
pub const MAX_DIMENSION: usize = 4096;

/// A bound on the magnitude of the product of two components.
pub const TERM_LIMIT: i64 = 0x4000_0000;

/// A bound on the magnitude of a dot product of admitted vectors.
pub const DOT_LIMIT: i64 = 0x400_0000_0000;

/// A bound on the magnitude of a score's numerator.
pub const NUM_LIMIT: i128 = 0x10_0000_0000_0000_0000_0000;

/// The dot product of the first `n` components of `a` and `b`.
pub open spec fn dot_upto(a: Seq<i16>, b: Seq<i16>, n: int) -> int
    decreases n,
{
    if n <= 0 {
        0
    } else {
        dot_upto(a, b, n - 1) + (a[n - 1] as int) * (b[n - 1] as int)
    }
}

/// The dot product of two vectors of one width.
pub open spec fn dot(a: Seq<i16>, b: Seq<i16>) -> int {
    dot_upto(a, b, a.len() as int)
}

/// The squared magnitude of a vector.
pub open spec fn norm2(a: Seq<i16>) -> int {
    dot(a, a)
}

/// The square of `d` with the sign of `d`.
pub open spec fn signed_square(d: int) -> int {
    if d >= 0 {
        d * d
    } else {
        -(d * d)
    }
}

/// A similarity as a fraction: numerator and positive denominator.
pub struct Score {
    pub num: int,
    pub den: int,
}

/// The fraction by which the similarity of `e` to `q` is ranked: 0 where
/// either vector has zero magnitude, else the sign-preserving square of
/// `dot(e, q) / |e|`. Among scores to one query it orders as the cosine
/// similarity does.
pub open spec fn score_of(e: Seq<i16>, q: Seq<i16>) -> Score {
    if norm2(e) == 0 || norm2(q) == 0 {
        Score { num: 0, den: 1 }
    } else {
        Score { num: signed_square(dot(e, q)), den: norm2(e) }
    }
}

/// The similarity of `e` to `q` is 1: the vectors point the same way.
pub open spec fn is_full_similarity(e: Seq<i16>, q: Seq<i16>) -> bool {
    &&& norm2(e) > 0
    &&& norm2(q) > 0
    &&& dot(e, q) > 0
    &&& dot(e, q) * dot(e, q) == norm2(e) * norm2(q)
}

/// The fraction `x` is less than the fraction `y`.
pub open spec fn below(x: Score, y: Score) -> bool {
    x.num * y.den < y.num * x.den
}

/// Every score has a positive denominator.
pub open spec fn valid_scores(scores: Seq<Score>) -> bool {
    forall|i: int| 0 <= i < scores.len() ==> (#[trigger] scores[i]).den > 0
}

/// Entry `i` is ranked before entry `j`: its score is higher, or the scores
/// are equal and it was inserted earlier.
pub open spec fn precedes(scores: Seq<Score>, i: int, j: int) -> bool {
    below(scores[j], scores[i]) || (!below(scores[i], scores[j]) && i < j)
}

/// `picks` are the `k` best-ranked of the first `n` entries, best first; all
/// of them where there are fewer than `k`.
pub open spec fn is_top_k(scores: Seq<Score>, n: int, k: int, picks: Seq<int>) -> bool {
    &&& picks.len() == if k <= n {
        k
    } else {
        n
    }
    &&& forall|a: int| 0 <= a < picks.len() ==> 0 <= #[trigger] picks[a] < n
    &&& forall|a: int, b: int|
        0 <= a < b < picks.len() ==> precedes(scores, #[trigger] picks[a], #[trigger] picks[b])
    &&& forall|a: int, j: int|
        0 <= a < picks.len() && 0 <= j < n && !picks.contains(j) ==> #[trigger] precedes(
            scores,
            picks[a],
            j,
        )
}

/// If `x < y` and `y <= z` then `x < z`.
pub proof fn lemma_below_then_at_most(x: Score, y: Score, z: Score)
    requires
        x.den > 0,
        y.den > 0,
        z.den > 0,
        below(x, y),
        !below(z, y),
    ensures
        below(x, z),
{
    let (a, b) = (x.num, x.den);
    let (c, d) = (y.num, y.den);
    let (e, f) = (z.num, z.den);
    assert(a * d < c * b);
    assert(c * f <= e * d);
    assert((a * d) * f < (c * b) * f) by (nonlinear_arith)
        requires
            a * d < c * b,
            f > 0,
    ;
    assert((c * f) * b <= (e * d) * b) by (nonlinear_arith)
        requires
            c * f <= e * d,
            b > 0,
    ;
    assert((a * d) * f == d * (a * f)) by (nonlinear_arith);
    assert((c * b) * f == (c * f) * b) by (nonlinear_arith);
    assert((e * d) * b == d * (e * b)) by (nonlinear_arith);
    assert(a * f < e * b) by (nonlinear_arith)
        requires
            d * (a * f) < d * (e * b),
            d > 0,
    ;
}

/// If `x <= y` and `y < z` then `x < z`.
pub proof fn lemma_at_most_then_below(x: Score, y: Score, z: Score)
    requires
        x.den > 0,
        y.den > 0,
        z.den > 0,
        !below(y, x),
        below(y, z),
    ensures
        below(x, z),
{
    let (a, b) = (x.num, x.den);
    let (c, d) = (y.num, y.den);
    let (e, f) = (z.num, z.den);
    assert(a * d <= c * b);
    assert(c * f < e * d);
    assert((a * d) * f <= (c * b) * f) by (nonlinear_arith)
        requires
            a * d <= c * b,
            f > 0,
    ;
    assert((c * f) * b < (e * d) * b) by (nonlinear_arith)
        requires
            c * f < e * d,
            b > 0,
    ;
    assert((a * d) * f == d * (a * f)) by (nonlinear_arith);
    assert((c * b) * f == (c * f) * b) by (nonlinear_arith);
    assert((e * d) * b == d * (e * b)) by (nonlinear_arith);
    assert(a * f < e * b) by (nonlinear_arith)
        requires
            d * (a * f) < d * (e * b),
            d > 0,
    ;
}

/// The ranking is transitive.
pub proof fn lemma_precedes_transitive(scores: Seq<Score>, i: int, j: int, l: int)
    requires
        valid_scores(scores),
        0 <= i < scores.len(),
        0 <= j < scores.len(),
        0 <= l < scores.len(),
        precedes(scores, i, j),
        precedes(scores, j, l),
    ensures
        precedes(scores, i, l),
{
    let (si, sj, sl) = (scores[i], scores[j], scores[l]);
    if below(sj, si) {
        if below(sl, sj) {
            lemma_below_then_at_most(sl, sj, si);
        } else {
            lemma_at_most_then_below(sl, sj, si);
        }
    } else {
        if below(sl, sj) {
            lemma_below_then_at_most(sl, sj, si);
        } else {
            if below(si, sl) {
                lemma_below_then_at_most(si, sl, sj);
            }
        }
    }
}

/// Of two different entries exactly one is ranked before the other.
pub proof fn lemma_precedes_total(scores: Seq<Score>, i: int, j: int)
    requires
        i != j,
    ensures
        precedes(scores, i, j) != precedes(scores, j, i),
{
}

/// The best-ranked entries are determined: two selections that both are the
/// `k` best of the first `n` entries are the same.
pub proof fn lemma_top_k_unique(scores: Seq<Score>, n: int, k: int, p: Seq<int>, q: Seq<int>)
    requires
        is_top_k(scores, n, k, p),
        is_top_k(scores, n, k, q),
    ensures
        p == q,
{
    assert forall|a: int| 0 <= a < p.len() implies p[a] == q[a] by {
        lemma_top_k_agree(scores, n, k, p, q, a);
    }
    assert(p =~= q);
}

/// Two selections of the `k` best agree up to and at position `a`.
proof fn lemma_top_k_agree(scores: Seq<Score>, n: int, k: int, p: Seq<int>, q: Seq<int>, a: int)
    requires
        is_top_k(scores, n, k, p),
        is_top_k(scores, n, k, q),
        0 <= a < p.len(),
    ensures
        p[a] == q[a],
    decreases a,
{
    assert forall|b: int| 0 <= b < a implies p[b] == q[b] by {
        lemma_top_k_agree(scores, n, k, p, q, b);
    }
    if p[a] != q[a] {
        lemma_precedes_total(scores, p[a], q[a]);
        lemma_not_later(scores, n, k, q, p, a);
        lemma_not_later(scores, n, k, p, q, a);
    }
}

/// Where two selections agree before position `a`, what `q` holds at `a`
/// is not ranked before what `p` holds there.
proof fn lemma_not_later(scores: Seq<Score>, n: int, k: int, p: Seq<int>, q: Seq<int>, a: int)
    requires
        is_top_k(scores, n, k, p),
        is_top_k(scores, n, k, q),
        0 <= a < p.len(),
        forall|b: int| 0 <= b < a ==> p[b] == q[b],
        p[a] != q[a],
    ensures
        !precedes(scores, q[a], p[a]),
{
    let x = q[a];
    if precedes(scores, x, p[a]) {
        lemma_precedes_total(scores, x, p[a]);
        if p.contains(x) {
            let b = choose|b: int| 0 <= b < p.len() && p[b] == x;
            if b < a {
                assert(q[b] == x);
                assert(precedes(scores, q[b], q[a]));
            } else if b > a {
                assert(precedes(scores, p[a], p[b]));
            }
        } else {
            assert(precedes(scores, p[a], x));
        }
    }
}

/// A score as the machine holds it.
#[derive(Clone, Copy, Debug)]
pub struct ScoreValue {
    pub num: i128,
    pub den: i128,
}

impl View for ScoreValue {
    type V = Score;

    open spec fn view(&self) -> Score {
        Score { num: self.num as int, den: self.den as int }
    }
}

impl ScoreValue {
    /// The score is within the bounds that keep its comparison free of
    /// overflow.
    pub open spec fn bounded(&self) -> bool {
        &&& -NUM_LIMIT <= self.num <= NUM_LIMIT
        &&& 0 < self.den <= DOT_LIMIT
    }
}

/// The scores that a sequence of score values stands for.
pub open spec fn score_views(values: Seq<ScoreValue>) -> Seq<Score> {
    values.map_values(|v: ScoreValue| v@)
}

/// The dot product of a vector with its first `n` components stays within
/// `n` times the bound of one term.
proof fn lemma_dot_bound(a: Seq<i16>, b: Seq<i16>, n: int)
    requires
        0 <= n <= a.len(),
        a.len() == b.len(),
    ensures
        -n * TERM_LIMIT <= dot_upto(a, b, n) <= n * TERM_LIMIT,
    decreases n,
{
    if n > 0 {
        lemma_dot_bound(a, b, n - 1);
        let x = a[n - 1] as int;
        let y = b[n - 1] as int;
        assert(-1073741824 <= x * y <= 1073741824) by (nonlinear_arith)
            requires
                -32768 <= x <= 32767,
                -32768 <= y <= 32767,
        ;
    }
}

/// The squared magnitude of a vector is not negative.
pub proof fn lemma_norm2_nonnegative(a: Seq<i16>, n: int)
    requires
        0 <= n <= a.len(),
    ensures
        dot_upto(a, a, n) >= 0,
    decreases n,
{
    if n > 0 {
        lemma_norm2_nonnegative(a, n - 1);
        let x = a[n - 1] as int;
        assert(x * x >= 0) by (nonlinear_arith);
    }
}

/// The dot product of two vectors of one admitted width.
pub fn dot_product(a: &[i16], b: &[i16]) -> (out: i64)
    requires
        a@.len() == b@.len(),
        a@.len() <= MAX_DIMENSION,
    ensures
        out == dot(a@, b@),
        -DOT_LIMIT <= out <= DOT_LIMIT,
{
    let mut acc: i64 = 0;
    let mut i: usize = 0;
    while i < a.len()
        invariant
            i <= a.len(),
            a@.len() == b@.len(),
            a@.len() <= MAX_DIMENSION,
            acc == dot_upto(a@, b@, i as int),
            -i * TERM_LIMIT <= acc <= i * TERM_LIMIT,
        decreases a.len() - i,
    {
        let x = a[i] as i64;
        let y = b[i] as i64;
        proof {
            lemma_dot_bound(a@, b@, i + 1);
            assert(-1073741824 <= x * y <= 1073741824) by (nonlinear_arith)
                requires
                    -32768 <= x <= 32767,
                    -32768 <= y <= 32767,
            ;
            assert(i * TERM_LIMIT <= 4095 * 1073741824) by (nonlinear_arith)
                requires
                    0 <= i <= 4095,
                    TERM_LIMIT == 1073741824,
            ;
        }
        acc = acc + x * y;
        i += 1;
    }
    proof {
        lemma_dot_bound(a@, b@, a@.len() as int);
        assert(a@.len() * TERM_LIMIT <= 4096 * 1073741824) by (nonlinear_arith)
            requires
                0 <= a@.len() <= 4096,
                TERM_LIMIT == 1073741824,
        ;
    }
    acc
}

/// The score by which the entry `e` is ranked for the query `q`, whose
/// squared magnitude is `query_norm`.
pub fn score(e: &[i16], q: &[i16], query_norm: i64) -> (out: ScoreValue)
    requires
        e@.len() == q@.len(),
        e@.len() <= MAX_DIMENSION,
        query_norm == norm2(q@),
    ensures
        out@ == score_of(e@, q@),
        out.bounded(),
{
    let norm = dot_product(e, e);
    proof {
        lemma_norm2_nonnegative(e@, e@.len() as int);
    }
    if norm == 0 || query_norm == 0 {
        ScoreValue { num: 0, den: 1 }
    } else {
        let d = dot_product(e, q) as i128;
        assert(0 <= d * d <= 0x400_0000_0000 * 0x400_0000_0000) by (nonlinear_arith)
            requires
                -0x400_0000_0000 <= d <= 0x400_0000_0000,
        ;
        assert(0x400_0000_0000 * 0x400_0000_0000 == NUM_LIMIT);
        let square = d * d;
        ScoreValue {
            num: if d >= 0 {
                square
            } else {
                -square
            },
            den: norm as i128,
        }
    }
}

/// Whether the score `x` is less than the score `y`.
pub fn is_below(x: ScoreValue, y: ScoreValue) -> (out: bool)
    requires
        x.bounded(),
        y.bounded(),
    ensures
        out == below(x@, y@),
{
    proof {
        lemma_product_bound(x.num as int, y.den as int);
        lemma_product_bound(y.num as int, x.den as int);
    }
    x.num * y.den < y.num * x.den
}

/// The product of a bounded numerator and a bounded denominator fits the
/// machine's widest integer.
proof fn lemma_product_bound(num: int, den: int)
    requires
        -NUM_LIMIT <= num <= NUM_LIMIT,
        0 < den <= DOT_LIMIT,
    ensures
        -0x4000_0000_0000_0000_0000_0000_0000_0000 <= num * den
            <= 0x4000_0000_0000_0000_0000_0000_0000_0000,
{
    assert(-(0x10_0000_0000_0000_0000_0000 * 0x400_0000_0000) <= num * den
        <= 0x10_0000_0000_0000_0000_0000 * 0x400_0000_0000) by (nonlinear_arith)
        requires
            -0x10_0000_0000_0000_0000_0000 <= num <= 0x10_0000_0000_0000_0000_0000,
            0 < den <= 0x400_0000_0000,
    ;
    assert(0x10_0000_0000_0000_0000_0000 * 0x400_0000_0000
        == 0x4000_0000_0000_0000_0000_0000_0000_0000);
}

/// The part of the selection invariant that the result does not show: while
/// fewer than `k` entries are picked, every entry seen so far is picked.
spec fn holds_all(n: int, k: int, picks: Seq<int>) -> bool {
    picks.len() < k ==> forall|j: int| 0 <= j < n ==> picks.contains(j)
}

/// Putting entry `m` at its place among the best of the first `m` entries,
/// and dropping the last where that makes one too many, gives the best of the
/// first `m + 1`.
proof fn lemma_insert_keeps_best(
    scores: Seq<Score>,
    m: int,
    k: int,
    best: Seq<int>,
    p: int,
    next: Seq<int>,
)
    requires
        valid_scores(scores),
        0 <= m < scores.len(),
        0 <= k,
        is_top_k(scores, m, k, best),
        holds_all(m, k, best),
        0 <= p <= best.len(),
        forall|a: int| 0 <= a < p ==> !below(scores[#[trigger] best[a]], scores[m]),
        p < best.len() ==> below(scores[best[p]], scores[m]),
        next == if best.len() + 1 > k {
            best.insert(p, m).drop_last()
        } else {
            best.insert(p, m)
        },
    ensures
        is_top_k(scores, m + 1, k, next),
        holds_all(m + 1, k, next),
{
    let mid = best.insert(p, m);
    assert forall|a: int, b: int| 0 <= a < b < mid.len() implies precedes(
        scores,
        #[trigger] mid[a],
        #[trigger] mid[b],
    ) by {
        if b < p {
            assert(mid[a] == best[a] && mid[b] == best[b]);
        } else if b == p {
            assert(mid[a] == best[a]);
        } else if a == p {
            assert(mid[b] == best[b - 1]);
            if b - 1 > p {
                assert(precedes(scores, best[p], best[b - 1]));
                lemma_at_most_then_below(scores[best[b - 1]], scores[best[p]], scores[m]);
            }
        } else if a < p {
            assert(mid[a] == best[a] && mid[b] == best[b - 1]);
        } else {
            assert(mid[a] == best[a - 1] && mid[b] == best[b - 1]);
        }
    }
    assert forall|a: int| 0 <= a < mid.len() implies 0 <= #[trigger] mid[a] < m + 1 by {
        if a < p {
            assert(mid[a] == best[a]);
        } else if a > p {
            assert(mid[a] == best[a - 1]);
        }
    }
    assert forall|j: int| 0 <= j < m && best.contains(j) implies mid.contains(j) by {
        let a = choose|a: int| 0 <= a < best.len() && best[a] == j;
        if a < p {
            assert(mid[a] == j);
        } else {
            assert(mid[a + 1] == j);
        }
    }
    assert(mid[p] == m);
    assert(mid.contains(m));
    assert forall|a: int| 0 <= a < next.len() implies next[a] == mid[a] by {}
    assert forall|a: int, j: int|
        0 <= a < next.len() && 0 <= j < m + 1 && !next.contains(j) implies #[trigger] precedes(
        scores,
        next[a],
        j,
    ) by {
        if j < m && !best.contains(j) {
            // the selection was full, so its last entry leaves
            assert(best.len() == k);
            let last = best[k - 1];
            assert(precedes(scores, best[k - 1], j));
            if a == p {
                assert(mid[k] == last);
                assert(precedes(scores, mid[p], mid[k]));
                lemma_precedes_transitive(scores, m, last, j);
            } else if a < p {
                assert(next[a] == best[a]);
                assert(precedes(scores, best[a], j));
            } else {
                assert(next[a] == best[a - 1]);
                assert(precedes(scores, best[a - 1], j));
            }
        } else {
            assert(mid.contains(j));
            let b = choose|b: int| 0 <= b < mid.len() && mid[b] == j;
            if b < next.len() {
                assert(next[b] == j);
            }
            assert(precedes(scores, mid[a], mid[b]));
        }
    }
    assert forall|j: int| next.len() < k && 0 <= j < m + 1 implies next.contains(j) by {
        assert(next == mid);
        if j < m {
            assert(best.contains(j));
        }
    }
}

/// The indices of the `k` best-ranked scores, best first.
pub fn nearest(scores: &Vec<ScoreValue>, k: usize) -> (out: Vec<usize>)
    requires
        forall|i: int| 0 <= i < scores@.len() ==> (#[trigger] scores@[i]).bounded(),
    ensures
        is_top_k(
            score_views(scores@),
            scores@.len() as int,
            k as int,
            out@.map_values(|i: usize| i as int),
        ),
{
    let ghost views = score_views(scores@);
    let mut best: Vec<usize> = Vec::new();
    let mut m: usize = 0;
    assert(valid_scores(views));
    while m < scores.len()
        invariant
            m <= scores.len(),
            views == score_views(scores@),
            valid_scores(views),
            forall|i: int| 0 <= i < scores@.len() ==> (#[trigger] scores@[i]).bounded(),
            is_top_k(views, m as int, k as int, best@.map_values(|i: usize| i as int)),
            holds_all(m as int, k as int, best@.map_values(|i: usize| i as int)),
        decreases scores.len() - m,
    {
        let ghost before = best@.map_values(|i: usize| i as int);
        assert forall|a: int| 0 <= a < best@.len() implies #[trigger] best@[a] < m by {
            assert(before[a] == best@[a]);
        }
        let mut p: usize = 0;
        while p < best.len() && !is_below(scores[best[p]], scores[m])
            invariant
                p <= best.len(),
                m < scores.len(),
                views == score_views(scores@),
                before == best@.map_values(|i: usize| i as int),
                forall|i: int| 0 <= i < scores@.len() ==> (#[trigger] scores@[i]).bounded(),
                forall|a: int| 0 <= a < best@.len() ==> #[trigger] best@[a] < m,
                forall|a: int| 0 <= a < p ==> !below(views[#[trigger] before[a]], views[m as int]),
            decreases best.len() - p,
        {
            p += 1;
        }
        best.insert(p, m);
        if best.len() > k {
            best.pop();
        }
        proof {
            let next = best@.map_values(|i: usize| i as int);
            assert(next =~= if before.len() + 1 > k {
                before.insert(p as int, m as int).drop_last()
            } else {
                before.insert(p as int, m as int)
            });
            lemma_insert_keeps_best(views, m as int, k as int, before, p as int, next);
        }
        m += 1;
    }
    best
}

/// In a selection of the best, scores do not rise from one position to the
/// next, and of two entries with equal scores the one inserted earlier comes
/// first.
pub proof fn lemma_top_k_order(scores: Seq<Score>, n: int, k: int, picks: Seq<int>, a: int, b: int)
    requires
        is_top_k(scores, n, k, picks),
        0 <= a < b < picks.len(),
    ensures
        !below(scores[picks[a]], scores[picks[b]]),
        !below(scores[picks[b]], scores[picks[a]]) ==> picks[a] < picks[b],
{
    assert(precedes(scores, picks[a], picks[b]));
}

/// The place of entry `m` among `best`: the first position at or after
/// `from` whose entry has a lower score, or the end.
spec fn place_of(scores: Seq<Score>, best: Seq<int>, m: int, from: int) -> int
    decreases best.len() - from,
{
    if from < 0 || from >= best.len() {
        best.len() as int
    } else if below(scores[best[from]], scores[m]) {
        from
    } else {
        place_of(scores, best, m, from + 1)
    }
}

proof fn lemma_place_of(scores: Seq<Score>, best: Seq<int>, m: int, from: int)
    requires
        0 <= from <= best.len(),
    ensures
        from <= place_of(scores, best, m, from) <= best.len(),
        forall|a: int|
            from <= a < place_of(scores, best, m, from) ==> !below(
                scores[#[trigger] best[a]],
                scores[m],
            ),
        place_of(scores, best, m, from) < best.len() ==> below(
            scores[best[place_of(scores, best, m, from)]],
            scores[m],
        ),
    decreases best.len() - from,
{
    if from < best.len() && !below(scores[best[from]], scores[m]) {
        lemma_place_of(scores, best, m, from + 1);
    }
}

/// The `k` best of the first `n` entries, built one entry at a time.
spec fn best_upto(scores: Seq<Score>, n: int, k: int) -> Seq<int>
    decreases n,
{
    if n <= 0 {
        Seq::empty()
    } else {
        let best = best_upto(scores, n - 1, k);
        let mid = best.insert(place_of(scores, best, n - 1, 0), n - 1);
        if best.len() + 1 > k {
            mid.drop_last()
        } else {
            mid
        }
    }
}

proof fn lemma_best_upto(scores: Seq<Score>, n: int, k: int)
    requires
        valid_scores(scores),
        0 <= n <= scores.len(),
        0 <= k,
    ensures
        is_top_k(scores, n, k, best_upto(scores, n, k)),
        holds_all(n, k, best_upto(scores, n, k)),
    decreases n,
{
    if n > 0 {
        lemma_best_upto(scores, n - 1, k);
        let best = best_upto(scores, n - 1, k);
        lemma_place_of(scores, best, n - 1, 0);
        lemma_insert_keeps_best(
            scores,
            n - 1,
            k,
            best,
            place_of(scores, best, n - 1, 0),
            best_upto(scores, n, k),
        );
    } else {
        assert(is_top_k(scores, n, k, best_upto(scores, n, k)));
    }
}

/// Every sequence of valid scores has a selection of its `k` best.
pub proof fn lemma_top_k_exists(scores: Seq<Score>, k: int)
    requires
        valid_scores(scores),
        0 <= k,
    ensures
        exists|picks: Seq<int>| is_top_k(scores, scores.len() as int, k, picks),
{
    lemma_best_upto(scores, scores.len() as int, k);
}

/// The square of a dot product is at most the product of the squared
/// magnitudes.
pub proof fn lemma_dot_square_bound(a: Seq<i16>, b: Seq<i16>, n: int)
    requires
        0 <= n <= a.len(),
        a.len() == b.len(),
    ensures
        dot_upto(a, b, n) * dot_upto(a, b, n) <= dot_upto(a, a, n) * dot_upto(b, b, n),
    decreases n,
{
    if n > 0 {
        lemma_dot_square_bound(a, b, n - 1);
        lemma_norm2_nonnegative(a, n - 1);
        lemma_norm2_nonnegative(b, n - 1);
        let d = dot_upto(a, b, n - 1);
        let aa = dot_upto(a, a, n - 1);
        let bb = dot_upto(b, b, n - 1);
        let x = a[n - 1] as int;
        let y = b[n - 1] as int;
        let u = aa * (y * y);
        let v = bb * (x * x);
        let t = 2 * (d * (x * y));
        let w = (x * x) * (y * y);
        assert(w >= 0) by (nonlinear_arith)
            requires
                w == (x * x) * (y * y),
        ;
        assert(t * t == 4 * ((d * d) * w)) by (nonlinear_arith)
            requires
                t == 2 * (d * (x * y)),
                w == (x * x) * (y * y),
        ;
        assert((d * d) * w <= (aa * bb) * w) by (nonlinear_arith)
            requires
                d * d <= aa * bb,
                w >= 0,
        ;
        assert((aa * bb) * w == u * v) by (nonlinear_arith)
            requires
                u == aa * (y * y),
                v == bb * (x * x),
                w == (x * x) * (y * y),
        ;
        assert((u + v) * (u + v) >= 4 * (u * v)) by (nonlinear_arith);
        assert(u + v >= 0) by (nonlinear_arith)
            requires
                u == aa * (y * y),
                v == bb * (x * x),
                aa >= 0,
                bb >= 0,
        ;
        assert(t <= u + v) by (nonlinear_arith)
            requires
                t * t <= (u + v) * (u + v),
                u + v >= 0,
        ;
        assert((d + x * y) * (d + x * y) == d * d + t + w) by (nonlinear_arith)
            requires
                t == 2 * (d * (x * y)),
                w == (x * x) * (y * y),
        ;
        assert((aa + x * x) * (bb + y * y) == aa * bb + u + v + w) by (nonlinear_arith)
            requires
                u == aa * (y * y),
                v == bb * (x * x),
                w == (x * x) * (y * y),
        ;
    }
}

/// No vector is more similar to a query of positive magnitude than the query
/// itself, and a vector of the query's width that is as similar has
/// similarity 1.
pub proof fn lemma_query_scores_highest(e: Seq<i16>, q: Seq<i16>)
    requires
        e.len() == q.len(),
        norm2(q) > 0,
    ensures
        is_full_similarity(q, q),
        !below(score_of(q, q), score_of(e, q)),
        !below(score_of(e, q), score_of(q, q)) ==> is_full_similarity(e, q),
        score_of(e, q).den > 0,
{
    let n = norm2(q);
    let ne = norm2(e);
    let d = dot(e, q);
    lemma_dot_square_bound(e, q, e.len() as int);
    lemma_norm2_nonnegative(e, e.len() as int);
    assert(signed_square(n) == n * n);
    assert(n * n > 0) by (nonlinear_arith)
        requires
            n > 0,
    ;
    if ne != 0 {
        assert(d * d <= ne * n);
        assert((d * d) * n <= (ne * n) * n) by (nonlinear_arith)
            requires
                d * d <= ne * n,
                n > 0,
        ;
        assert((ne * n) * n == (n * n) * ne) by (nonlinear_arith);
        assert(d * d >= 0) by (nonlinear_arith);
        assert((d * d) * n >= 0) by (nonlinear_arith)
            requires
                d * d >= 0,
                n > 0,
        ;
        assert(signed_square(d) * n <= (n * n) * ne) by (nonlinear_arith)
            requires
                signed_square(d) == d * d || signed_square(d) == -(d * d),
                (d * d) * n <= (n * n) * ne,
                (d * d) * n >= 0,
        ;
        if !below(score_of(e, q), score_of(q, q)) {
            assert(signed_square(d) * n >= (n * n) * ne);
            assert((n * n) * ne > 0) by (nonlinear_arith)
                requires
                    n > 0,
                    ne > 0,
            ;
            assert(signed_square(d) > 0) by (nonlinear_arith)
                requires
                    signed_square(d) * n > 0,
                    n > 0,
            ;
            assert(d > 0) by (nonlinear_arith)
                requires
                    signed_square(d) > 0,
                    d < 0 ==> signed_square(d) == -(d * d),
                    d >= 0 ==> signed_square(d) == d * d,
            ;
            assert(d * d == ne * n) by (nonlinear_arith)
                requires
                    (d * d) * n >= (n * n) * ne,
                    d * d <= ne * n,
                    n > 0,
            ;
        }
    } else {
        assert(score_of(e, q) == Score { num: 0, den: 1 });
        assert(0 * n == 0);
        assert((n * n) * 1 == n * n);
    }
}

} // verus!
