//! The ranker: orders candidates by match ratio, then by whether they hold
//! every term, and keeps the first ones.
use vstd::prelude::*;
use rayon::slice::ParallelSliceMut;
use crate::score::Similarity;
use crate::scan::Candidate;
use crate::text::{lower_of, to_lower, chars_of, occurs_in, occurs};

verus! {

broadcast use vstd::seq_lib::group_to_multiset_ensures, vstd::seq_lib::lemma_multiset_commutative;

/// A candidate in the final list, with whether its text holds every term.
pub struct RankedResult {
    pub candidate: Candidate,
    pub exact_match: bool,
}

/// Every term occurs in the folded text.
pub open spec fn contains_all(terms: Seq<Seq<char>>, folded: Seq<char>) -> bool {
    forall|k: int| 0 <= k < terms.len() ==> occurs_in(#[trigger] terms[k], folded)
}

pub open spec fn ranked_of(terms: Seq<Seq<char>>, c: Candidate) -> RankedResult {
    RankedResult { candidate: c, exact_match: contains_all(terms, lower_of(c.text@)) }
}

pub open spec fn all_ranked(terms: Seq<Seq<char>>, cs: Seq<Candidate>) -> Seq<RankedResult> {
    cs.map_values(|c: Candidate| ranked_of(terms, c))
}

/// `x` ranks strictly before `y`: a higher match ratio, or the same one and
/// only `x` holds every term.
pub open spec fn before(x: RankedResult, y: RankedResult) -> bool {
    ||| x.candidate.match_ratio.above(y.candidate.match_ratio)
    ||| (x.candidate.match_ratio.same_ratio(y.candidate.match_ratio) && x.exact_match
        && !y.exact_match)
}

/// No result ranks strictly before one that precedes it.
pub open spec fn in_rank_order(s: Seq<RankedResult>) -> bool {
    forall|i: int, j: int| 0 <= i < j < s.len() ==> !before(#[trigger] s[j], #[trigger] s[i])
}

/// Whether every term occurs in the folded text.
pub fn holds_all(terms: &Vec<Vec<char>>, folded: &Vec<char>) -> (r: bool)
    ensures
        r == contains_all(terms@.map_values(|t: Vec<char>| t@), folded@),
{
    let ghost tv = terms@.map_values(|t: Vec<char>| t@);
    let n = terms.len();
    let mut i: usize = 0;
    while i < n
        invariant
            i <= n,
            n == terms@.len(),
            tv == terms@.map_values(|t: Vec<char>| t@),
            forall|k: int| 0 <= k < i ==> occurs_in(#[trigger] tv[k], folded@),
        decreases n - i,
    {
        if !occurs(&terms[i], folded) {
            assert(tv[i as int] == terms@[i as int]@);
            return false;
        }
        i = i + 1;
    }
    true
}

/// `c * s.den()` as the sum of two parts that each fit in a `u128`.
fn weighted(c: usize, s: Similarity) -> (r: (u128, u128))
    ensures
        r.0 + r.1 == c * s.den(),
{
    let big: u128 = 0xffff_ffff_ffff_ffff;
    if s.left as u128 + s.right as u128 == 0 {
        (c as u128, 0)
    } else {
        assert((c as u128) * (s.left as u128) <= big * big) by (nonlinear_arith)
            requires c <= big, s.left <= big;
        assert((c as u128) * (s.right as u128) <= big * big) by (nonlinear_arith)
            requires c <= big, s.right <= big;
        assert(c * (s.left + s.right) == c * s.left + c * s.right) by (nonlinear_arith);
        ((c as u128) * (s.left as u128), (c as u128) * (s.right as u128))
    }
}

/// Whether `a.0 + a.1 > b.0 + b.1`, without computing either sum.
fn sum_above(a: (u128, u128), b: (u128, u128)) -> (r: bool)
    ensures
        r == (a.0 + a.1 > b.0 + b.1),
{
    if a.0 >= b.0 {
        let d = a.0 - b.0;
        if d > b.1 { true } else { a.1 > b.1 - d }
    } else {
        let d = b.0 - a.0;
        if a.1 >= b.1 { a.1 - b.1 > d } else { false }
    }
}

/// Whether `x` is strictly more similar than `y`.
pub fn above(x: Similarity, y: Similarity) -> (r: bool)
    ensures
        r == x.above(y),
{
    sum_above(weighted(x.common, y), weighted(y.common, x))
}

/// The order of the ranking, as a comparator: `Less` when `a` ranks strictly
/// before `b`, `Greater` when `b` does, `Equal` otherwise.
pub fn rank_order(a: &RankedResult, b: &RankedResult) -> (r: std::cmp::Ordering)
    ensures
        r == std::cmp::Ordering::Less <==> before(*a, *b),
        r == std::cmp::Ordering::Greater <==> before(*b, *a),
{
    let x = a.candidate.match_ratio;
    let y = b.candidate.match_ratio;
    if above(x, y) {
        std::cmp::Ordering::Less
    } else if above(y, x) {
        std::cmp::Ordering::Greater
    } else if a.exact_match && !b.exact_match {
        std::cmp::Ordering::Less
    } else if b.exact_match && !a.exact_match {
        std::cmp::Ordering::Greater
    } else {
        std::cmp::Ordering::Equal
    }
}

proof fn lemma_above_transitive(x: Similarity, y: Similarity, z: Similarity)
    requires
        x.above(y) || x.same_ratio(y),
        y.above(z) || y.same_ratio(z),
    ensures
        x.above(y) || y.above(z) ==> x.above(z),
        x.same_ratio(y) && y.same_ratio(z) ==> x.same_ratio(z),
{
    let (cx, cy, cz) = (x.common as int, y.common as int, z.common as int);
    let (dx, dy, dz) = (x.den(), y.den(), z.den());
    assert(cx * dy * dz >= cy * dx * dz) by (nonlinear_arith)
        requires cx * dy >= cy * dx, dz > 0;
    assert(cy * dz * dx >= cz * dy * dx) by (nonlinear_arith)
        requires cy * dz >= cz * dy, dx > 0;
    if x.above(y) {
        assert(cx * dy * dz > cy * dx * dz) by (nonlinear_arith)
            requires cx * dy > cy * dx, dz > 0;
    }
    if y.above(z) {
        assert(cy * dz * dx > cz * dy * dx) by (nonlinear_arith)
            requires cy * dz > cz * dy, dx > 0;
    }
    assert(cy * dx * dz == cy * dz * dx) by (nonlinear_arith);
    assert(cx * dy * dz == (cx * dz) * dy) by (nonlinear_arith);
    assert(cz * dy * dx == (cz * dx) * dy) by (nonlinear_arith);
    if x.above(y) || y.above(z) {
        assert((cx * dz) * dy > (cz * dx) * dy);
        assert(cx * dz > cz * dx) by (nonlinear_arith)
            requires (cx * dz) * dy > (cz * dx) * dy, dy > 0;
    }
    if x.same_ratio(y) && y.same_ratio(z) {
        assert((cx * dz) * dy == (cz * dx) * dy);
        assert(cx * dz == cz * dx) by (nonlinear_arith)
            requires (cx * dz) * dy == (cz * dx) * dy, dy > 0;
    }
}

/// The ranking order is a strict weak order, as `par_sort_by` asks of its
/// comparator: irreflexive, transitive, and with transitive ties.
pub proof fn lemma_rank_order_strict_weak(x: RankedResult, y: RankedResult, z: RankedResult)
    ensures
        !before(x, x),
        before(x, y) && before(y, z) ==> before(x, z),
        !before(x, y) && !before(y, x) && !before(y, z) && !before(z, y) ==> !before(x, z)
            && !before(z, x),
{
    let (a, b, c) = (x.candidate.match_ratio, y.candidate.match_ratio, z.candidate.match_ratio);
    // two ratios are either ordered one way, the other way, or the same
    assert(a.above(b) || b.above(a) || a.same_ratio(b));
    assert(b.above(c) || c.above(b) || b.same_ratio(c));
    assert(a.above(c) || c.above(a) || a.same_ratio(c));
    if before(x, y) && before(y, z) {
        lemma_above_transitive(a, b, c);
    }
    if !before(x, y) && !before(y, x) && !before(y, z) && !before(z, y) {
        lemma_above_transitive(a, b, c);
        lemma_above_transitive(c, b, a);
    }
}

/// Relies on rayon's `ParallelSliceMut::par_sort_by`: it reorders the slice,
/// keeping its items, so that it is ordered by the comparator; `rank_order`
/// is a strict weak order (`lemma_rank_order_strict_weak`), as the sort asks.
#[verifier::external_body]
fn sort_ranked(v: &mut Vec<RankedResult>)
    ensures
        final(v)@.len() == old(v)@.len(),
        final(v)@.to_multiset() == old(v)@.to_multiset(),
        in_rank_order(final(v)@),
{
    v.par_sort_by(|a, b| rank_order(a, b));
}

/// The number of results that a cap leaves of `n` candidates.
pub open spec fn capped_len(n: int, cap: Option<usize>) -> int {
    match cap {
        Some(k) => if k < n { k as int } else { n },
        None => n,
    }
}

/// Orders the candidates and keeps the first `cap` of them. Each result holds
/// whether its folded text contains every term; ties between results with the
/// same ratio and the same flag are left in no particular order.
pub fn rank(cands: Vec<Candidate>, terms: &Vec<Vec<char>>, cap: Option<usize>) -> (r: Vec<
    RankedResult,
>)
    ensures
        ({
            let all = all_ranked(terms@.map_values(|t: Vec<char>| t@), cands@);
            &&& in_rank_order(r@)
            &&& r@.len() == capped_len(cands@.len() as int, cap)
            &&& r@.to_multiset().subset_of(all.to_multiset())
            &&& cap is None ==> r@.to_multiset() == all.to_multiset()
            &&& forall|x: RankedResult|
                all.to_multiset().count(x) > r@.to_multiset().count(x) ==> forall|i: int|
                    0 <= i < r@.len() ==> !before(x, #[trigger] r@[i])
        }),
{
    let ghost tv = terms@.map_values(|t: Vec<char>| t@);
    let ghost all = all_ranked(tv, cands@);
    let mut v: Vec<RankedResult> = Vec::new();
    for c in it: cands.into_iter()
        invariant
            it.seq() == cands@,
            tv == terms@.map_values(|t: Vec<char>| t@),
            v@ == all_ranked(tv, cands@.take(it.index() as int)),
    {
        let ghost k = it.index() as int;
        let folded = to_lower(c.text.as_str());
        let cs = chars_of(folded.as_str());
        let e = holds_all(terms, &cs);
        v.push(RankedResult { candidate: c, exact_match: e });
        assert(cands@.take(k + 1) =~= cands@.take(k).push(c));
        assert(v@ =~= all_ranked(tv, cands@.take(k + 1)));
    }
    assert(cands@.take(cands@.len() as int) =~= cands@);
    sort_ranked(&mut v);
    let ghost s = v@;
    if let Some(k) = cap {
        if k < v.len() {
            v.truncate(k);
        }
    }
    proof {
        let n = v@.len() as int;
        let rest = s.skip(n);
        assert(s =~= v@ + rest);
        assert(s.to_multiset() =~= v@.to_multiset().add(rest.to_multiset()));
        assert forall|x: RankedResult|
            all.to_multiset().count(x) > v@.to_multiset().count(x) implies forall|i: int|
                0 <= i < v@.len() ==> !before(x, #[trigger] v@[i]) by {
            assert(rest.to_multiset().count(x) > 0);
            assert(rest.contains(x));
            let j = choose|j: int| 0 <= j < rest.len() && rest[j] == x;
            assert(s[n + j] == x);
            assert forall|i: int| 0 <= i < v@.len() implies !before(x, #[trigger] v@[i]) by {
                assert(s[i] == v@[i]);
            }
        }
    }
    v
}

} // verus!
