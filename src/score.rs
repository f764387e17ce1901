//! The similarity metric: longest common subsequence in Dice form.
use vstd::prelude::*;
use crate::text::{lower_of, to_lower, chars_of};

verus! {

/// Length of the longest common subsequence of `a` and `b`, by the
/// recurrence on the last characters of both.
pub open spec fn lcs_len(a: Seq<char>, b: Seq<char>) -> nat
    decreases a.len() + b.len(),
{
    if a.len() == 0 || b.len() == 0 {
        0
    } else if a.last() == b.last() {
        lcs_len(a.drop_last(), b.drop_last()) + 1
    } else {
        let x = lcs_len(a.drop_last(), b);
        let y = lcs_len(a, b.drop_last());
        if x >= y { x } else { y }
    }
}

/// How similar two strings are: the percentage is
/// `200 * common / (left + right)`, or 0 when both are empty.
#[derive(Clone, Copy, Debug, PartialEq, Eq, Structural)]
pub struct Similarity {
    /// Length of the longest common subsequence.
    pub common: usize,
    /// Length of the first string, in characters.
    pub left: usize,
    /// Length of the second string, in characters.
    pub right: usize,
}

impl Similarity {
    /// Denominator of the ratio `common / den`, never zero.
    pub open spec fn den(self) -> int {
        if self.left + self.right == 0 { 1 } else { self.left + self.right }
    }

    pub open spec fn wf(self) -> bool {
        self.common <= self.left && self.common <= self.right
    }

    /// The percentage scaled by a hundred (hundredths of a percent), as a
    /// rational: it is at least `t` iff this holds.
    pub open spec fn at_least(self, t: int) -> bool {
        20000 * self.common >= t * self.den()
    }

    /// `self` is strictly more similar than `o`.
    pub open spec fn above(self, o: Similarity) -> bool {
        self.common * o.den() > o.common * self.den()
    }

    /// Both describe the same percentage.
    pub open spec fn same_ratio(self, o: Similarity) -> bool {
        self.common * o.den() == o.common * self.den()
    }
}

/// The similarity of two character sequences.
pub open spec fn similarity(a: Seq<char>, b: Seq<char>) -> Similarity
    recommends
        a.len() <= usize::MAX,
        b.len() <= usize::MAX,
{
    Similarity { common: lcs_len(a, b) as usize, left: a.len() as usize, right: b.len() as usize }
}

/// The score of two strings after case folding.
pub open spec fn score_spec(a: Seq<char>, b: Seq<char>) -> Similarity {
    similarity(lower_of(a), lower_of(b))
}

pub proof fn lemma_lcs_bounds(a: Seq<char>, b: Seq<char>)
    ensures
        lcs_len(a, b) <= a.len(),
        lcs_len(a, b) <= b.len(),
    decreases a.len() + b.len(),
{
    if a.len() == 0 || b.len() == 0 {
    } else if a.last() == b.last() {
        lemma_lcs_bounds(a.drop_last(), b.drop_last());
    } else {
        lemma_lcs_bounds(a.drop_last(), b);
        lemma_lcs_bounds(a, b.drop_last());
    }
}

pub proof fn lemma_lcs_symmetric(a: Seq<char>, b: Seq<char>)
    ensures
        lcs_len(a, b) == lcs_len(b, a),
    decreases a.len() + b.len(),
{
    if a.len() == 0 || b.len() == 0 {
    } else if a.last() == b.last() {
        lemma_lcs_symmetric(a.drop_last(), b.drop_last());
    } else {
        lemma_lcs_symmetric(a.drop_last(), b);
        lemma_lcs_symmetric(a, b.drop_last());
    }
}

pub proof fn lemma_lcs_self(a: Seq<char>)
    ensures
        lcs_len(a, a) == a.len(),
    decreases a.len(),
{
    if a.len() > 0 {
        lemma_lcs_self(a.drop_last());
    }
}

/// The score does not depend on the order of its arguments: both orders give
/// the same common length over the same combined length.
pub proof fn law_score_symmetric(a: Seq<char>, b: Seq<char>)
    requires
        lower_of(a).len() <= usize::MAX,
        lower_of(b).len() <= usize::MAX,
    ensures
        score_spec(a, b).common == score_spec(b, a).common,
        score_spec(a, b).den() == score_spec(b, a).den(),
        score_spec(a, b).same_ratio(score_spec(b, a)),
{
    lemma_lcs_symmetric(lower_of(a), lower_of(b));
}

/// The score lies between 0 and 100 percent, and is 0 when the first string
/// folds to the empty string (`score` shows that the empty string does).
pub proof fn law_score_bounds(a: Seq<char>, b: Seq<char>)
    requires
        lower_of(a).len() <= usize::MAX,
        lower_of(b).len() <= usize::MAX,
    ensures
        0 <= 200 * score_spec(a, b).common <= 100 * score_spec(a, b).den(),
        score_spec(a, b).at_least(0),
        lower_of(a).len() == 0 ==> score_spec(a, b).common == 0,
{
    lemma_lcs_bounds(lower_of(a), lower_of(b));
}

/// A string that does not fold to the empty string scores exactly 100 percent
/// against itself.
pub proof fn law_score_identity(a: Seq<char>)
    requires
        0 < lower_of(a).len() <= usize::MAX,
    ensures
        2 * score_spec(a, a).common == score_spec(a, a).den(),
        score_spec(a, a).at_least(10000),
{
    lemma_lcs_self(lower_of(a));
}

/// The similarity of two character sequences, by dynamic programming over
/// prefixes, one row of the table at a time.
pub fn lcs_score(a: &Vec<char>, b: &Vec<char>) -> (r: Similarity)
    ensures
        r == similarity(a@, b@),
        r.wf(),
{
    let m = a.len();
    let n = b.len();
    // prev[j] is the LCS length of the first i characters of a and the first j of b
    let mut prev: Vec<usize> = Vec::new();
    prev.push(0);
    let mut j: usize = 0;
    while j < n
        invariant
            j <= n,
            n == b@.len(),
            prev@.len() == j + 1,
            forall|k: int| 0 <= k <= j ==> prev@[k] == 0,
        decreases n - j,
    {
        prev.push(0);
        j = j + 1;
    }
    assert forall|k: int| 0 <= k <= n implies prev@[k] == lcs_len(a@.take(0), b@.take(k)) by {
        assert(a@.take(0).len() == 0);
    }
    let mut i: usize = 0;
    while i < m
        invariant
            i <= m,
            m == a@.len(),
            n == b@.len(),
            prev@.len() == n + 1,
            forall|k: int| 0 <= k <= n ==> prev@[k] == lcs_len(a@.take(i as int), b@.take(k)),
            forall|k: int| 0 <= k <= n ==> prev@[k] <= k,
        decreases m - i,
    {
        let ai = a[i];
        let mut cur: Vec<usize> = Vec::new();
        cur.push(0);
        assert(b@.take(0).len() == 0);
        let mut j: usize = 0;
        while j < n
            invariant
                j <= n,
                i < m,
                m == a@.len(),
                n == b@.len(),
                ai == a@[i as int],
                prev@.len() == n + 1,
                cur@.len() == j + 1,
                forall|k: int| 0 <= k <= n ==> prev@[k] == lcs_len(a@.take(i as int), b@.take(k)),
                forall|k: int| 0 <= k <= n ==> prev@[k] <= k,
                forall|k: int| 0 <= k <= j ==> cur@[k] == lcs_len(a@.take(i + 1), b@.take(k)),
                forall|k: int| 0 <= k <= j ==> cur@[k] <= k,
            decreases n - j,
        {
            proof {
                let x = a@.take(i + 1);
                let y = b@.take(j + 1);
                assert(x.drop_last() =~= a@.take(i as int));
                assert(y.drop_last() =~= b@.take(j as int));
                assert(x.last() == ai);
                assert(y.last() == b@[j as int]);
            }
            let v: usize = if ai == b[j] {
                prev[j] + 1
            } else if cur[j] >= prev[j + 1] {
                cur[j]
            } else {
                prev[j + 1]
            };
            cur.push(v);
            j = j + 1;
        }
        prev = cur;
        i = i + 1;
    }
    proof {
        assert(a@.take(m as int) =~= a@);
        assert(b@.take(n as int) =~= b@);
        lemma_lcs_bounds(a@, b@);
    }
    Similarity { common: prev[n], left: m, right: n }
}

/// The similarity of two strings, compared case-insensitively character by
/// character.
pub fn score(a: &str, b: &str) -> (r: Similarity)
    ensures
        r == score_spec(a@, b@),
        r.wf(),
        a@.len() == 0 || b@.len() == 0 ==> r.common == 0,
{
    let la = to_lower(a);
    let lb = to_lower(b);
    let ca = chars_of(la.as_str());
    let cb = chars_of(lb.as_str());
    lcs_score(&ca, &cb)
}

} // verus!
