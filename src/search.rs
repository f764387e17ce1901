//! A whole search: validation, normalization, scanning and ranking.
use vstd::prelude::*;
use crate::SearchError;
use crate::query::{normalize, join, query_terms, join_terms};
use crate::rank::{RankedResult, rank, all_ranked, ranked_of, in_rank_order, before, capped_len};
use crate::scan::{LoadedDocument, Matcher, Criteria, scan, corpus_candidates, entry_candidates, fragment_candidates, Fragment};
use crate::text::{lower_of, to_lower, chars_of};

verus! {

broadcast use vstd::seq_lib::group_to_multiset_ensures;

/// The default minimum match ratio: 50 percent, in hundredths of a percent.
pub const DEFAULT_MIN_MATCH_RATIO: i64 = 5000;

/// The default minimum original similarity, in millionths.
pub const DEFAULT_MIN_ORIGINAL_SIMILARITY: i64 = 0;

/// A search request. The minimum match ratio is in hundredths of a percent
/// (0 to 10 000), the minimum original similarity in millionths (0 to
/// 1 000 000); no cap means no limit on the number of results.
pub struct SearchParams {
    pub query: String,
    pub min_match_ratio: i64,
    pub min_original_similarity: i64,
    pub max_results: Option<i64>,
}

impl SearchParams {
    /// A request for `query` with the default thresholds and no cap.
    pub fn new(query: String) -> (r: SearchParams)
        ensures
            r.query == query,
            r.min_match_ratio == DEFAULT_MIN_MATCH_RATIO,
            r.min_original_similarity == DEFAULT_MIN_ORIGINAL_SIMILARITY,
            r.max_results is None,
    {
        SearchParams {
            query,
            min_match_ratio: DEFAULT_MIN_MATCH_RATIO,
            min_original_similarity: DEFAULT_MIN_ORIGINAL_SIMILARITY,
            max_results: None,
        }
    }

    /// Both thresholds lie in their ranges and a cap, if any, is positive.
    pub open spec fn valid(&self) -> bool {
        &&& 0 <= self.min_match_ratio <= 10000
        &&& 0 <= self.min_original_similarity <= 1_000_000
        &&& (self.max_results matches Some(k) ==> k > 0)
    }

    /// The terms of the query.
    pub open spec fn terms(&self) -> Seq<Seq<char>> {
        query_terms(self.query@)
    }

    /// What every fragment is held against.
    pub open spec fn criteria(&self) -> Criteria {
        Criteria {
            comparison: lower_of(join_terms(self.terms())),
            min_match_ratio: self.min_match_ratio as int,
            min_original_similarity: self.min_original_similarity as int,
        }
    }

    /// The cap on the number of results; one beyond any length is none.
    pub open spec fn cap(&self) -> Option<usize> {
        match self.max_results {
            Some(k) => if k <= usize::MAX { Some(k as usize) } else { None },
            None => None,
        }
    }
}

/// What a successful search gives: results, or the signal that none passed.
pub enum SearchOutcome {
    Found(Vec<RankedResult>),
    NoMatches,
}

/// Checks the thresholds and the cap of a request.
pub fn validate(p: &SearchParams) -> (r: Result<(), SearchError>)
    ensures
        r is Ok <==> p.valid(),
        r is Err ==> r == Err::<(), SearchError>(SearchError::InvalidThreshold),
{
    if p.min_match_ratio < 0 || p.min_match_ratio > 10000 {
        return Err(SearchError::InvalidThreshold);
    }
    if p.min_original_similarity < 0 || p.min_original_similarity > 1_000_000 {
        return Err(SearchError::InvalidThreshold);
    }
    match p.max_results {
        Some(k) => if k <= 0 {
            return Err(SearchError::InvalidThreshold);
        },
        None => {},
    }
    Ok(())
}

/// What `search` gives on a valid request over an enumerable corpus.
pub open spec fn outcome_ok(p: SearchParams, es: Seq<LoadedDocument>, o: SearchOutcome) -> bool {
    let cands = corpus_candidates(p.criteria(), es);
    let all = all_ranked(p.terms(), cands);
    match o {
        SearchOutcome::NoMatches => cands.len() == 0,
        SearchOutcome::Found(v) => {
            &&& cands.len() > 0
            &&& in_rank_order(v@)
            &&& v@.len() == capped_len(cands.len() as int, p.cap())
            &&& v@.to_multiset().subset_of(all.to_multiset())
            &&& p.cap() is None ==> v@.to_multiset() == all.to_multiset()
            &&& forall|x: RankedResult|
                all.to_multiset().count(x) > v@.to_multiset().count(x) ==> forall|i: int|
                    0 <= i < v@.len() ==> !before(x, #[trigger] v@[i])
        },
    }
}

/// Searches the corpus (`None` when it could not be enumerated) for the
/// request. The query is checked first, then the thresholds, then the
/// corpus; documents that failed to load are skipped.
pub fn search(corpus: Option<&Vec<LoadedDocument>>, p: &SearchParams) -> (r: Result<
    SearchOutcome,
    SearchError,
>)
    ensures
        p.terms().len() == 0 ==> r == Err::<SearchOutcome, SearchError>(SearchError::EmptyQuery),
        p.terms().len() > 0 && !p.valid() ==> r == Err::<SearchOutcome, SearchError>(
            SearchError::InvalidThreshold,
        ),
        p.terms().len() > 0 && p.valid() && corpus is None ==> r == Err::<
            SearchOutcome,
            SearchError,
        >(SearchError::CorpusUnavailable),
        p.terms().len() > 0 && p.valid() && corpus is Some ==> (r matches Ok(o) && outcome_ok(
            *p,
            corpus->0@,
            o,
        )),
{
    let q = match normalize(p.query.as_str()) {
        Ok(q) => q,
        Err(e) => {
            return Err(e);
        },
    };
    match validate(p) {
        Ok(()) => {},
        Err(e) => {
            return Err(e);
        },
    }
    let es = match corpus {
        Some(es) => es,
        None => {
            return Err(SearchError::CorpusUnavailable);
        },
    };
    let joined = join(&q.terms);
    let folded = to_lower(joined.as_str());
    let m = Matcher {
        comparison: chars_of(folded.as_str()),
        min_match_ratio: p.min_match_ratio,
        min_original_similarity: p.min_original_similarity,
    };
    assert(m@ == p.criteria());
    let cands = scan(es, &m);
    if cands.len() == 0 {
        return Ok(SearchOutcome::NoMatches);
    }
    let mut term_chars: Vec<Vec<char>> = Vec::new();
    let nt = q.terms.len();
    let mut i: usize = 0;
    while i < nt
        invariant
            i <= nt,
            nt == q.terms@.len(),
            term_chars@.map_values(|t: Vec<char>| t@) == q.terms_view().take(i as int),
        decreases nt - i,
    {
        let cs = chars_of(q.terms[i].as_str());
        let ghost before = term_chars@.map_values(|t: Vec<char>| t@);
        term_chars.push(cs);
        assert(q.terms_view()[i as int] == q.terms@[i as int]@);
        assert(term_chars@.map_values(|t: Vec<char>| t@) =~= before.push(cs@));
        assert(term_chars@.map_values(|t: Vec<char>| t@) =~= q.terms_view().take(i + 1));
        i = i + 1;
    }
    assert(q.terms_view().take(nt as int) =~= q.terms_view());
    let cap: Option<usize> = match p.max_results {
        Some(k) => if (k as u64) <= (usize::MAX as u64) {
            Some(k as usize)
        } else {
            None
        },
        None => None,
    };
    let v = rank(cands, &term_chars, cap);
    Ok(SearchOutcome::Found(v))
}

/// The results of an outcome, in order; none for `NoMatches`.
pub open spec fn results(o: SearchOutcome) -> Seq<RankedResult> {
    match o {
        SearchOutcome::Found(v) => v@,
        SearchOutcome::NoMatches => seq![],
    }
}

proof fn lemma_fragments_monotonic(name: String, c1: Criteria, c2: Criteria, fs: Seq<Fragment>)
    requires
        c1.comparison == c2.comparison,
        c1.min_original_similarity == c2.min_original_similarity,
        0 <= c1.min_match_ratio <= c2.min_match_ratio,
    ensures
        forall|x| #[trigger]
            fragment_candidates(name, c2, fs).contains(x) ==> fragment_candidates(
                name,
                c1,
                fs,
            ).contains(x),
    decreases fs.len(),
{
    if fs.len() > 0 {
        lemma_fragments_monotonic(name, c1, c2, fs.drop_last());
        let f = fs.last();
        let s = crate::score::similarity(c2.comparison, lower_of(f.text@));
        if c2.keeps(f) {
            assert(c1.min_match_ratio * s.den() <= c2.min_match_ratio * s.den()) by (nonlinear_arith)
                requires
                    c1.min_match_ratio <= c2.min_match_ratio,
                    s.den() > 0,
            ;
            assert(c1.keeps(f));
        }
        let p1 = fragment_candidates(name, c1, fs.drop_last());
        let p2 = fragment_candidates(name, c2, fs.drop_last());
        assert forall|x| #[trigger]
            fragment_candidates(name, c2, fs).contains(x) implies fragment_candidates(
            name,
            c1,
            fs,
        ).contains(x) by {
            if p2.contains(x) {
                let k = choose|k: int| 0 <= k < p2.len() && p2[k] == x;
                assert(p1.contains(x));
                let j = choose|j: int| 0 <= j < p1.len() && p1[j] == x;
                if c1.keeps(f) {
                    assert(p1.push(crate::scan::candidate_of(name, c1, f))[j] == x);
                }
            } else {
                assert(c2.keeps(f));
                assert(fragment_candidates(name, c1, fs).last() == x);
            }
        }
    }
}

proof fn lemma_corpus_monotonic(c1: Criteria, c2: Criteria, es: Seq<LoadedDocument>)
    requires
        c1.comparison == c2.comparison,
        c1.min_original_similarity == c2.min_original_similarity,
        0 <= c1.min_match_ratio <= c2.min_match_ratio,
    ensures
        forall|x| #[trigger]
            corpus_candidates(c2, es).contains(x) ==> corpus_candidates(c1, es).contains(x),
    decreases es.len(),
{
    if es.len() > 0 {
        lemma_corpus_monotonic(c1, c2, es.drop_last());
        let a1 = corpus_candidates(c1, es.drop_last());
        let a2 = corpus_candidates(c2, es.drop_last());
        let b1 = entry_candidates(c1, es.last());
        let b2 = entry_candidates(c2, es.last());
        if let LoadedDocument::Ready(d) = es.last() {
            lemma_fragments_monotonic(d.name, c1, c2, d.fragments@);
        }
        assert(corpus_candidates(c1, es) == a1 + b1);
        assert(corpus_candidates(c2, es) == a2 + b2);
        assert forall|x| #[trigger]
            corpus_candidates(c2, es).contains(x) implies corpus_candidates(c1, es).contains(x) by {
            let k = choose|k: int| 0 <= k < (a2 + b2).len() && (a2 + b2)[k] == x;
            if k < a2.len() {
                assert(a2[k] == x);
                assert(a2.contains(x));
                assert(a1.contains(x));
                let j = choose|j: int| 0 <= j < a1.len() && a1[j] == x;
                assert((a1 + b1)[j] == x);
            } else {
                assert(b2[k - a2.len()] == x);
                assert(b2.contains(x));
                assert(b1.contains(x));
                let j = choose|j: int| 0 <= j < b1.len() && b1[j] == x;
                assert((a1 + b1)[a1.len() + j] == x);
            }
        }
    }
}

/// Raising the minimum match ratio only takes results away: with no cap,
/// every result of the stricter search is a result of the looser one.
pub proof fn law_monotonic_filtering(
    es: Seq<LoadedDocument>,
    p1: SearchParams,
    p2: SearchParams,
    o1: SearchOutcome,
    o2: SearchOutcome,
)
    requires
        p1.query == p2.query,
        p1.min_original_similarity == p2.min_original_similarity,
        p1.max_results is None,
        p2.max_results is None,
        p1.min_match_ratio < p2.min_match_ratio,
        p1.valid(),
        p2.valid(),
        outcome_ok(p1, es, o1),
        outcome_ok(p2, es, o2),
    ensures
        forall|x: RankedResult| #[trigger] results(o2).contains(x) ==> results(o1).contains(x),
{
    let c1 = p1.criteria();
    let c2 = p2.criteria();
    lemma_corpus_monotonic(c1, c2, es);
    let cands1 = corpus_candidates(c1, es);
    let cands2 = corpus_candidates(c2, es);
    let all1 = all_ranked(p1.terms(), cands1);
    let all2 = all_ranked(p2.terms(), cands2);
    assert forall|x: RankedResult| #[trigger] results(o2).contains(x) implies results(
        o1,
    ).contains(x) by {
        if let SearchOutcome::Found(v2) = o2 {
            assert(v2@.to_multiset().count(x) > 0);
            assert(all2.contains(x));
            let k = choose|k: int| 0 <= k < all2.len() && all2[k] == x;
            let c = cands2[k];
            assert(cands2.contains(c));
            assert(cands1.contains(c));
            let j = choose|j: int| 0 <= j < cands1.len() && cands1[j] == c;
            assert(all1[j] == x);
            assert(all1.contains(x));
            assert(cands1.len() > 0);
            if let SearchOutcome::Found(v1) = o1 {
                assert(all1.to_multiset().count(x) > 0);
                assert(v1@.to_multiset().count(x) > 0);
            }
        }
    }
}

/// A cap is respected: never more results than the cap, and exactly the cap
/// where at least that many candidates passed the thresholds.
pub proof fn law_cap_respected(es: Seq<LoadedDocument>, p: SearchParams, o: SearchOutcome, k: i64)
    requires
        p.valid(),
        p.max_results == Some(k),
        outcome_ok(p, es, o),
    ensures
        results(o).len() <= k,
        corpus_candidates(p.criteria(), es).len() >= k ==> results(o).len() == k,
{
    if let SearchOutcome::Found(v) = o {
        assert(v@.len() == v.len());
    }
}

/// Results come in rank order: a result's match ratio is at least that of any
/// later one, and where the two are equal, a later result holds every term
/// only if the earlier one does.
pub proof fn law_ranking_order(es: Seq<LoadedDocument>, p: SearchParams, o: SearchOutcome)
    requires
        outcome_ok(p, es, o),
    ensures
        forall|i: int, j: int|
            0 <= i < j < results(o).len() ==> {
                let a = (#[trigger] results(o)[i]).candidate.match_ratio;
                let b = (#[trigger] results(o)[j]).candidate.match_ratio;
                &&& !b.above(a)
                &&& a.same_ratio(b) && results(o)[j].exact_match ==> results(o)[i].exact_match
            },
{
    assert forall|i: int, j: int| 0 <= i < j < results(o).len() implies {
        let a = (#[trigger] results(o)[i]).candidate.match_ratio;
        let b = (#[trigger] results(o)[j]).candidate.match_ratio;
        &&& !b.above(a)
        &&& a.same_ratio(b) && results(o)[j].exact_match ==> results(o)[i].exact_match
    } by {
        let a = results(o)[i].candidate.match_ratio;
        let b = results(o)[j].candidate.match_ratio;
        assert(!before(results(o)[j], results(o)[i]));
        assert(a.same_ratio(b) ==> b.same_ratio(a));
    }
}

proof fn lemma_entry_in_corpus(c: Criteria, es: Seq<LoadedDocument>, j: int)
    requires
        0 <= j < es.len(),
    ensures
        forall|x| #[trigger]
            entry_candidates(c, es[j]).contains(x) ==> corpus_candidates(c, es).contains(x),
    decreases es.len(),
{
    let a = corpus_candidates(c, es.drop_last());
    let b = entry_candidates(c, es.last());
    assert(corpus_candidates(c, es) == a + b);
    if j < es.len() - 1 {
        lemma_entry_in_corpus(c, es.drop_last(), j);
        assert(es.drop_last()[j] == es[j]);
    }
    assert forall|x| #[trigger]
        entry_candidates(c, es[j]).contains(x) implies corpus_candidates(c, es).contains(x) by {
        if j < es.len() - 1 {
            assert(a.contains(x));
            let k = choose|k: int| 0 <= k < a.len() && a[k] == x;
            assert((a + b)[k] == x);
        } else {
            let k = choose|k: int| 0 <= k < b.len() && b[k] == x;
            assert((a + b)[a.len() + k] == x);
        }
    }
}

/// A document that fails to load takes no result away from the others: with
/// no cap, every candidate of every other document is still among the results.
pub proof fn law_isolation(
    es: Seq<LoadedDocument>,
    i: int,
    bad: LoadedDocument,
    p: SearchParams,
    o: SearchOutcome,
)
    requires
        0 <= i < es.len(),
        !(bad is Ready),
        p.valid(),
        p.max_results is None,
        outcome_ok(p, es.update(i, bad), o),
    ensures
        forall|j: int, x|
            0 <= j < es.len() && j != i && #[trigger] entry_candidates(p.criteria(), es[j]).contains(
                x,
            ) ==> results(o).contains(ranked_of(p.terms(), x)),
{
    let c = p.criteria();
    let es2 = es.update(i, bad);
    let cands = corpus_candidates(c, es2);
    let all = all_ranked(p.terms(), cands);
    assert forall|j: int, x|
        0 <= j < es.len() && j != i && #[trigger] entry_candidates(c, es[j]).contains(
            x,
        ) implies results(o).contains(ranked_of(p.terms(), x)) by {
        lemma_entry_in_corpus(c, es2, j);
        assert(es2[j] == es[j]);
        assert(cands.contains(x));
        let k = choose|k: int| 0 <= k < cands.len() && cands[k] == x;
        assert(all[k] == ranked_of(p.terms(), x));
        assert(all.contains(ranked_of(p.terms(), x)));
        if let SearchOutcome::Found(v) = o {
            assert(all.to_multiset().count(ranked_of(p.terms(), x)) > 0);
            assert(v@.to_multiset().count(ranked_of(p.terms(), x)) > 0);
        }
    }
}

} // verus!
