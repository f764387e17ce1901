//! The corpus scanner: filters and scores every fragment of every document.
use vstd::prelude::*;
use rayon::iter::{IndexedParallelIterator, IntoParallelRefIterator, ParallelIterator};
use crate::score::{Similarity, similarity, lcs_score};
use crate::text::{lower_of, to_lower, chars_of};

verus! {

/// One timestamped piece of text of a document, with the relevance score
/// that the corpus gives it, in millionths (0 to 1 000 000).
pub struct Fragment {
    pub timestamp: String,
    pub similarity: i64,
    pub text: String,
}

/// A named, ordered sequence of fragments.
pub struct Document {
    pub name: String,
    pub fragments: Vec<Fragment>,
}

/// What loading one document of the corpus gave.
pub enum LoadedDocument {
    Ready(Document),
    /// The named document could not be read.
    Unreadable(String),
    /// The named document could be read but not decoded.
    Malformed(String),
}

/// A fragment that passed both thresholds, with its score.
pub struct Candidate {
    pub document_name: String,
    pub timestamp: String,
    pub original_similarity: i64,
    pub text: String,
    pub match_ratio: Similarity,
}

/// What every fragment is held against: the folded comparison string and the
/// two thresholds (the match ratio in hundredths of a percent, the original
/// similarity in millionths).
pub struct Matcher {
    pub comparison: Vec<char>,
    pub min_match_ratio: i64,
    pub min_original_similarity: i64,
}

impl Matcher {
    pub open spec fn wf(&self) -> bool {
        0 <= self.min_match_ratio <= 10000
    }

    pub open spec fn view(&self) -> Criteria {
        Criteria {
            comparison: self.comparison@,
            min_match_ratio: self.min_match_ratio as int,
            min_original_similarity: self.min_original_similarity as int,
        }
    }
}

/// What a `Matcher` stands for.
pub ghost struct Criteria {
    pub comparison: Seq<char>,
    pub min_match_ratio: int,
    pub min_original_similarity: int,
}

impl Criteria {
    /// The fragment is kept as a candidate.
    pub open spec fn keeps(self, f: Fragment) -> bool {
        &&& f.similarity >= self.min_original_similarity
        &&& similarity(self.comparison, lower_of(f.text@)).at_least(self.min_match_ratio)
    }
}

pub open spec fn candidate_of(name: String, m: Criteria, f: Fragment) -> Candidate {
    Candidate {
        document_name: name,
        timestamp: f.timestamp,
        original_similarity: f.similarity,
        text: f.text,
        match_ratio: similarity(m.comparison, lower_of(f.text@)),
    }
}

/// The candidates of a sequence of fragments, in their order.
pub open spec fn fragment_candidates(name: String, m: Criteria, fs: Seq<Fragment>) -> Seq<Candidate>
    decreases fs.len(),
{
    if fs.len() == 0 {
        seq![]
    } else {
        let p = fragment_candidates(name, m, fs.drop_last());
        if m.keeps(fs.last()) {
            p.push(candidate_of(name, m, fs.last()))
        } else {
            p
        }
    }
}

/// The candidates of one entry of the corpus: none where it failed to load.
pub open spec fn entry_candidates(m: Criteria, e: LoadedDocument) -> Seq<Candidate> {
    match e {
        LoadedDocument::Ready(d) => fragment_candidates(d.name, m, d.fragments@),
        _ => seq![],
    }
}

/// The candidates of a whole corpus, document after document.
pub open spec fn corpus_candidates(m: Criteria, es: Seq<LoadedDocument>) -> Seq<Candidate>
    decreases es.len(),
{
    if es.len() == 0 {
        seq![]
    } else {
        corpus_candidates(m, es.drop_last()) + entry_candidates(m, es.last())
    }
}

/// Whether `s` reaches `t` hundredths of a percent.
pub fn meets(s: Similarity, t: i64) -> (r: bool)
    requires
        s.wf(),
        0 <= t <= 10000,
    ensures
        r == s.at_least(t as int),
{
    let total: u128 = s.left as u128 + s.right as u128;
    let den: u128 = if total == 0 { 1 } else { total };
    let lhs: u128 = 20000 * (s.common as u128);
    assert((t as u128) * den <= 10000 * den) by (nonlinear_arith)
        requires t <= 10000, 0 <= t;
    let rhs: u128 = (t as u128) * den;
    lhs >= rhs
}

/// The candidates of one document, in the order of its fragments.
pub fn scan_document(d: &Document, m: &Matcher) -> (r: Vec<Candidate>)
    requires
        m.wf(),
    ensures
        r@ == fragment_candidates(d.name, m@, d.fragments@),
{
    let n = d.fragments.len();
    let mut r: Vec<Candidate> = Vec::new();
    let mut i: usize = 0;
    while i < n
        invariant
            i <= n,
            n == d.fragments@.len(),
            m.wf(),
            r@ == fragment_candidates(d.name, m@, d.fragments@.take(i as int)),
        decreases n - i,
    {
        let f = &d.fragments[i];
        proof {
            assert(d.fragments@.take(i + 1).drop_last() =~= d.fragments@.take(i as int));
        }
        if f.similarity >= m.min_original_similarity {
            let folded = to_lower(f.text.as_str());
            let cs = chars_of(folded.as_str());
            let s = lcs_score(&m.comparison, &cs);
            if meets(s, m.min_match_ratio) {
                r.push(
                    Candidate {
                        document_name: d.name.clone(),
                        timestamp: f.timestamp.clone(),
                        original_similarity: f.similarity,
                        text: f.text.clone(),
                        match_ratio: s,
                    },
                );
            }
        }
        i = i + 1;
    }
    assert(d.fragments@.take(n as int) =~= d.fragments@);
    r
}

/// The candidates of one entry of the corpus; a document that failed to load
/// gives none.
pub fn scan_entry(e: &LoadedDocument, m: &Matcher) -> (r: Vec<Candidate>)
    requires
        m.wf(),
    ensures
        r@ == entry_candidates(m@, *e),
{
    match e {
        LoadedDocument::Ready(d) => scan_document(d, m),
        _ => Vec::new(),
    }
}

/// Relies on rayon's `par_iter().map(..).collect_into_vec(..)` over a `Vec`:
/// an indexed parallel iterator collects one result per item, in the items'
/// order. The closure only calls `scan_entry`.
#[verifier::external_body]
fn scan_entries(es: &Vec<LoadedDocument>, m: &Matcher) -> (r: Vec<Vec<Candidate>>)
    requires
        m.wf(),
    ensures
        r@.len() == es@.len(),
        forall|i: int| 0 <= i < es@.len() ==> (#[trigger] r@[i])@ == entry_candidates(m@, es@[i]),
{
    let mut r: Vec<Vec<Candidate>> = Vec::new();
    es.par_iter().map(|e| scan_entry(e, m)).collect_into_vec(&mut r);
    r
}

/// The candidates of the whole corpus, document after document; entries that
/// failed to load are skipped. Documents are scanned in parallel.
pub fn scan(es: &Vec<LoadedDocument>, m: &Matcher) -> (r: Vec<Candidate>)
    requires
        m.wf(),
    ensures
        r@ == corpus_candidates(m@, es@),
{
    let parts = scan_entries(es, m);
    let mut r: Vec<Candidate> = Vec::new();
    for part in it: parts.into_iter()
        invariant
            it.seq() == parts@,
            parts@.len() == es@.len(),
            forall|i: int| 0 <= i < es@.len() ==> (#[trigger] parts@[i])@ == entry_candidates(m@, es@[i]),
            r@ == corpus_candidates(m@, es@.take(it.index() as int)),
    {
        let ghost k = it.index() as int;
        proof {
            assert(es@.take(k + 1).drop_last() =~= es@.take(k));
        }
        let mut part = part;
        r.append(&mut part);
    }
    assert(es@.take(es@.len() as int) =~= es@);
    r
}

} // verus!
