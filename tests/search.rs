use subtitle_search::query::{decode, join, normalize, split_words};
use subtitle_search::rank::{above, rank, RankedResult};
use subtitle_search::scan::{meets, scan, Candidate, Document, Fragment, LoadedDocument, Matcher};
use subtitle_search::score::{lcs_score, score, Similarity};
use subtitle_search::search::{search, validate, SearchOutcome, SearchParams};
use subtitle_search::text::{chars_of, is_white_space, occurs};
use subtitle_search::SearchError;

fn fragment(ts: &str, similarity: i64, text: &str) -> Fragment {
    Fragment { timestamp: ts.to_string(), similarity, text: text.to_string() }
}

fn doc(name: &str, frags: Vec<Fragment>) -> LoadedDocument {
    LoadedDocument::Ready(Document { name: name.to_string(), fragments: frags })
}

fn params(q: &str, ratio: i64, sim: i64, max: Option<i64>) -> SearchParams {
    SearchParams {
        query: q.to_string(),
        min_match_ratio: ratio,
        min_original_similarity: sim,
        max_results: max,
    }
}

fn found(r: Result<SearchOutcome, SearchError>) -> Vec<RankedResult> {
    match r {
        Ok(SearchOutcome::Found(v)) => v,
        _ => panic!("expected results"),
    }
}

fn sim(common: usize, left: usize, right: usize) -> Similarity {
    Similarity { common, left, right }
}

#[test]
fn score_identical_strings_is_full() {
    assert_eq!(score("abc", "abc"), sim(3, 3, 3));
    assert_eq!(score("Hello", "hello"), sim(5, 5, 5));
}

#[test]
fn score_with_empty_string_is_zero() {
    assert_eq!(score("", "abc"), sim(0, 0, 3));
    assert_eq!(score("abc", ""), sim(0, 3, 0));
    assert_eq!(score("", ""), sim(0, 0, 0));
}

#[test]
fn score_is_symmetric() {
    let a = score("kitten", "sitting");
    let b = score("sitting", "kitten");
    assert_eq!(a.common, 4);
    assert_eq!(a.common, b.common);
    assert_eq!(a.left + a.right, b.left + b.right);
}

#[test]
fn score_counts_characters_not_bytes() {
    assert_eq!(score("héllo", "HÉLLO"), sim(5, 5, 5));
    assert_eq!(score("日本語", "日語"), sim(2, 3, 2));
}

#[test]
fn score_is_sensitive_to_punctuation() {
    assert_eq!(score("a,b", "ab"), sim(2, 3, 2));
}

#[test]
fn lcs_score_on_characters() {
    let a: Vec<char> = "abcbdab".chars().collect();
    let b: Vec<char> = "bdcaba".chars().collect();
    assert_eq!(lcs_score(&a, &b), sim(4, 7, 6));
}

#[test]
fn threshold_is_inclusive() {
    // 2 * 1 / (1 + 3) = 50 percent exactly
    let s = sim(1, 1, 3);
    assert!(meets(s, 5000));
    assert!(!meets(s, 5001));
    assert!(meets(sim(0, 0, 0), 0));
    assert!(!meets(sim(0, 0, 0), 1));
}

#[test]
fn above_compares_ratios() {
    assert!(above(sim(9, 9, 17), sim(9, 9, 19)));
    assert!(!above(sim(9, 9, 19), sim(9, 9, 17)));
    assert!(!above(sim(1, 1, 1), sim(2, 2, 2)));
    assert!(above(sim(1, 1, 1), sim(0, 0, 0)));
    let big = usize::MAX;
    assert!(above(sim(big, big, big), sim(big - 1, big, big)));
}

#[test]
fn white_space_and_substrings() {
    assert!(is_white_space(' '));
    assert!(is_white_space('\t'));
    assert!(is_white_space('\u{3000}'));
    assert!(!is_white_space('x'));
    let hay = chars_of("the quick fox");
    assert!(occurs(&chars_of("quick"), &hay));
    assert!(occurs(&chars_of(""), &hay));
    assert!(!occurs(&chars_of("slow"), &hay));
    assert!(!occurs(&chars_of("the quick fox!"), &hay));
}

#[test]
fn decode_replaces_encoded_spaces() {
    assert_eq!(decode("quick%20fox"), "quick fox");
    assert_eq!(decode("100%"), "100%");
    assert_eq!(decode("%2%20"), "%2 ");
}

#[test]
fn split_on_white_space() {
    assert_eq!(split_words("  a  bc\td "), vec!["a".to_string(), "bc".to_string(), "d".to_string()]);
    assert!(split_words("   ").is_empty());
}

#[test]
fn normalize_multi_term_queries() {
    let q = normalize("Quick%20Fox").unwrap();
    assert_eq!(q.terms, vec!["quick".to_string(), "fox".to_string()]);
    assert_eq!(q.raw, "Quick%20Fox");
    let q = normalize("quick  fox").unwrap();
    assert_eq!(q.terms, vec!["quick".to_string(), "fox".to_string()]);
    assert_eq!(join(&q.terms), "quick fox");
}

#[test]
fn normalize_single_term_queries() {
    let q = normalize("HeLLo").unwrap();
    assert_eq!(q.terms, vec!["hello".to_string()]);
    let q = normalize("a\tb").unwrap();
    assert_eq!(q.terms, vec!["a\tb".to_string()]);
}

#[test]
fn normalize_rejects_empty_queries() {
    assert!(matches!(normalize(""), Err(SearchError::EmptyQuery)));
    assert!(matches!(normalize("   "), Err(SearchError::EmptyQuery)));
    assert!(matches!(normalize("%20%20"), Err(SearchError::EmptyQuery)));
}

#[test]
fn validate_thresholds() {
    assert!(validate(&params("q", 0, 0, None)).is_ok());
    assert!(validate(&params("q", 10000, 1_000_000, Some(1))).is_ok());
    assert_eq!(validate(&params("q", -1, 0, None)), Err(SearchError::InvalidThreshold));
    assert_eq!(validate(&params("q", 0, 1_000_001, None)), Err(SearchError::InvalidThreshold));
    assert_eq!(validate(&params("q", 0, 0, Some(-3))), Err(SearchError::InvalidThreshold));
}

#[test]
fn default_params() {
    let p = SearchParams::new("x".to_string());
    assert_eq!(p.min_match_ratio, 5000);
    assert_eq!(p.min_original_similarity, 0);
    assert!(p.max_results.is_none());
}

fn two_docs() -> Vec<LoadedDocument> {
    vec![
        doc("a.json", vec![fragment("00:01", 900_000, "the quick brown fox")]),
        doc("b.json", vec![fragment("00:02", 800_000, "a quick fox jumps")]),
    ]
}

#[test]
fn two_documents_ranked_by_ratio() {
    let v = found(search(Some(&two_docs()), &params("quick fox", 5000, 0, None)));
    assert_eq!(v.len(), 2);
    // 2 * 9 / (9 + 17) = 69.2 percent against 2 * 9 / (9 + 19) = 64.3 percent
    assert_eq!(v[0].candidate.document_name, "b.json");
    assert_eq!(v[0].candidate.match_ratio, sim(9, 9, 17));
    assert_eq!(v[0].candidate.timestamp, "00:02");
    assert_eq!(v[0].candidate.original_similarity, 800_000);
    assert_eq!(v[0].candidate.text, "a quick fox jumps");
    assert!(v[0].exact_match);
    assert_eq!(v[1].candidate.document_name, "a.json");
    assert_eq!(v[1].candidate.match_ratio, sim(9, 9, 19));
    assert!(v[1].exact_match);
}

#[test]
fn no_matches_is_not_an_error() {
    let r = search(Some(&two_docs()), &params("zzzz", 5000, 0, None));
    assert!(matches!(r, Ok(SearchOutcome::NoMatches)));
    let r = search(Some(&Vec::new()), &params("fox", 0, 0, None));
    assert!(matches!(r, Ok(SearchOutcome::NoMatches)));
}

#[test]
fn zero_cap_is_invalid() {
    let r = search(Some(&two_docs()), &params("fox", 5000, 0, Some(0)));
    assert!(matches!(r, Err(SearchError::InvalidThreshold)));
}

#[test]
fn ratio_above_hundred_is_invalid() {
    let r = search(Some(&two_docs()), &params("fox", 15000, 0, None));
    assert!(matches!(r, Err(SearchError::InvalidThreshold)));
}

#[test]
fn errors_come_in_order() {
    assert!(matches!(search(None, &params("", 15000, 0, None)), Err(SearchError::EmptyQuery)));
    assert!(matches!(search(None, &params("x", 15000, 0, None)), Err(SearchError::InvalidThreshold)));
    assert!(matches!(search(None, &params("x", 0, 0, None)), Err(SearchError::CorpusUnavailable)));
}

#[test]
fn cap_keeps_the_best() {
    let v = found(search(Some(&two_docs()), &params("quick fox", 5000, 0, Some(1))));
    assert_eq!(v.len(), 1);
    assert_eq!(v[0].candidate.document_name, "b.json");
    let v = found(search(Some(&two_docs()), &params("quick fox", 5000, 0, Some(5))));
    assert_eq!(v.len(), 2);
}

#[test]
fn original_similarity_filters_first() {
    let v = found(search(Some(&two_docs()), &params("quick fox", 5000, 850_000, None)));
    assert_eq!(v.len(), 1);
    assert_eq!(v[0].candidate.document_name, "a.json");
}

#[test]
fn raising_the_ratio_only_removes_results() {
    let low = found(search(Some(&two_docs()), &params("quick fox", 6000, 0, None)));
    let high = found(search(Some(&two_docs()), &params("quick fox", 6600, 0, None)));
    assert_eq!(low.len(), 2);
    assert_eq!(high.len(), 1);
    assert_eq!(high[0].candidate.document_name, "b.json");
}

#[test]
fn broken_document_does_not_hide_others() {
    let mut corpus = two_docs();
    corpus.insert(1, LoadedDocument::Malformed("c.json".to_string()));
    corpus.push(LoadedDocument::Unreadable("d.json".to_string()));
    let v = found(search(Some(&corpus), &params("quick fox", 5000, 0, None)));
    assert_eq!(v.len(), 2);
    assert_eq!(v[0].candidate.document_name, "b.json");
    assert_eq!(v[1].candidate.document_name, "a.json");
}

#[test]
fn containment_breaks_ties() {
    // both texts score 2 * 3 / (7 + 3) = 60 percent against "abc def";
    // only the second holds both terms
    let corpus = vec![doc("x", vec![fragment("1", 0, "adf"), fragment("2", 0, "abc")])];
    let p = params("abc%20def", 0, 0, None);
    let q = normalize("abc def").unwrap();
    assert_eq!(q.terms.len(), 2);
    let v = found(search(Some(&corpus), &p));
    assert_eq!(v.len(), 2);
    assert_eq!(v[0].candidate.match_ratio.common, v[1].candidate.match_ratio.common);
    assert!(!v[0].exact_match && !v[1].exact_match);
    let corpus = vec![doc("x", vec![fragment("1", 0, "abcxdef"), fragment("2", 0, "abcdefg")])];
    let v = found(search(Some(&corpus), &p));
    assert_eq!(v[0].candidate.match_ratio, sim(6, 7, 7));
    assert!(v[0].exact_match);
}

#[test]
fn exact_match_ignores_case_of_text() {
    let corpus = vec![doc("x", vec![fragment("1", 0, "The QUICK Fox"), fragment("2", 0, "quick brown")])];
    let v = found(search(Some(&corpus), &params("quick fox", 0, 0, None)));
    assert_eq!(v.len(), 2);
    assert_eq!(v[0].candidate.text, "The QUICK Fox");
    assert!(v[0].exact_match);
    assert!(!v[1].exact_match);
}

#[test]
fn scan_skips_failed_documents_and_empty_ones() {
    let corpus = vec![
        doc("a", vec![]),
        LoadedDocument::Unreadable("b".to_string()),
        doc("c", vec![fragment("1", 0, "fox"), fragment("2", 0, "zzz")]),
    ];
    let m = Matcher { comparison: chars_of("fox"), min_match_ratio: 5000, min_original_similarity: 0 };
    let c: Vec<Candidate> = scan(&corpus, &m);
    assert_eq!(c.len(), 1);
    assert_eq!(c[0].document_name, "c");
    assert_eq!(c[0].match_ratio, sim(3, 3, 3));
}

#[test]
fn rank_orders_and_truncates() {
    let cand = |name: &str, text: &str, s: Similarity| Candidate {
        document_name: name.to_string(),
        timestamp: "t".to_string(),
        original_similarity: 0,
        text: text.to_string(),
        match_ratio: s,
    };
    let cands = vec![
        cand("low", "ab", sim(1, 2, 2)),
        cand("tie_without", "xx", sim(2, 2, 2)),
        cand("tie_with", "AB", sim(1, 1, 1)),
        cand("mid", "ab", sim(3, 4, 4)),
    ];
    let terms = vec![chars_of("ab")];
    let v = rank(cands, &terms, Some(3));
    assert_eq!(v.len(), 3);
    assert_eq!(v[0].candidate.document_name, "tie_with");
    assert!(v[0].exact_match);
    assert_eq!(v[1].candidate.document_name, "tie_without");
    assert!(!v[1].exact_match);
    assert_eq!(v[2].candidate.document_name, "mid");
}
