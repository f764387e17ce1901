//! Query normalization: case folding, decoding of encoded spaces and
//! splitting into terms.
use vstd::prelude::*;
use vstd::string::*;
use crate::SearchError;
use crate::text::{lower_of, to_lower, chars_of, white_space, is_white_space, occurs_in, occurs};

verus! {

/// `s` with each `%20`, taken left to right, replaced by a space.
pub open spec fn decode_spaces(s: Seq<char>) -> Seq<char>
    decreases s.len(),
{
    if s.len() == 0 {
        s
    } else if s.len() >= 3 && s[0] == '%' && s[1] == '2' && s[2] == '0' {
        seq![' '] + decode_spaces(s.skip(3))
    } else {
        seq![s[0]] + decode_spaces(s.skip(1))
    }
}

/// The maximal runs of non-white-space characters of `s[start..]`, where the
/// run in progress began at `start` and `i` is the next character to read.
pub open spec fn words_from(s: Seq<char>, start: int, i: int) -> Seq<Seq<char>>
    decreases s.len() - i,
{
    if i >= s.len() {
        if start < i { seq![s.subrange(start, s.len() as int)] } else { seq![] }
    } else if white_space(s[i]) {
        (if start < i { seq![s.subrange(start, i)] } else { seq![] }) + words_from(s, i + 1, i + 1)
    } else {
        words_from(s, start, i + 1)
    }
}

/// The white-space separated words of `s`, in order.
pub open spec fn words(s: Seq<char>) -> Seq<Seq<char>> {
    words_from(s, 0, 0)
}

/// The raw query holds a space, either literal or encoded as `%20`.
pub open spec fn has_separator(low: Seq<char>) -> bool {
    occurs_in(seq![' '], low) || occurs_in(seq!['%', '2', '0'], low)
}

/// The terms of a raw query.
pub open spec fn query_terms(raw: Seq<char>) -> Seq<Seq<char>> {
    let low = lower_of(raw);
    if has_separator(low) {
        words(decode_spaces(low))
    } else if low.len() == 0 {
        seq![]
    } else {
        seq![low]
    }
}

/// The terms joined by single spaces.
pub open spec fn join_terms(ts: Seq<Seq<char>>) -> Seq<char>
    decreases ts.len(),
{
    if ts.len() == 0 {
        seq![]
    } else if ts.len() == 1 {
        ts[0]
    } else {
        join_terms(ts.drop_last()) + seq![' '] + ts.last()
    }
}

pub open spec fn views(v: Seq<String>) -> Seq<Seq<char>> {
    v.map_values(|t: String| t@)
}

/// A normalized query: the raw text and its lower-case, non-empty terms.
pub struct Query {
    pub raw: String,
    pub terms: Vec<String>,
}

impl Query {
    pub open spec fn terms_view(&self) -> Seq<Seq<char>> {
        views(self.terms@)
    }
}

/// Replaces each `%20` of `s` by a space.
pub fn decode(s: &str) -> (r: String)
    ensures
        r@ == decode_spaces(s@),
{
    let cs = chars_of(s);
    let n = cs.len();
    let mut r = String::from_str("");
    proof {
        reveal_strlit("");
        reveal_strlit(" ");
    }
    let mut i: usize = 0;
    assert(s@.skip(0) =~= s@);
    assert(r@ + decode_spaces(s@) =~= decode_spaces(s@));
    while i < n
        invariant
            i <= n,
            n == s@.len(),
            cs@ == s@,
            r@ + decode_spaces(s@.skip(i as int)) == decode_spaces(s@),
        decreases n - i,
    {
        let ghost rest = s@.skip(i as int);
        let ghost prev = r@;
        if n - i > 2 && cs[i] == '%' && cs[i + 1] == '2' && cs[i + 2] == '0' {
            assert(rest.skip(3) =~= s@.skip(i + 3));
            assert(decode_spaces(rest) == seq![' '] + decode_spaces(rest.skip(3)));
            proof {
                reveal_strlit(" ");
            }
            assert(" "@ =~= seq![' ']);
            r.append(" ");
            assert(r@ =~= prev + seq![' ']);
            i = i + 3;
            assert(r@ + decode_spaces(s@.skip(i as int)) =~= prev + decode_spaces(rest));
        } else {
            assert(rest.skip(1) =~= s@.skip(i + 1));
            assert(decode_spaces(rest) == seq![rest[0]] + decode_spaces(rest.skip(1)));
            let piece = s.substring_char(i, i + 1);
            assert(piece@ =~= seq![rest[0]]);
            r.append(piece);
            i = i + 1;
            assert(r@ + decode_spaces(s@.skip(i as int)) =~= prev + decode_spaces(rest));
        }
    }
    assert(s@.skip(n as int).len() == 0);
    assert(r@ =~= r@ + decode_spaces(s@.skip(n as int)));
    r
}

/// Splits `s` into its white-space separated words.
pub fn split_words(s: &str) -> (r: Vec<String>)
    ensures
        views(r@) == words(s@),
{
    let cs = chars_of(s);
    let n = cs.len();
    let mut r: Vec<String> = Vec::new();
    let mut start: usize = 0;
    let mut i: usize = 0;
    while i < n
        invariant
            start <= i <= n,
            n == s@.len(),
            cs@ == s@,
            views(r@) + words_from(s@, start as int, i as int) == words(s@),
        decreases n - i,
    {
        let ghost before = views(r@);
        if is_white_space(cs[i]) {
            if start < i {
                let w = String::from_str(s.substring_char(start, i));
                r.push(w);
                assert(views(r@) =~= before + seq![s@.subrange(start as int, i as int)]);
            }
            start = i + 1;
        }
        i = i + 1;
        assert(views(r@) + words_from(s@, start as int, i as int) =~= words(s@));
    }
    let ghost before = views(r@);
    if start < n {
        let w = String::from_str(s.substring_char(start, n));
        r.push(w);
        assert(views(r@) =~= before + seq![s@.subrange(start as int, n as int)]);
    }
    assert(views(r@) =~= words(s@));
    r
}

/// Normalizes a raw query: folds its case and, where it holds a literal or
/// encoded space, decodes `%20` and splits it on white space; otherwise the
/// whole folded query is the one term.
pub fn normalize(raw: &str) -> (r: Result<Query, SearchError>)
    ensures
        r is Err <==> query_terms(raw@).len() == 0,
        r is Err ==> r == Err::<Query, SearchError>(SearchError::EmptyQuery),
        r matches Ok(q) ==> q.raw@ == raw@ && q.terms_view() == query_terms(raw@),
{
    let low = to_lower(raw);
    let lc = chars_of(low.as_str());
    let space: Vec<char> = vec![' '];
    let encoded: Vec<char> = vec!['%', '2', '0'];
    assert(space@ =~= seq![' ']);
    assert(encoded@ =~= seq!['%', '2', '0']);
    let terms: Vec<String> = if occurs(&space, &lc) || occurs(&encoded, &lc) {
        let decoded = decode(low.as_str());
        split_words(decoded.as_str())
    } else if lc.len() == 0 {
        let none: Vec<String> = Vec::new();
        assert(views(none@) =~= Seq::<Seq<char>>::empty());
        none
    } else {
        let mut one: Vec<String> = Vec::new();
        one.push(low);
        assert(views(one@) =~= seq![lc@]);
        one
    };
    if terms.len() == 0 {
        Err(SearchError::EmptyQuery)
    } else {
        Ok(Query { raw: String::from_str(raw), terms })
    }
}

/// Joins the terms with single spaces.
pub fn join(terms: &Vec<String>) -> (r: String)
    ensures
        r@ == join_terms(views(terms@)),
{
    let n = terms.len();
    if n == 0 {
        proof {
            reveal_strlit("");
        }
        return String::from_str("");
    }
    let mut r = terms[0].clone();
    let mut i: usize = 1;
    while i < n
        invariant
            1 <= i <= n,
            n == terms@.len(),
            r@ == join_terms(views(terms@).take(i as int)),
        decreases n - i,
    {
        proof {
            reveal_strlit(" ");
            let t = views(terms@).take(i + 1);
            assert(t.drop_last() =~= views(terms@).take(i as int));
        }
        r.append(" ");
        r.append(terms[i].as_str());
        i = i + 1;
    }
    assert(views(terms@).take(n as int) =~= views(terms@));
    r
}

} // verus!
