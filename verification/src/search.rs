//! Deterministic lexical retrieval over compiled evidence.
use vstd::prelude::*;

use crate::evidence::{evidence_views, CompiledSource, Evidence, EvidenceView};
use crate::text::{
    chars_eq, chars_of, contains, contains_chars, insert_ascending, join_with_spaces, join_words,
    lemma_ascending_unique, runs, runs_state, seqs_of, split_runs, string_of, strictly_ascending, tokenise,
    tokens,
};

verus! {

/// A lexical query with its result limit and optional timestamp bounds.
#[derive(Clone, Debug, PartialEq, Eq)]
pub struct SearchQuery {
    pub text: String,
    pub limit: usize,
    pub start_ms: Option<u64>,
    pub end_ms: Option<u64>,
}

impl SearchQuery {
    /// A query for `text` returning at most five moments from the whole source.
    pub fn new(text: String) -> (q: SearchQuery)
        ensures
            q.text@ == text@,
            q.limit == 5,
            q.start_ms is None,
            q.end_ms is None,
    {
        SearchQuery { text, limit: 5, start_ms: None, end_ms: None }
    }
}

/// One ranked moment: the evidence it points at, its score and the query
/// terms it contains.
#[derive(Clone, Debug, PartialEq, Eq)]
pub struct RetrievedEvidence<'a> {
    pub evidence: &'a Evidence,
    pub score: u32,
    pub matched_terms: Vec<String>,
}

#[derive(Clone, Copy, Debug, PartialEq, Eq, Structural)]
pub enum SearchError {
    EmptyQuery,
    ZeroLimit,
    InvalidTimestampRange,
}

/// The most distinct terms a query may hold: one more could lift a score
/// (130 per matched term, plus 75 and 200) past `u32::MAX`.
pub const MAX_QUERY_TERMS: usize = 33_038_207;

/// Whether a query is small enough to be scored.
pub fn query_within_bounds(query: &SearchQuery) -> (r: bool)
    ensures
        r == (searchable_terms(query.text@).len() <= MAX_QUERY_TERMS),
{
    query_terms(query.text.as_str()).len() <= MAX_QUERY_TERMS
}

/// The words that a query never searches for.
pub open spec fn stopword_list() -> Seq<&'static str> {
    seq![
        "a", "an", "and", "are", "did", "do", "does", "for", "from", "how", "i", "in", "is", "it",
        "of", "on", "the", "this", "to", "was", "what", "when", "where", "why", "with",
    ]
}

pub open spec fn is_stopword(term: Seq<char>) -> bool {
    exists|k: int| 0 <= k < stopword_list().len() && term == (#[trigger] stopword_list()[k])@
}

/// The set of a text's tokens that are not stopwords.
pub open spec fn content_terms(text: Seq<char>) -> Set<Seq<char>> {
    tokens(text).to_set().filter(|t: Seq<char>| !is_stopword(t))
}

/// The distinct searchable terms of a query, in ascending order.
pub open spec fn searchable_terms(text: Seq<char>) -> Seq<Seq<char>> {
    choose|r: Seq<Seq<char>>| strictly_ascending(r) && r.to_set() == content_terms(text)
}

/// The query as one normalised phrase: its tokens joined by single spaces.
pub open spec fn normalised_phrase(text: Seq<char>) -> Seq<char> {
    join_words(tokens(text))
}

/// How many times `q` occurs in `ts`.
pub open spec fn count_of(ts: Seq<Seq<char>>, q: Seq<char>) -> nat
    decreases ts.len(),
{
    if ts.len() == 0 {
        0
    } else {
        count_of(ts.drop_last(), q) + if ts.last() == q {
            1nat
        } else {
            0nat
        }
    }
}

/// A term's contribution: 100 when present, plus 10 per occurrence up to three.
pub open spec fn term_score(ts: Seq<Seq<char>>, q: Seq<char>) -> int {
    let f = count_of(ts, q);
    if f > 0 {
        100 + 10 * (if f < 3 {
            f as int
        } else {
            3
        })
    } else {
        0
    }
}

pub open spec fn base_score(terms: Seq<Seq<char>>, ts: Seq<Seq<char>>) -> int
    decreases terms.len(),
{
    if terms.len() == 0 {
        0
    } else {
        base_score(terms.drop_last(), ts) + term_score(ts, terms.last())
    }
}

/// The query terms present among the evidence tokens, in query order.
pub open spec fn matched_terms(terms: Seq<Seq<char>>, ts: Seq<Seq<char>>) -> Seq<Seq<char>>
    decreases terms.len(),
{
    if terms.len() == 0 {
        Seq::empty()
    } else {
        let m = matched_terms(terms.drop_last(), ts);
        if count_of(ts, terms.last()) > 0 {
            m.push(terms.last())
        } else {
            m
        }
    }
}

/// At least a third of the query terms (rounded up), and at least one.
pub open spec fn minimum_matches(n: nat) -> nat {
    let third = (n + 2) / 3;
    if third > 1 {
        third as nat
    } else {
        1
    }
}

/// The rank of one evidence text: `None` when too few terms match, else its
/// score and matched terms.
pub open spec fn rank(text: Seq<char>, terms: Seq<Seq<char>>, phrase: Seq<char>) -> Option<
    (int, Seq<Seq<char>>),
> {
    let ts = tokens(text);
    let m = matched_terms(terms, ts);
    if m.len() < minimum_matches(terms.len()) {
        None
    } else {
        let complete = if m.len() == terms.len() {
            75int
        } else {
            0
        };
        let phrased = if runs(phrase, true).len() > 1 && contains_chars(join_words(ts), phrase) {
            200int
        } else {
            0
        };
        Some((base_score(terms, ts) + complete + phrased, m))
    }
}

pub open spec fn within_range(e: EvidenceView, start_ms: Option<u64>, end_ms: Option<u64>) -> bool {
    &&& (start_ms matches Some(s) ==> e.end_ms > s)
    &&& (end_ms matches Some(t) ==> e.start_ms < t)
}

/// A ranked candidate: which evidence, where it starts, its score and terms.
pub struct Hit {
    pub index: int,
    pub start_ms: int,
    pub score: int,
    pub matched: Seq<Seq<char>>,
}

/// The evidence in range that ranks, in source order.
pub open spec fn candidates(
    evs: Seq<EvidenceView>,
    terms: Seq<Seq<char>>,
    phrase: Seq<char>,
    start_ms: Option<u64>,
    end_ms: Option<u64>,
) -> Seq<Hit>
    decreases evs.len(),
{
    if evs.len() == 0 {
        Seq::empty()
    } else {
        let c = candidates(evs.drop_last(), terms, phrase, start_ms, end_ms);
        let e = evs.last();
        if within_range(e, start_ms, end_ms) && rank(e.text, terms, phrase) is Some {
            let (score, m) = rank(e.text, terms, phrase)->0;
            c.push(Hit { index: evs.len() - 1, start_ms: e.start_ms as int, score, matched: m })
        } else {
            c
        }
    }
}

/// `a` ranks strictly before `b`: a higher score, or an equal score and an
/// earlier start.
pub open spec fn ranks_before(a: Hit, b: Hit) -> bool {
    a.score > b.score || (a.score == b.score && a.start_ms < b.start_ms)
}

/// Inserts `h` after every hit that it does not rank before.
pub open spec fn insert_hit(s: Seq<Hit>, h: Hit) -> Seq<Hit>
    decreases s.len(),
{
    if s.len() == 0 {
        seq![h]
    } else if ranks_before(h, s[0]) {
        seq![h] + s
    } else {
        seq![s[0]] + insert_hit(s.drop_first(), h)
    }
}

/// A stable sort of hits by descending score, then ascending start.
pub open spec fn sort_hits(s: Seq<Hit>) -> Seq<Hit>
    decreases s.len(),
{
    if s.len() == 0 {
        Seq::empty()
    } else {
        insert_hit(sort_hits(s.drop_last()), s.last())
    }
}

pub open spec fn min_nat(a: nat, b: nat) -> nat {
    if a < b {
        a
    } else {
        b
    }
}

/// What a search returns for a source and a query.
pub open spec fn search_result(
    evidence: Seq<EvidenceView>,
    text: Seq<char>,
    limit: usize,
    start_ms: Option<u64>,
    end_ms: Option<u64>,
) -> Result<Seq<Hit>, SearchError> {
    if limit == 0 {
        Err(SearchError::ZeroLimit)
    } else if start_ms is Some && end_ms is Some && start_ms->0 >= end_ms->0 {
        Err(SearchError::InvalidTimestampRange)
    } else if searchable_terms(text).len() == 0 {
        Err(SearchError::EmptyQuery)
    } else {
        let ranked = sort_hits(
            candidates(
                evidence,
                searchable_terms(text),
                normalised_phrase(text),
                start_ms,
                end_ms,
            ),
        );
        Ok(ranked.take(min_nat(limit as nat, ranked.len()) as int))
    }
}

/// Whether a retrieved moment is the given hit of the given source.
pub open spec fn retrieved_as(r: RetrievedEvidence, evidence: Seq<Evidence>, h: Hit) -> bool {
    &&& 0 <= h.index < evidence.len()
    &&& *r.evidence == evidence[h.index]
    &&& r.score as int == h.score
    &&& r.matched_terms@.map_values(|t: String| t@) == h.matched
}

fn is_stopword_term(term: &Vec<char>) -> (r: bool)
    ensures
        r == is_stopword(term@),
{
    let words: Vec<&'static str> = vec![
        "a", "an", "and", "are", "did", "do", "does", "for", "from", "how", "i", "in", "is", "it",
        "of", "on", "the", "this", "to", "was", "what", "when", "where", "why", "with",
    ];
    assert(words@ == stopword_list());
    let mut k: usize = 0;
    while k < words.len()
        invariant
            words@ == stopword_list(),
            k <= words.len(),
            forall|j: int| 0 <= j < k ==> term@ != (#[trigger] stopword_list()[j])@,
        decreases words.len() - k,
    {
        let word = chars_of(words[k]);
        if chars_eq(term, &word) {
            assert(term@ == stopword_list()[k as int]@);
            return true;
        }
        k = k + 1;
    }
    false
}

/// The distinct non-stopword tokens of a query, ascending.
fn query_terms(text: &str) -> (r: Vec<Vec<char>>)
    ensures
        seqs_of(r@) == searchable_terms(text@),
        strictly_ascending(searchable_terms(text@)),
        searchable_terms(text@).to_set() == content_terms(text@),
{
    let toks = tokenise(text);
    let ghost all = seqs_of(toks@);
    let mut r: Vec<Vec<char>> = Vec::new();
    let mut i: usize = 0;
    assert(seqs_of(r@).to_set() =~= all.take(0).to_set().filter(|t: Seq<char>| !is_stopword(t)));
    while i < toks.len()
        invariant
            i <= toks.len(),
            all == seqs_of(toks@),
            all == tokens(text@),
            strictly_ascending(seqs_of(r@)),
            seqs_of(r@).to_set() == all.take(i as int).to_set().filter(
                |t: Seq<char>| !is_stopword(t),
            ),
        decreases toks.len() - i,
    {
        let t = &toks[i];
        assert(all[i as int] == t@);
        assert(all.take(i + 1).to_set() =~= all.take(i as int).to_set().insert(t@)) by {
            assert(all.take(i + 1) =~= all.take(i as int).push(t@));
            all.take(i as int).lemma_push_to_set_commute(t@);
        }
        if !is_stopword_term(t) {
            let copy = crate::text::copy_chars(t);
            insert_ascending(&mut r, copy);
            assert(seqs_of(r@).to_set() =~= all.take(i + 1).to_set().filter(
                |x: Seq<char>| !is_stopword(x),
            ));
        } else {
            assert(seqs_of(r@).to_set() =~= all.take(i + 1).to_set().filter(
                |x: Seq<char>| !is_stopword(x),
            ));
        }
        i = i + 1;
    }
    assert(all.take(toks.len() as int) == all);
    proof {
        let target = content_terms(text@);
        assert(seqs_of(r@).to_set() == target);
        let chosen = searchable_terms(text@);
        assert(strictly_ascending(chosen) && chosen.to_set() == target);
        lemma_ascending_unique(seqs_of(r@), chosen);
    }
    r
}


proof fn lemma_term_score_bounds(ts: Seq<Seq<char>>, q: Seq<char>)
    ensures
        0 <= term_score(ts, q) <= 130,
{
}

proof fn lemma_base_score_bounds(terms: Seq<Seq<char>>, ts: Seq<Seq<char>>)
    ensures
        0 <= base_score(terms, ts) <= 130 * terms.len(),
    decreases terms.len(),
{
    if terms.len() > 0 {
        lemma_base_score_bounds(terms.drop_last(), ts);
        lemma_term_score_bounds(ts, terms.last());
    }
}

proof fn lemma_matched_len(terms: Seq<Seq<char>>, ts: Seq<Seq<char>>)
    ensures
        matched_terms(terms, ts).len() <= terms.len(),
    decreases terms.len(),
{
    if terms.len() > 0 {
        lemma_matched_len(terms.drop_last(), ts);
    }
}

/// How many times `q` occurs among the tokens.
fn count_in(ts: &Vec<Vec<char>>, q: &Vec<char>) -> (n: usize)
    ensures
        n == count_of(seqs_of(ts@), q@),
{
    let ghost all = seqs_of(ts@);
    let mut n: usize = 0;
    let mut j: usize = 0;
    while j < ts.len()
        invariant
            j <= ts.len(),
            all == seqs_of(ts@),
            n == count_of(all.take(j as int), q@),
            n <= j,
        decreases ts.len() - j,
    {
        assert(all.take(j + 1).drop_last() =~= all.take(j as int));
        assert(all[j as int] == ts@[j as int]@);
        if chars_eq(&ts[j], q) {
            n = n + 1;
        }
        j = j + 1;
    }
    assert(all.take(ts.len() as int) =~= all);
    n
}

/// Ranks one evidence text against the query terms and phrase.
fn rank_evidence(text: &str, terms: &Vec<Vec<char>>, phrase: &Vec<char>, phrase_words: usize) -> (r:
    Option<(u32, Vec<Vec<char>>)>)
    requires
        terms@.len() <= MAX_QUERY_TERMS,
        phrase_words == runs(phrase@, true).len(),
    ensures
        r is None <==> rank(text@, seqs_of(terms@), phrase@) is None,
        r matches Some((score, m)) ==> rank(text@, seqs_of(terms@), phrase@) == Some(
            (score as int, seqs_of(m@)),
        ),
{
    let ev_tokens = tokenise(text);
    let ghost ts = tokens(text@);
    let ghost qs = seqs_of(terms@);
    let mut matched: Vec<Vec<char>> = Vec::new();
    let mut score: u32 = 0;
    let mut i: usize = 0;
    while i < terms.len()
        invariant
            i <= terms.len(),
            terms@.len() <= MAX_QUERY_TERMS,
            ts == seqs_of(ev_tokens@),
            qs == seqs_of(terms@),
            score as int == base_score(qs.take(i as int), ts),
            seqs_of(matched@) == matched_terms(qs.take(i as int), ts),
        decreases terms.len() - i,
    {
        let q = &terms[i];
        assert(qs.take(i + 1).drop_last() =~= qs.take(i as int));
        assert(qs.take(i + 1).last() == q@);
        proof {
            lemma_base_score_bounds(qs.take(i as int), ts);
        }
        let frequency = count_in(&ev_tokens, q);
        if frequency > 0 {
            let ghost before = matched@;
            let copy = crate::text::copy_chars(q);
            matched.push(copy);
            assert(seqs_of(matched@) =~= seqs_of(before).push(q@));
            let capped: u32 = if frequency < 3 {
                frequency as u32
            } else {
                3
            };
            score = score + 100 + capped * 10;
        }
        i = i + 1;
    }
    assert(qs.take(terms.len() as int) =~= qs);
    proof {
        lemma_base_score_bounds(qs, ts);
        lemma_matched_len(qs, ts);
    }
    let third = (terms.len() + 2) / 3;
    let minimum = if third > 1 {
        third
    } else {
        1
    };
    if matched.len() < minimum {
        return None;
    }
    if matched.len() == terms.len() {
        score = score + 75;
    }
    if phrase_words > 1 {
        let evidence_phrase = join_with_spaces(&ev_tokens);
        if contains(&evidence_phrase, phrase) {
            score = score + 200;
        }
    }
    Some((score, matched))
}

/// A ranked candidate held during retrieval.
struct Ranked {
    index: usize,
    start_ms: u64,
    score: u32,
    matched: Vec<Vec<char>>,
}

spec fn hit_of(r: Ranked) -> Hit {
    Hit {
        index: r.index as int,
        start_ms: r.start_ms as int,
        score: r.score as int,
        matched: seqs_of(r.matched@),
    }
}

spec fn hits_of(v: Seq<Ranked>) -> Seq<Hit> {
    v.map_values(|r: Ranked| hit_of(r))
}

/// Inserting at the first hit that `h` ranks before is `insert_hit`.
proof fn lemma_insert_hit_at(s: Seq<Hit>, h: Hit, p: int)
    requires
        0 <= p <= s.len(),
        forall|k: int| 0 <= k < p ==> !ranks_before(h, #[trigger] s[k]),
        p < s.len() ==> ranks_before(h, s[p]),
    ensures
        insert_hit(s, h) == s.insert(p, h),
    decreases s.len(),
{
    if s.len() == 0 {
        assert(s.insert(p, h) =~= seq![h]);
    } else if p == 0 {
        assert(s.insert(p, h) =~= seq![h] + s);
    } else {
        let t = s.drop_first();
        assert forall|k: int| 0 <= k < p - 1 implies !ranks_before(h, #[trigger] t[k]) by {
            assert(t[k] == s[k + 1]);
        }
        lemma_insert_hit_at(t, h, p - 1);
        assert(s.insert(p, h) =~= seq![s[0]] + t.insert(p - 1, h));
    }
}

fn ranks_before_exec(a: &Ranked, b: &Ranked) -> (r: bool)
    ensures
        r == ranks_before(hit_of(*a), hit_of(*b)),
{
    a.score > b.score || (a.score == b.score && a.start_ms < b.start_ms)
}

/// Inserts a candidate after every candidate it does not rank before.
fn insert_ranked(v: &mut Vec<Ranked>, h: Ranked)
    ensures
        hits_of(final(v)@) == insert_hit(hits_of(old(v)@), hit_of(h)),
        final(v)@.len() == old(v)@.len() + 1,
        forall|k: int|
            0 <= k < final(v)@.len() ==> (#[trigger] final(v)@[k]).index == h.index || exists|
                j: int,
            | 0 <= j < old(v)@.len() && old(v)@[j].index == final(v)@[k].index,
{
    let ghost hs = hits_of(v@);
    let mut p: usize = 0;
    while p < v.len() && !ranks_before_exec(&h, &v[p])
        invariant
            p <= v.len(),
            hs == hits_of(v@),
            forall|k: int| 0 <= k < p ==> !ranks_before(hit_of(h), #[trigger] hs[k]),
        decreases v.len() - p,
    {
        p = p + 1;
    }
    proof {
        lemma_insert_hit_at(hs, hit_of(h), p as int);
    }
    let ghost hh = hit_of(h);
    let ghost hi = h.index;
    let ghost ov = v@;
    v.insert(p, h);
    assert(hits_of(v@) =~= hs.insert(p as int, hh));
    assert forall|k: int| 0 <= k < v@.len() implies (#[trigger] v@[k]).index == hi || exists|
        j: int,
    | 0 <= j < ov.len() && ov[j].index == v@[k].index by {
        if k < p {
            assert(ov[k].index == v@[k].index);
        } else if k > p {
            assert(ov[k - 1].index == v@[k].index);
        }
    }
}

/// Retrieves timestamped transcript evidence using deterministic lexical ranking.
///
/// Evidence qualifies when it lies within the timestamp bounds and contains
/// at least a third of the query's distinct non-stopword terms. Results are
/// ordered by descending score, then by start time, then by source order,
/// and cut to the query's limit.
pub fn search<'a>(source: &'a CompiledSource, query: &SearchQuery) -> (r: Result<
    Vec<RetrievedEvidence<'a>>,
    SearchError,
>)
    requires
        searchable_terms(query.text@).len() <= MAX_QUERY_TERMS,
    ensures
        match search_result(
            evidence_views(source.evidence@),
            query.text@,
            query.limit,
            query.start_ms,
            query.end_ms,
        ) {
            Err(e) => r == Err::<Vec<RetrievedEvidence<'a>>, SearchError>(e),
            Ok(hits) => r matches Ok(v) && v@.len() == hits.len() && forall|k: int|
                0 <= k < hits.len() ==> retrieved_as(#[trigger] v@[k], source.evidence@, hits[k]),
        },
{
    if query.limit == 0 {
        return Err(SearchError::ZeroLimit);
    }
    if let (Some(start), Some(end)) = (query.start_ms, query.end_ms) {
        if start >= end {
            return Err(SearchError::InvalidTimestampRange);
        }
    }
    let terms = query_terms(query.text.as_str());
    if terms.len() == 0 {
        return Err(SearchError::EmptyQuery);
    }
    let phrase = join_with_spaces(&tokenise(query.text.as_str()));
    let phrase_chars = phrase.clone();
    let phrase_words = split_runs(&phrase_chars, true).len();
    let ghost evs = evidence_views(source.evidence@);
    let ghost qs = seqs_of(terms@);
    let mut ranked: Vec<Ranked> = Vec::new();
    let mut i: usize = 0;
    while i < source.evidence.len()
        invariant
            i <= source.evidence.len(),
            evs == evidence_views(source.evidence@),
            qs == seqs_of(terms@),
            qs == searchable_terms(query.text@),
            terms@.len() <= MAX_QUERY_TERMS,
            phrase@ == normalised_phrase(query.text@),
            phrase_words == runs(phrase@, true).len(),
            hits_of(ranked@) == sort_hits(
                candidates(evs.take(i as int), qs, phrase@, query.start_ms, query.end_ms),
            ),
            forall|k: int| 0 <= k < ranked@.len() ==> (#[trigger] ranked@[k]).index < i,
        decreases source.evidence.len() - i,
    {
        let e = &source.evidence[i];
        assert(evs.take(i + 1).drop_last() =~= evs.take(i as int));
        assert(evs.take(i + 1).last() == e@);
        let in_range = match query.start_ms {
            Some(start) => e.end_ms > start,
            None => true,
        } && match query.end_ms {
            Some(end) => e.start_ms < end,
            None => true,
        };
        let ghost c_prev = candidates(evs.take(i as int), qs, phrase@, query.start_ms, query.end_ms);
        let ghost c_next = candidates(evs.take(i + 1), qs, phrase@, query.start_ms, query.end_ms);
        assert(in_range == within_range(e@, query.start_ms, query.end_ms));
        if !in_range {
            assert(c_next == c_prev);
        }
        if in_range {
            let ranking = rank_evidence(e.text.as_str(), &terms, &phrase, phrase_words);
            if ranking.is_none() {
                assert(c_next == c_prev);
            }
            if let Some((score, matched)) = ranking {
                let h = Ranked { index: i, start_ms: e.start_ms, score, matched };
                let ghost prev = ranked@;
                proof {
                    let hh = hit_of(h);
                    assert(c_next == c_prev.push(hh));
                    assert(c_prev.push(hh).drop_last() =~= c_prev);
                    assert(sort_hits(c_next) == insert_hit(sort_hits(c_prev), hh));
                }
                insert_ranked(&mut ranked, h);
                assert forall|k: int| 0 <= k < ranked@.len() implies (#[trigger] ranked@[k]).index
                    < i + 1 by {
                    if ranked@[k].index != i {
                        let j = choose|j: int|
                            0 <= j < prev.len() && prev[j].index == ranked@[k].index;
                        assert(prev[j].index < i);
                    }
                }
            }
        }
        i = i + 1;
    }
    assert(evs.take(source.evidence.len() as int) =~= evs);
    let ghost all_hits = hits_of(ranked@);
    let count = if query.limit < ranked.len() {
        query.limit
    } else {
        ranked.len()
    };
    let mut out: Vec<RetrievedEvidence<'a>> = Vec::new();
    let mut k: usize = 0;
    while k < count
        invariant
            k <= count,
            count <= ranked@.len(),
            all_hits == hits_of(ranked@),
            ranked@.len() == all_hits.len(),
            forall|j: int| 0 <= j < ranked@.len() ==> (#[trigger] ranked@[j]).index
                < source.evidence@.len(),
            out@.len() == k,
            forall|j: int|
                0 <= j < k ==> retrieved_as(#[trigger] out@[j], source.evidence@, all_hits[j]),
        decreases count - k,
    {
        let item = &ranked[k];
        let mut names: Vec<String> = Vec::new();
        let mut t: usize = 0;
        while t < item.matched.len()
            invariant
                t <= item.matched@.len(),
                names@.map_values(|n: String| n@) == seqs_of(item.matched@).take(t as int),
            decreases item.matched.len() - t,
        {
            let ghost before = names@;
            names.push(string_of(&item.matched[t]));
            assert(names@.map_values(|n: String| n@) =~= before.map_values(|n: String| n@).push(
                item.matched@[t as int]@,
            ));
            assert(seqs_of(item.matched@).take(t + 1) =~= seqs_of(item.matched@).take(
                t as int,
            ).push(item.matched@[t as int]@));
            t = t + 1;
        }
        assert(seqs_of(item.matched@).take(item.matched.len() as int) =~= seqs_of(item.matched@));
        let found = RetrievedEvidence {
            evidence: &source.evidence[item.index],
            score: item.score,
            matched_terms: names,
        };
        assert(all_hits[k as int] == hit_of(ranked@[k as int]));
        out.push(found);
        k = k + 1;
    }
    Ok(out)
}

/// Hits in rank order: no hit ranks before one that precedes it.
pub open spec fn in_rank_order(s: Seq<Hit>) -> bool {
    forall|i: int, j: int| 0 <= i < j < s.len() ==> !ranks_before(#[trigger] s[j], #[trigger] s[i])
}

proof fn lemma_ranks_before_transitive(a: Hit, b: Hit, c: Hit)
    requires
        ranks_before(a, b),
        ranks_before(b, c),
    ensures
        ranks_before(a, c),
{
}

proof fn lemma_insert_hit_contents(s: Seq<Hit>, h: Hit)
    ensures
        insert_hit(s, h).len() == s.len() + 1,
        forall|x: Hit| #[trigger] insert_hit(s, h).contains(x) ==> x == h || s.contains(x),
        insert_hit(s, h).contains(h),
    decreases s.len(),
{
    if s.len() == 0 {
        assert(insert_hit(s, h) =~= seq![h]);
        assert(insert_hit(s, h)[0] == h);
    } else if ranks_before(h, s[0]) {
        assert forall|x: Hit| #[trigger] insert_hit(s, h).contains(x) implies x == h || s.contains(
            x,
        ) by {
            let k = choose|k: int| 0 <= k < insert_hit(s, h).len() && insert_hit(s, h)[k] == x;
            if k > 0 {
                assert(s[k - 1] == x);
            }
        }
        assert(insert_hit(s, h)[0] == h);
    } else {
        let t = s.drop_first();
        lemma_insert_hit_contents(t, h);
        let r = insert_hit(s, h);
        assert(r == seq![s[0]] + insert_hit(t, h));
        assert forall|x: Hit| #[trigger] r.contains(x) implies x == h || s.contains(x) by {
            let k = choose|k: int| 0 <= k < r.len() && r[k] == x;
            if k == 0 {
                assert(s[0] == x);
            } else {
                assert(insert_hit(t, h)[k - 1] == x);
                assert(insert_hit(t, h).contains(x));
                if x != h {
                    let m = choose|m: int| 0 <= m < t.len() && t[m] == x;
                    assert(s[m + 1] == x);
                }
            }
        }
        let m = choose|m: int| 0 <= m < insert_hit(t, h).len() && insert_hit(t, h)[m] == h;
        assert(r[m + 1] == h);
    }
}

proof fn lemma_insert_hit_ordered(s: Seq<Hit>, h: Hit)
    requires
        in_rank_order(s),
    ensures
        in_rank_order(insert_hit(s, h)),
    decreases s.len(),
{
    let r = insert_hit(s, h);
    if s.len() == 0 {
        assert(r =~= seq![h]);
    } else if ranks_before(h, s[0]) {
        assert(r == seq![h] + s);
        assert forall|i: int, j: int| 0 <= i < j < r.len() implies !ranks_before(
            #[trigger] r[j],
            #[trigger] r[i],
        ) by {
            if i == 0 {
                assert(r[j] == s[j - 1]);
                if ranks_before(s[j - 1], h) {
                    lemma_ranks_before_transitive(s[j - 1], h, s[0]);
                }
            } else {
                assert(r[i] == s[i - 1]);
                assert(r[j] == s[j - 1]);
            }
        }
    } else {
        let t = s.drop_first();
        assert(in_rank_order(t)) by {
            assert forall|i: int, j: int| 0 <= i < j < t.len() implies !ranks_before(
                #[trigger] t[j],
                #[trigger] t[i],
            ) by {
                assert(t[i] == s[i + 1]);
                assert(t[j] == s[j + 1]);
            }
        }
        lemma_insert_hit_ordered(t, h);
        lemma_insert_hit_contents(t, h);
        let rest = insert_hit(t, h);
        assert(r == seq![s[0]] + rest);
        assert forall|i: int, j: int| 0 <= i < j < r.len() implies !ranks_before(
            #[trigger] r[j],
            #[trigger] r[i],
        ) by {
            if i == 0 {
                assert(r[j] == rest[j - 1]);
                assert(rest.contains(rest[j - 1]));
                if rest[j - 1] != h {
                    let m = choose|m: int| 0 <= m < t.len() && t[m] == rest[j - 1];
                    assert(s[m + 1] == rest[j - 1]);
                }
            } else {
                assert(r[i] == rest[i - 1]);
                assert(r[j] == rest[j - 1]);
            }
        }
    }
}

proof fn lemma_sort_hits(s: Seq<Hit>)
    ensures
        in_rank_order(sort_hits(s)),
        sort_hits(s).len() == s.len(),
        forall|x: Hit| #[trigger] sort_hits(s).contains(x) ==> s.contains(x),
    decreases s.len(),
{
    if s.len() > 0 {
        let p = s.drop_last();
        lemma_sort_hits(p);
        lemma_insert_hit_ordered(sort_hits(p), s.last());
        lemma_insert_hit_contents(sort_hits(p), s.last());
        assert forall|x: Hit| #[trigger] sort_hits(s).contains(x) implies s.contains(x) by {
            if x != s.last() {
                assert(sort_hits(p).contains(x));
                let m = choose|m: int| 0 <= m < p.len() && p[m] == x;
                assert(s[m] == x);
            } else {
                assert(s[s.len() - 1] == x);
            }
        }
    }
}

proof fn lemma_candidates_qualify(
    evs: Seq<EvidenceView>,
    terms: Seq<Seq<char>>,
    phrase: Seq<char>,
    start_ms: Option<u64>,
    end_ms: Option<u64>,
)
    ensures
        forall|x: Hit| #[trigger]
            candidates(evs, terms, phrase, start_ms, end_ms).contains(x) ==> 0 <= x.index
                < evs.len() && x.start_ms == evs[x.index].start_ms && within_range(
                evs[x.index],
                start_ms,
                end_ms,
            ) && rank(evs[x.index].text, terms, phrase) == Some((x.score, x.matched)),
    decreases evs.len(),
{
    if evs.len() > 0 {
        let p = evs.drop_last();
        lemma_candidates_qualify(p, terms, phrase, start_ms, end_ms);
        let c = candidates(evs, terms, phrase, start_ms, end_ms);
        let cp = candidates(p, terms, phrase, start_ms, end_ms);
        assert forall|x: Hit| #[trigger] c.contains(x) implies 0 <= x.index < evs.len() && x.start_ms
            == evs[x.index].start_ms && within_range(evs[x.index], start_ms, end_ms) && rank(
            evs[x.index].text,
            terms,
            phrase,
        ) == Some((x.score, x.matched)) by {
            let k = choose|k: int| 0 <= k < c.len() && c[k] == x;
            if k < cp.len() {
                assert(cp[k] == x);
                assert(cp.contains(x));
                assert(evs[x.index] == p[x.index]);
            }
        }
    }
}

/// A query of more than one word scores its exact phrase: an evidence text
/// that ranks scores its term scores, 75 more when it matches every query
/// term, and exactly 200 more again when its normalised words contain the
/// query's normalised phrase. So of two texts with the same term scores and
/// matches, the one holding the phrase ranks 200 higher.
pub proof fn law_exact_phrase_scores_higher(query: Seq<char>, with_phrase: Seq<char>, without: Seq<char>)
    requires
        runs(normalised_phrase(query), true).len() > 1,
        contains_chars(join_words(tokens(with_phrase)), normalised_phrase(query)),
        !contains_chars(join_words(tokens(without)), normalised_phrase(query)),
        rank(with_phrase, searchable_terms(query), normalised_phrase(query)) is Some,
        rank(without, searchable_terms(query), normalised_phrase(query)) is Some,
    ensures
        ({
            let terms = searchable_terms(query);
            let phrase = normalised_phrase(query);
            let (a, ma) = rank(with_phrase, terms, phrase)->0;
            let (b, mb) = rank(without, terms, phrase)->0;
            &&& a == base_score(terms, tokens(with_phrase)) + (if ma.len() == terms.len() {
                75int
            } else {
                0
            }) + 200
            &&& b == base_score(terms, tokens(without)) + (if mb.len() == terms.len() {
                75int
            } else {
                0
            })
            &&& (base_score(terms, tokens(with_phrase)) == base_score(terms, tokens(without))
                && ma.len() == mb.len() ==> a == b + 200)
        }),
{
}

/// A search never returns more moments than its limit.
pub proof fn law_results_within_limit(
    evidence: Seq<EvidenceView>,
    text: Seq<char>,
    limit: usize,
    start_ms: Option<u64>,
    end_ms: Option<u64>,
)
    requires
        search_result(evidence, text, limit, start_ms, end_ms) is Ok,
    ensures
        match search_result(evidence, text, limit, start_ms, end_ms) {
            Ok(hits) => hits.len() <= limit,
            Err(_) => false,
        },
{
}

/// Search results come in rank order: by descending score, then by
/// ascending start time.
pub proof fn law_results_in_rank_order(
    evidence: Seq<EvidenceView>,
    text: Seq<char>,
    limit: usize,
    start_ms: Option<u64>,
    end_ms: Option<u64>,
)
    requires
        search_result(evidence, text, limit, start_ms, end_ms) is Ok,
    ensures
        match search_result(evidence, text, limit, start_ms, end_ms) {
            Ok(hits) => in_rank_order(hits),
            Err(_) => false,
        },
{
    let c = candidates(
        evidence,
        searchable_terms(text),
        normalised_phrase(text),
        start_ms,
        end_ms,
    );
    lemma_sort_hits(c);
}

/// Every returned moment lies within the timestamp bounds, contains at
/// least a third of the distinct query terms, and carries exactly the
/// rank of its evidence text.
pub proof fn law_results_qualify(
    evidence: Seq<EvidenceView>,
    text: Seq<char>,
    limit: usize,
    start_ms: Option<u64>,
    end_ms: Option<u64>,
)
    requires
        search_result(evidence, text, limit, start_ms, end_ms) is Ok,
    ensures
        match search_result(evidence, text, limit, start_ms, end_ms) {
            Ok(hits) => forall|k: int|
                0 <= k < hits.len() ==> {
                    let h = #[trigger] hits[k];
                    &&& 0 <= h.index < evidence.len()
                    &&& within_range(evidence[h.index], start_ms, end_ms)
                    &&& h.matched.len() >= minimum_matches(searchable_terms(text).len())
                    &&& rank(evidence[h.index].text, searchable_terms(text), normalised_phrase(text))
                        == Some((h.score, h.matched))
                },
            Err(_) => false,
        },
{
    let terms = searchable_terms(text);
    let phrase = normalised_phrase(text);
    let c = candidates(evidence, terms, phrase, start_ms, end_ms);
    lemma_sort_hits(c);
    lemma_candidates_qualify(evidence, terms, phrase, start_ms, end_ms);
    let sorted = sort_hits(c);
    match search_result(evidence, text, limit, start_ms, end_ms) {
        Ok(hits) => {
            assert forall|k: int| 0 <= k < hits.len() implies {
                let h = #[trigger] hits[k];
                &&& 0 <= h.index < evidence.len()
                &&& within_range(evidence[h.index], start_ms, end_ms)
                &&& h.matched.len() >= minimum_matches(terms.len())
                &&& rank(evidence[h.index].text, terms, phrase) == Some((h.score, h.matched))
            } by {
                assert(hits[k] == sorted[k]);
                assert(sorted.contains(sorted[k]));
                assert(c.contains(hits[k]));
            }
        },
        Err(_) => {},
    }
}


/// The reader-facing text of a search error.
pub open spec fn search_error_text(e: SearchError) -> Seq<char> {
    match e {
        SearchError::EmptyQuery => "the search query contains no searchable terms"@,
        SearchError::ZeroLimit => "the search result limit must be greater than zero"@,
        SearchError::InvalidTimestampRange => "the search timestamp range is invalid"@,
    }
}

impl SearchError {
    /// What went wrong, for a reader.
    pub fn message(&self) -> (r: String)
        ensures
            r@ == search_error_text(*self),
    {
        match self {
            SearchError::EmptyQuery => "the search query contains no searchable terms".to_owned(),
            SearchError::ZeroLimit => "the search result limit must be greater than zero".to_owned(),
            SearchError::InvalidTimestampRange => "the search timestamp range is invalid".to_owned(),
        }
    }
}

} // verus!
