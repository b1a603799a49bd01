//! Source identity: resolving a supported URL to one canonical source.
use vstd::prelude::*;

use crate::text::{chars_eq, chars_of, copy_chars, is_whitespace, is_whitespace_char, string_of};

verus! {

#[derive(Clone, Copy, Debug, PartialEq, Eq, Structural)]
pub enum SourceProvider {
    YouTube,
}

#[derive(Clone, Debug, PartialEq, Eq)]
pub struct CanonicalSource {
    pub provider: SourceProvider,
    pub source_id: String,
    pub canonical_url: String,
}

pub struct CanonicalSourceView {
    pub provider: SourceProvider,
    pub source_id: Seq<char>,
    pub canonical_url: Seq<char>,
}

impl View for CanonicalSource {
    type V = CanonicalSourceView;

    open spec fn view(&self) -> CanonicalSourceView {
        CanonicalSourceView {
            provider: self.provider,
            source_id: self.source_id@,
            canonical_url: self.canonical_url@,
        }
    }
}

impl CanonicalSource {
    /// A field-by-field copy.
    pub fn duplicate(&self) -> (r: CanonicalSource)
        ensures
            r@ == self@,
    {
        CanonicalSource {
            provider: self.provider,
            source_id: self.source_id.clone(),
            canonical_url: self.canonical_url.clone(),
        }
    }

    /// Whether two identities are the same.
    pub fn same_as(&self, other: &CanonicalSource) -> (r: bool)
        ensures
            r == (self@ == other@),
    {
        self.provider == other.provider && self.source_id == other.source_id
            && self.canonical_url == other.canonical_url
    }
}

#[derive(Clone, Copy, Debug, PartialEq, Eq, Structural)]
pub enum SourceError {
    MalformedUrl,
    UnsupportedSource,
    MissingVideoId,
}


broadcast use vstd::string::group_string_axioms;

/// The index of the first character of `s` that belongs to `set`.
pub open spec fn first_in(s: Seq<char>, set: Seq<char>) -> Option<int>
    decreases s.len(),
{
    if s.len() == 0 {
        None
    } else if set.contains(s[0]) {
        Some(0)
    } else {
        match first_in(s.drop_first(), set) {
            Some(i) => Some(i + 1),
            None => None,
        }
    }
}

proof fn lemma_first_in(s: Seq<char>, set: Seq<char>, i: int)
    requires
        0 <= i <= s.len(),
        forall|k: int| 0 <= k < i ==> !set.contains(#[trigger] s[k]),
    ensures
        i < s.len() && set.contains(s[i]) ==> first_in(s, set) == Some(i),
        i == s.len() ==> first_in(s, set) is None,
    decreases i,
{
    if i > 0 {
        let t = s.drop_first();
        assert forall|k: int| 0 <= k < i - 1 implies !set.contains(#[trigger] t[k]) by {
            assert(t[k] == s[k + 1]);
        }
        lemma_first_in(t, set, i - 1);
    }
}

/// The first index of a character of `set` in `s`.
fn find_any(s: &[char], set: &[char]) -> (r: Option<usize>)
    ensures
        match r {
            Some(k) => first_in(s@, set@) == Some(k as int) && k < s.len(),
            None => first_in(s@, set@) is None,
        },
{
    let mut i: usize = 0;
    while i < s.len()
        invariant
            i <= s.len(),
            forall|k: int| 0 <= k < i ==> !set@.contains(#[trigger] s@[k]),
        decreases s.len() - i,
    {
        let mut j: usize = 0;
        let mut hit = false;
        while j < set.len()
            invariant
                j <= set.len(),
                i < s.len(),
                hit == (exists|m: int| 0 <= m < j && set@[m] == s@[i as int]),
            decreases set.len() - j,
        {
            if set[j] == s[i] {
                hit = true;
            }
            j = j + 1;
        }
        if hit {
            proof {
                lemma_first_in(s@, set@, i as int);
            }
            return Some(i);
        }
        i = i + 1;
    }
    proof {
        lemma_first_in(s@, set@, s.len() as int);
    }
    None
}

/// The characters of `v` from `a` up to `b`.
fn slice_of(v: &[char], a: usize, b: usize) -> (r: Vec<char>)
    requires
        a <= b <= v.len(),
    ensures
        r@ == v@.subrange(a as int, b as int),
{
    let mut r: Vec<char> = Vec::new();
    let mut i = a;
    while i < b
        invariant
            a <= i <= b,
            b <= v.len(),
            r@ == v@.subrange(a as int, i as int),
        decreases b - i,
    {
        r.push(v[i]);
        i = i + 1;
        assert(r@ =~= v@.subrange(a as int, i as int));
    }
    r
}

/// `s` without leading whitespace (`str::trim_start`).
pub open spec fn trim_start(s: Seq<char>) -> Seq<char>
    decreases s.len(),
{
    if s.len() > 0 && is_whitespace_char(s[0]) {
        trim_start(s.drop_first())
    } else {
        s
    }
}

/// `s` without trailing whitespace (`str::trim_end`).
pub open spec fn trim_end(s: Seq<char>) -> Seq<char>
    decreases s.len(),
{
    if s.len() > 0 && is_whitespace_char(s.last()) {
        trim_end(s.drop_last())
    } else {
        s
    }
}

/// `s` without leading or trailing whitespace (`str::trim`).
pub open spec fn trim(s: Seq<char>) -> Seq<char> {
    trim_end(trim_start(s))
}

pub fn trimmed(s: &[char]) -> (r: Vec<char>)
    ensures
        r@ == trim(s@),
{
    let mut a: usize = 0;
    assert(s@.subrange(0, s.len() as int) =~= s@);
    while a < s.len() && is_whitespace(s[a])
        invariant
            a <= s.len(),
            trim_start(s@) == trim_start(s@.subrange(a as int, s.len() as int)),
        decreases s.len() - a,
    {
        assert(s@.subrange(a as int, s.len() as int).drop_first() =~= s@.subrange(
            a + 1,
            s.len() as int,
        ));
        a = a + 1;
    }
    let ghost front = s@.subrange(a as int, s.len() as int);
    assert(trim_start(s@) == front);
    let mut b: usize = s.len();
    assert(front.subrange(0, (b - a) as int) =~= front);
    while b > a && is_whitespace(s[b - 1])
        invariant
            a <= b <= s.len(),
            front == s@.subrange(a as int, s.len() as int),
            trim_end(front) == trim_end(s@.subrange(a as int, b as int)),
        decreases b,
    {
        assert(s@.subrange(a as int, b as int).drop_last() =~= s@.subrange(a as int, b - 1));
        b = b - 1;
    }
    slice_of(s, a, b)
}

/// ASCII uppercase letters lowered, everything else unchanged
/// (`str::to_ascii_lowercase`).
pub open spec fn ascii_lower_char(c: char) -> char {
    if 'A' <= c <= 'Z' {
        (((c as u8) + 32) as u8) as char
    } else {
        c
    }
}

pub open spec fn ascii_lower(s: Seq<char>) -> Seq<char> {
    s.map_values(|c: char| ascii_lower_char(c))
}

fn lower_ascii(s: &[char]) -> (r: Vec<char>)
    ensures
        r@ == ascii_lower(s@),
{
    let mut r: Vec<char> = Vec::new();
    let mut i: usize = 0;
    while i < s.len()
        invariant
            i <= s.len(),
            r@ == ascii_lower(s@.take(i as int)),
        decreases s.len() - i,
    {
        let c = s[i];
        let l = if 'A' <= c && c <= 'Z' {
            ((c as u8) + 32) as char
        } else {
            c
        };
        r.push(l);
        i = i + 1;
        assert(r@ =~= ascii_lower(s@.take(i as int)));
    }
    assert(s@.take(s.len() as int) =~= s@);
    r
}

/// Scanning state for the non-empty pieces of `s` between separators.
pub open spec fn pieces_state(s: Seq<char>, sep: char) -> (Seq<Seq<char>>, Seq<char>)
    decreases s.len(),
{
    if s.len() == 0 {
        (Seq::empty(), Seq::empty())
    } else {
        let (done, cur) = pieces_state(s.drop_last(), sep);
        if s.last() != sep {
            (done, cur.push(s.last()))
        } else if cur.len() > 0 {
            (done.push(cur), Seq::empty())
        } else {
            (done, cur)
        }
    }
}

/// The non-empty pieces of `s` between occurrences of `sep`
/// (`str::split` followed by dropping empty pieces).
pub open spec fn pieces(s: Seq<char>, sep: char) -> Seq<Seq<char>> {
    let (done, cur) = pieces_state(s, sep);
    if cur.len() > 0 {
        done.push(cur)
    } else {
        done
    }
}

fn split_pieces(s: &[char], sep: char) -> (r: Vec<Vec<char>>)
    ensures
        crate::text::seqs_of(r@) == pieces(s@, sep),
{
    let mut done: Vec<Vec<char>> = Vec::new();
    let mut cur: Vec<char> = Vec::new();
    let mut i: usize = 0;
    while i < s.len()
        invariant
            i <= s.len(),
            (crate::text::seqs_of(done@), cur@) == pieces_state(s@.take(i as int), sep),
        decreases s.len() - i,
    {
        let c = s[i];
        assert(s@.take(i + 1).drop_last() == s@.take(i as int));
        let ghost before = done@;
        if c != sep {
            cur.push(c);
        } else if cur.len() > 0 {
            let finished = cur;
            cur = Vec::new();
            done.push(finished);
            assert(crate::text::seqs_of(done@) =~= crate::text::seqs_of(before).push(finished@));
        }
        i = i + 1;
    }
    assert(s@.take(s.len() as int) == s@);
    if cur.len() > 0 {
        let ghost before = done@;
        let last = cur;
        done.push(last);
        assert(crate::text::seqs_of(done@) =~= crate::text::seqs_of(before).push(last@));
    }
    done
}

/// The path of a location: everything before its query or fragment.
pub open spec fn path_part(location: Seq<char>) -> Seq<char> {
    match first_in(location, seq!['?', '#']) {
        Some(k) => location.take(k),
        None => location,
    }
}

/// The non-empty path segments of a location.
pub open spec fn path_segments(location: Seq<char>) -> Seq<Seq<char>> {
    pieces(path_part(location), '/')
}

/// The query of a location: after its first `?`, before the next `#`.
pub open spec fn query_part(location: Seq<char>) -> Option<Seq<char>> {
    match first_in(location, seq!['?']) {
        None => None,
        Some(q) => {
            let after = location.skip(q + 1);
            Some(
                match first_in(after, seq!['#']) {
                    Some(h) => after.take(h),
                    None => after,
                },
            )
        },
    }
}

/// The value of a `key=value` pair whose key is `key`.
pub open spec fn pair_value(pair: Seq<char>, key: Seq<char>) -> Option<Seq<char>> {
    match first_in(pair, seq!['=']) {
        Some(e) => if pair.take(e) == key {
            Some(pair.skip(e + 1))
        } else {
            None
        },
        None => None,
    }
}

/// The value of the first pair named `key`.
pub open spec fn first_value(pairs: Seq<Seq<char>>, key: Seq<char>) -> Option<Seq<char>>
    decreases pairs.len(),
{
    if pairs.len() == 0 {
        None
    } else if pair_value(pairs[0], key) is Some {
        pair_value(pairs[0], key)
    } else {
        first_value(pairs.drop_first(), key)
    }
}

/// The value of query parameter `key` in a location.
pub open spec fn query_parameter(location: Seq<char>, key: Seq<char>) -> Option<Seq<char>> {
    match query_part(location) {
        Some(q) => first_value(pieces(q, '&'), key),
        None => None,
    }
}

/// The video identifier that a `youtube.com` location names.
pub open spec fn youtube_com_id(location: Seq<char>) -> Option<Seq<char>> {
    let segments = path_segments(location);
    if segments.len() == 0 {
        None
    } else if segments[0] == "watch"@ {
        query_parameter(location, "v"@)
    } else if segments[0] == "shorts"@ || segments[0] == "embed"@ || segments[0] == "live"@ {
        if segments.len() > 1 {
            Some(segments[1])
        } else {
            None
        }
    } else {
        None
    }
}

pub open spec fn id_char(c: char) -> bool {
    ||| ('a' <= c <= 'z')
    ||| ('A' <= c <= 'Z')
    ||| ('0' <= c <= '9')
    ||| c == '_'
    ||| c == '-'
}

/// Eleven characters, each an ASCII letter, digit, `_` or `-`.
pub open spec fn valid_youtube_id(candidate: Seq<char>) -> bool {
    &&& candidate.len() == 11
    &&& forall|i: int| 0 <= i < candidate.len() ==> id_char(#[trigger] candidate[i])
}

pub open spec fn is_short_host(host: Seq<char>) -> bool {
    host == "youtu.be"@ || host == "www.youtu.be"@
}

pub open spec fn is_long_host(host: Seq<char>) -> bool {
    host == "youtube.com"@ || host == "www.youtube.com"@ || host == "m.youtube.com"@ || host
        == "music.youtube.com"@
}

/// The video identifier a URL names, or why it names none.
pub open spec fn resolve_id(input: Seq<char>) -> Result<Seq<char>, SourceError> {
    let s = trim(input);
    match first_occurrence(s, "://"@) {
        None => Err(SourceError::MalformedUrl),
        Some(sep) => {
            let scheme = s.take(sep);
            let remainder = s.skip(sep + 3);
            let authority_end = match first_in(remainder, seq!['/', '?', '#']) {
                Some(k) => k,
                None => remainder.len() as int,
            };
            let host = ascii_lower(remainder.take(authority_end));
            let location = remainder.skip(authority_end);
            if scheme != "https"@ && scheme != "http"@ {
                Err(SourceError::UnsupportedSource)
            } else if host.len() == 0 || host.contains('@') || host.contains(':') {
                Err(SourceError::UnsupportedSource)
            } else if !is_short_host(host) && !is_long_host(host) {
                Err(SourceError::UnsupportedSource)
            } else {
                let candidate = if is_short_host(host) {
                    let segments = path_segments(location);
                    if segments.len() > 0 {
                        Some(segments[0])
                    } else {
                        None
                    }
                } else {
                    youtube_com_id(location)
                };
                match candidate {
                    Some(id) => if valid_youtube_id(id) {
                        Ok(id)
                    } else {
                        Err(SourceError::MissingVideoId)
                    },
                    None => Err(SourceError::MissingVideoId),
                }
            }
        },
    }
}

/// The index of the first occurrence of `pat` in `s`.
pub open spec fn first_occurrence(s: Seq<char>, pat: Seq<char>) -> Option<int>
    decreases s.len(),
{
    if crate::text::occurs_at(s, pat, 0) {
        Some(0)
    } else if s.len() == 0 {
        None
    } else {
        match first_occurrence(s.drop_first(), pat) {
            Some(i) => Some(i + 1),
            None => None,
        }
    }
}

/// The canonical watch URL of a video.
pub open spec fn watch_url(id: Seq<char>) -> Seq<char> {
    "https://www.youtube.com/watch?v="@ + id
}


proof fn lemma_occurs_shift(s: Seq<char>, pat: Seq<char>, k: int)
    requires
        0 <= k,
        s.len() > 0,
    ensures
        crate::text::occurs_at(s.drop_first(), pat, k) == crate::text::occurs_at(s, pat, k + 1),
{
    let t = s.drop_first();
    if k + pat.len() <= t.len() {
        assert(s.subrange(k + 1, k + 1 + pat.len()) =~= t.subrange(k, k + pat.len()));
    }
}

proof fn lemma_first_occurrence(s: Seq<char>, pat: Seq<char>, i: int)
    requires
        0 <= i,
        i <= s.len() + 1,
        forall|k: int| 0 <= k < i ==> !crate::text::occurs_at(s, pat, k),
    ensures
        i <= s.len() && crate::text::occurs_at(s, pat, i) ==> first_occurrence(s, pat) == Some(i),
        i == s.len() + 1 ==> first_occurrence(s, pat) is None,
    decreases i,
{
    if i > 0 && s.len() > 0 {
        let t = s.drop_first();
        assert forall|k: int| 0 <= k < i - 1 implies !crate::text::occurs_at(t, pat, k) by {
            lemma_occurs_shift(s, pat, k);
        }
        lemma_occurs_shift(s, pat, i - 1);
        lemma_first_occurrence(t, pat, i - 1);
    }
}

/// Whether `pat` occurs in `s` at `i`.
fn occurs_here(s: &[char], pat: &[char], i: usize) -> (r: bool)
    requires
        i <= s.len(),
    ensures
        r == crate::text::occurs_at(s@, pat@, i as int),
{
    if pat.len() > s.len() - i {
        return false;
    }
    let mut j: usize = 0;
    while j < pat.len()
        invariant
            j <= pat.len(),
            i + pat.len() <= s.len(),
            forall|k: int| 0 <= k < j ==> s@[i + k] == pat@[k],
        decreases pat.len() - j,
    {
        if s[i + j] != pat[j] {
            assert(s@.subrange(i as int, i + pat@.len())[j as int] == s@[i + j]);
            return false;
        }
        j = j + 1;
    }
    assert(s@.subrange(i as int, i + pat@.len()) =~= pat@);
    true
}

fn find_occurrence(s: &[char], pat: &[char]) -> (r: Option<usize>)
    ensures
        match r {
            Some(k) => first_occurrence(s@, pat@) == Some(k as int),
            None => first_occurrence(s@, pat@) is None,
        },
{
    let mut i: usize = 0;
    while i < s.len()
        invariant
            i <= s.len(),
            forall|k: int| 0 <= k < i ==> !crate::text::occurs_at(s@, pat@, k),
        decreases s.len() - i,
    {
        if occurs_here(s, pat, i) {
            proof {
                lemma_first_occurrence(s@, pat@, i as int);
            }
            return Some(i);
        }
        i = i + 1;
    }
    if occurs_here(s, pat, i) {
        proof {
            lemma_first_occurrence(s@, pat@, i as int);
        }
        return Some(i);
    }
    proof {
        lemma_first_occurrence(s@, pat@, i + 1);
    }
    None
}

fn path_segments_of(location: &[char]) -> (r: Vec<Vec<char>>)
    ensures
        crate::text::seqs_of(r@) == path_segments(location@),
{
    let stops = vec!['?', '#'];
    assert(stops@ == seq!['?', '#']);
    let end = match find_any(location, &stops) {
        Some(k) => k,
        None => location.len(),
    };
    let path = slice_of(location, 0, end);
    assert(path@ =~= path_part(location@)) by {
        assert(location@.subrange(0, location.len() as int) =~= location@);
        assert(location@.subrange(0, end as int) =~= location@.take(end as int));
    }
    split_pieces(&path, '/')
}

proof fn lemma_first_value_step(pairs: Seq<Seq<char>>, key: Seq<char>, i: int)
    requires
        0 <= i < pairs.len(),
    ensures
        first_value(pairs.skip(i), key) == if pair_value(pairs[i], key) is Some {
            pair_value(pairs[i], key)
        } else {
            first_value(pairs.skip(i + 1), key)
        },
{
    assert(pairs.skip(i)[0] == pairs[i]);
    assert(pairs.skip(i).drop_first() =~= pairs.skip(i + 1));
}

/// The value of the `key=value` pair, when its key is `key`.
fn value_of_pair(pair: &[char], key: &[char]) -> (r: Option<Vec<char>>)
    ensures
        match pair_value(pair@, key@) {
            Some(v) => r matches Some(x) && x@ == v,
            None => r is None,
        },
{
    let eq = vec!['='];
    assert(eq@ == seq!['=']);
    let found = find_any(pair, &eq);
    assert(eq@ == seq!['=']);
    match found {
        Some(e) => {
            assert(first_in(pair@, seq!['=']) == Some(e as int));
            let name = slice_of(pair, 0, e);
            assert(name@ =~= pair@.take(e as int));
            if chars_eq(&name, key) {
                let value = slice_of(pair, e + 1, pair.len());
                assert(value@ =~= pair@.skip(e + 1));
                assert(pair_value(pair@, key@) == Some(pair@.skip(e + 1)));
                Some(value)
            } else {
                None
            }
        },
        None => None,
    }
}

fn query_parameter_of(location: &[char], key: &[char]) -> (r: Option<Vec<char>>)
    ensures
        match query_parameter(location@, key@) {
            Some(v) => r matches Some(x) && x@ == v,
            None => r is None,
        },
{
    let question = vec!['?'];
    assert(question@ == seq!['?']);
    let q = match find_any(location, &question) {
        Some(q) => q,
        None => {
            return None;
        },
    };
    let after = slice_of(location, q + 1, location.len());
    assert(after@ =~= location@.skip(q + 1));
    let hash = vec!['#'];
    assert(hash@ == seq!['#']);
    let end = match find_any(&after, &hash) {
        Some(h) => h,
        None => after.len(),
    };
    let query = slice_of(&after, 0, end);
    assert(query@ =~= query_part(location@)->0) by {
        assert(after@.subrange(0, after.len() as int) =~= after@);
        assert(after@.subrange(0, end as int) =~= after@.take(end as int));
    }
    assert(query_part(location@) == Some(query@));
    let pairs = split_pieces(&query, '&');
    let ghost ps = crate::text::seqs_of(pairs@);
    let mut i: usize = 0;
    assert(ps.skip(0) =~= ps);
    while i < pairs.len()
        invariant
            i <= pairs.len(),
            ps == crate::text::seqs_of(pairs@),
            ps == pieces(query@, '&'),
            query_part(location@) == Some(query@),
            first_value(ps, key@) == first_value(ps.skip(i as int), key@),
        decreases pairs.len() - i,
    {
        proof {
            lemma_first_value_step(ps, key@, i as int);
        }
        assert(ps[i as int] == pairs@[i as int]@);
        if let Some(v) = value_of_pair(&pairs[i], key) {
            assert(first_value(ps, key@) == Some(v@));
            assert(query_parameter(location@, key@) == first_value(ps, key@));
            return Some(v);
        }
        i = i + 1;
    }
    assert(ps.skip(pairs.len() as int).len() == 0);
    None
}

fn youtube_com_id_of(location: &[char]) -> (r: Option<Vec<char>>)
    ensures
        match youtube_com_id(location@) {
            Some(v) => r matches Some(x) && x@ == v,
            None => r is None,
        },
{
    let segments = path_segments_of(location);
    let ghost ss = crate::text::seqs_of(segments@);
    if segments.len() == 0 {
        return None;
    }
    assert(ss[0] == segments@[0]@);
    let first = &segments[0];
    if chars_eq(first, &chars_of("watch")) {
        return query_parameter_of(location, &chars_of("v"));
    }
    if chars_eq(first, &chars_of("shorts")) || chars_eq(first, &chars_of("embed")) || chars_eq(
        first,
        &chars_of("live"),
    ) {
        if segments.len() > 1 {
            assert(ss[1] == segments@[1]@);
            return Some(copy_chars(&segments[1]));
        }
        return None;
    }
    None
}

fn valid_id(candidate: &[char]) -> (r: bool)
    ensures
        r == valid_youtube_id(candidate@),
{
    if candidate.len() != 11 {
        return false;
    }
    let mut i: usize = 0;
    while i < candidate.len()
        invariant
            i <= candidate.len(),
            forall|k: int| 0 <= k < i ==> id_char(#[trigger] candidate@[k]),
        decreases candidate.len() - i,
    {
        let c = candidate[i];
        let ok = ('a' <= c && c <= 'z') || ('A' <= c && c <= 'Z') || ('0' <= c && c <= '9') || c
            == '_' || c == '-';
        if !ok {
            return false;
        }
        i = i + 1;
    }
    true
}

fn is_literal(v: &[char], lit: &str) -> (r: bool)
    ensures
        r == (v@ == lit@),
{
    chars_eq(v, &chars_of(lit))
}

/// Resolves a supported source URL to its stable identity.
///
/// The input is trimmed; it must hold `://` after an `http` or `https`
/// scheme, and a host (compared case-insensitively, with no user or port)
/// of `youtu.be` or `youtube.com` and their known subdomains. The video
/// identifier comes from the first path segment of a short link, the `v`
/// query parameter of a `watch` page, or the second path segment of a
/// `shorts`, `embed` or `live` page, and must be eleven ASCII letters,
/// digits, `_` or `-`.
pub fn canonicalise_source(input: &str) -> (r: Result<CanonicalSource, SourceError>)
    ensures
        match resolve_id(input@) {
            Err(e) => r == Err::<CanonicalSource, SourceError>(e),
            Ok(id) => r matches Ok(c) && c.provider == SourceProvider::YouTube && c.source_id@
                == id && c.canonical_url@ == watch_url(id),
        },
{
    let s = trimmed(&chars_of(input));
    let sep = match find_occurrence(&s, &chars_of("://")) {
        Some(k) => k,
        None => {
            return Err(SourceError::MalformedUrl);
        },
    };
    proof {
        lemma_first_occurrence_some(s@, "://"@);
        reveal_strlit("://");
    }
    assert(sep + 3 <= s.len());
    let scheme = slice_of(&s, 0, sep);
    let remainder = slice_of(&s, sep + 3, s.len());
    assert(scheme@ =~= s@.take(sep as int));
    assert(remainder@ =~= s@.skip(sep + 3));
    if !is_literal(&scheme, "https") && !is_literal(&scheme, "http") {
        return Err(SourceError::UnsupportedSource);
    }
    let stops = vec!['/', '?', '#'];
    assert(stops@ == seq!['/', '?', '#']);
    let authority_end = match find_any(&remainder, &stops) {
        Some(k) => k,
        None => remainder.len(),
    };
    let host = lower_ascii(&slice_of(&remainder, 0, authority_end));
    let location = slice_of(&remainder, authority_end, remainder.len());
    assert(remainder@.subrange(0, authority_end as int) =~= remainder@.take(authority_end as int));
    assert(location@ =~= remainder@.skip(authority_end as int));
    let at = vec!['@'];
    let colon = vec![':'];
    assert(at@ == seq!['@']);
    assert(colon@ == seq![':']);
    proof {
        assert(first_in(host@, seq!['@']) is Some <==> host@.contains('@')) by {
            if host@.contains('@') {
                let k = choose|k: int| 0 <= k < host@.len() && host@[k] == '@';
                if first_in(host@, seq!['@']) is None {
                    assert(seq!['@'].contains(host@[k]));
                    lemma_first_in_none(host@, seq!['@']);
                }
            } else if first_in(host@, seq!['@']) is Some {
                lemma_first_in_some(host@, seq!['@']);
            }
        }
        assert(first_in(host@, seq![':']) is Some <==> host@.contains(':')) by {
            if host@.contains(':') {
                let k = choose|k: int| 0 <= k < host@.len() && host@[k] == ':';
                if first_in(host@, seq![':']) is None {
                    assert(seq![':'].contains(host@[k]));
                    lemma_first_in_none(host@, seq![':']);
                }
            } else if first_in(host@, seq![':']) is Some {
                lemma_first_in_some(host@, seq![':']);
            }
        }
    }
    if host.len() == 0 || find_any(&host, &at).is_some() || find_any(&host, &colon).is_some() {
        return Err(SourceError::UnsupportedSource);
    }
    let short = is_literal(&host, "youtu.be") || is_literal(&host, "www.youtu.be");
    let long = is_literal(&host, "youtube.com") || is_literal(&host, "www.youtube.com")
        || is_literal(&host, "m.youtube.com") || is_literal(&host, "music.youtube.com");
    if !short && !long {
        return Err(SourceError::UnsupportedSource);
    }
    let candidate = if short {
        let segments = path_segments_of(&location);
        if segments.len() > 0 {
            assert(crate::text::seqs_of(segments@)[0] == segments@[0]@);
            Some(copy_chars(&segments[0]))
        } else {
            None
        }
    } else {
        youtube_com_id_of(&location)
    };
    let id = match candidate {
        Some(id) => id,
        None => {
            return Err(SourceError::MissingVideoId);
        },
    };
    if !valid_id(&id) {
        return Err(SourceError::MissingVideoId);
    }
    let mut url: Vec<char> = Vec::new();
    crate::text::push_str(&mut url, "https://www.youtube.com/watch?v=");
    let ghost prefix = url@;
    let mut i: usize = 0;
    while i < id.len()
        invariant
            i <= id.len(),
            url@ == prefix + id@.take(i as int),
        decreases id.len() - i,
    {
        url.push(id[i]);
        i = i + 1;
        assert(url@ =~= prefix + id@.take(i as int));
    }
    assert(id@.take(id.len() as int) =~= id@);
    Ok(
        CanonicalSource {
            provider: SourceProvider::YouTube,
            source_id: string_of(&id),
            canonical_url: string_of(&url),
        },
    )
}

proof fn lemma_first_occurrence_some(s: Seq<char>, pat: Seq<char>)
    requires
        first_occurrence(s, pat) is Some,
    ensures
        crate::text::occurs_at(s, pat, first_occurrence(s, pat)->0),
    decreases s.len(),
{
    if !crate::text::occurs_at(s, pat, 0) && s.len() > 0 {
        let t = s.drop_first();
        lemma_first_occurrence_some(t, pat);
        let k = first_occurrence(t, pat)->0;
        assert(s.subrange(k + 1, k + 1 + pat.len()) =~= t.subrange(k, k + pat.len()));
    }
}

proof fn lemma_first_in_some(s: Seq<char>, set: Seq<char>)
    requires
        first_in(s, set) is Some,
    ensures
        0 <= first_in(s, set)->0 < s.len(),
        set.contains(s[first_in(s, set)->0]),
    decreases s.len(),
{
    if s.len() > 0 && !set.contains(s[0]) {
        lemma_first_in_some(s.drop_first(), set);
    }
}

proof fn lemma_first_in_none(s: Seq<char>, set: Seq<char>)
    requires
        first_in(s, set) is None,
    ensures
        forall|k: int| 0 <= k < s.len() ==> !set.contains(#[trigger] s[k]),
    decreases s.len(),
{
    if s.len() > 0 {
        lemma_first_in_none(s.drop_first(), set);
        assert forall|k: int| 0 <= k < s.len() implies !set.contains(#[trigger] s[k]) by {
            if k > 0 {
                assert(s[k] == s.drop_first()[k - 1]);
            }
        }
    }
}


proof fn lemma_pieces_without_separator(s: Seq<char>, sep: char)
    requires
        forall|k: int| 0 <= k < s.len() ==> s[k] != sep,
    ensures
        pieces_state(s, sep) == (Seq::<Seq<char>>::empty(), s),
    decreases s.len(),
{
    if s.len() > 0 {
        lemma_pieces_without_separator(s.drop_last(), sep);
        assert(s.drop_last().push(s.last()) =~= s);
    }
}

proof fn lemma_no_whitespace_id(id: Seq<char>, k: int)
    requires
        valid_youtube_id(id),
        0 <= k < id.len(),
    ensures
        !is_whitespace_char(id[k]),
        id[k] != '?',
        id[k] != '#',
        id[k] != '&',
        id[k] != '/',
        id[k] != '=',
{
    assert(id_char(id[k]));
}

/// Every eleven-character string of ASCII letters, digits, `_` and `-` is
/// a video identifier: its watch URL resolves to exactly that identifier.
pub proof fn law_every_well_formed_id_resolves(id: Seq<char>)
    requires
        id.len() == 11,
        forall|i: int|
            0 <= i < 11 ==> {
                let c = #[trigger] id[i];
                ('a' <= c && c <= 'z') || ('A' <= c && c <= 'Z') || ('0' <= c && c <= '9') || c == '_'
                    || c == '-'
            },
    ensures
        resolve_id(watch_url(id)) == Ok::<Seq<char>, SourceError>(id),
{
    assert(valid_youtube_id(id));
    law_canonical_url_resolves_to_itself(id);
}

/// The canonical URL of a source resolves to that same source: resolving
/// is idempotent, so every accepted URL has exactly one identity.
pub proof fn law_canonical_url_resolves_to_itself(id: Seq<char>)
    requires
        valid_youtube_id(id),
    ensures
        resolve_id(watch_url(id)) == Ok::<Seq<char>, SourceError>(id),
{
    reveal_strlit("https://www.youtube.com/watch?v=");
    reveal_strlit("://");
    reveal_strlit("https");
    reveal_strlit("http");
    reveal_strlit("www.youtube.com");
    reveal_strlit("youtu.be");
    reveal_strlit("www.youtu.be");
    reveal_strlit("watch");
    reveal_strlit("v");
    let url = watch_url(id);
    assert(url.len() == 43);
    assert forall|k: int| 32 <= k < 43 implies url[k] == id[k - 32] by {}
    // Trimming changes nothing: the URL starts with `h` and ends in the id.
    assert(trim_start(url) == url);
    lemma_no_whitespace_id(id, 10);
    assert(url.last() == id[10]);
    assert(trim_end(url) == url);
    assert(trim(url) == url);
    // The scheme separator first occurs at 5.
    let pat = "://"@;
    assert forall|k: int| 0 <= k < 5 implies !crate::text::occurs_at(url, pat, k) by {
        assert(url.subrange(k, k + 3)[0] == url[k]);
    }
    assert(url.subrange(5, 8) =~= pat);
    lemma_first_occurrence(url, pat, 5);
    assert(first_occurrence(url, pat) == Some(5int));
    let scheme = url.take(5);
    assert(scheme =~= "https"@);
    let rem = url.skip(8);
    assert forall|k: int| 24 <= k < 35 implies rem[k] == id[k - 24] by {}
    let stops = seq!['/', '?', '#'];
    assert forall|k: int| 0 <= k < 15 implies !stops.contains(#[trigger] rem[k]) by {
        assert(rem[k] == url[k + 8]);
        if stops.contains(rem[k]) {
            let j = choose|j: int| 0 <= j < 3 && stops[j] == rem[k];
        }
    }
    assert(stops.contains(rem[15])) by {
        assert(rem[15] == '/');
        assert(stops[0] == '/');
    }
    lemma_first_in(rem, stops, 15);
    let host = ascii_lower(rem.take(15));
    assert(host =~= "www.youtube.com"@);
    assert(!host.contains('@'));
    assert(!host.contains(':'));
    assert(is_long_host(host));
    assert(!is_short_host(host));
    let location = rem.skip(15);
    assert(location.len() == 20);
    assert forall|k: int| 9 <= k < 20 implies location[k] == id[k - 9] by {}
    // The path is `/watch`, whose one segment is `watch`.
    let qh = seq!['?', '#'];
    assert forall|k: int| 0 <= k < 6 implies !qh.contains(#[trigger] location[k]) by {
        if qh.contains(location[k]) {
            let j = choose|j: int| 0 <= j < 2 && qh[j] == location[k];
        }
    }
    assert(qh.contains(location[6])) by {
        assert(qh[0] == '?');
    }
    lemma_first_in(location, qh, 6);
    let path = location.take(6);
    assert(path_part(location) == path);
    let word = path.drop_first();
    assert(word =~= "watch"@);
    lemma_pieces_without_separator(word, '/');
    assert(path.drop_first() == word);
    assert(pieces_state(path, '/') == (Seq::<Seq<char>>::empty(), word)) by {
        reveal_with_fuel(pieces_state, 7);
        assert(path =~= seq!['/'] + word);
        assert(path.drop_last() =~= seq!['/'] + word.drop_last());
        assert(path.drop_last().drop_last() =~= seq!['/'] + word.drop_last().drop_last());
        assert(path.drop_last().drop_last().drop_last() =~= seq!['/']
            + word.drop_last().drop_last().drop_last());
        assert(path.drop_last().drop_last().drop_last().drop_last() =~= seq!['/', 'w']);
        assert(path.drop_last().drop_last().drop_last().drop_last().drop_last() =~= seq!['/']);
        assert(seq!['/'].drop_last() =~= Seq::<char>::empty());
    }
    assert(path_segments(location) =~= seq![word]);
    // The query is `v=<id>`, one pair whose value is the id.
    let q = seq!['?'];
    assert forall|k: int| 0 <= k < 6 implies !q.contains(#[trigger] location[k]) by {
        if q.contains(location[k]) {
            assert(q[0] == location[k]);
        }
    }
    assert(q.contains(location[6])) by {
        assert(q[0] == '?');
    }
    lemma_first_in(location, q, 6);
    let after = location.skip(7);
    assert(after.len() == 13);
    assert forall|k: int| 2 <= k < 13 implies after[k] == id[k - 2] by {}
    let h = seq!['#'];
    assert forall|k: int| 0 <= k < 13 implies !h.contains(#[trigger] after[k]) by {
        if k >= 2 {
            lemma_no_whitespace_id(id, k - 2);
        }
        if h.contains(after[k]) {
            assert(h[0] == after[k]);
        }
    }
    lemma_first_in(after, h, 13);
    assert(query_part(location) == Some(after));
    assert forall|k: int| 0 <= k < after.len() implies after[k] != '&' by {
        if k >= 2 {
            lemma_no_whitespace_id(id, k - 2);
        }
    }
    lemma_pieces_without_separator(after, '&');
    assert(pieces(after, '&') =~= seq![after]);
    let e = seq!['='];
    assert(!e.contains(after[0])) by {
        if e.contains(after[0]) {
            assert(e[0] == after[0]);
        }
    }
    assert(e.contains(after[1])) by {
        assert(e[0] == '=');
    }
    assert forall|k: int| 0 <= k < 1 implies !e.contains(#[trigger] after[k]) by {}
    lemma_first_in(after, e, 1);
    assert(after.take(1) =~= "v"@);
    assert(after.skip(2) =~= id);
    assert(pair_value(after, "v"@) == Some(id));
    assert(first_value(seq![after], "v"@) == Some(id));
    assert(query_parameter(location, "v"@) == Some(id));
    assert(youtube_com_id(location) == Some(id));
}


/// The reader-facing text of a source error.
pub open spec fn source_error_text(e: SourceError) -> Seq<char> {
    match e {
        SourceError::MalformedUrl => "the source URL is malformed"@,
        SourceError::UnsupportedSource => "the source is not a supported YouTube URL"@,
        SourceError::MissingVideoId => "the YouTube URL does not contain a valid video ID"@,
    }
}

impl SourceError {
    /// What went wrong, for a reader.
    pub fn message(&self) -> (r: String)
        ensures
            r@ == source_error_text(*self),
    {
        match self {
            SourceError::MalformedUrl => "the source URL is malformed".to_owned(),
            SourceError::UnsupportedSource => "the source is not a supported YouTube URL".to_owned(),
            SourceError::MissingVideoId => "the YouTube URL does not contain a valid video ID".to_owned(),
        }
    }
}

} // verus!
