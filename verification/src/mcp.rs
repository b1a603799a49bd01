//! The bounds that the agent-facing tools put on a request, and the query
//! a search request asks.
use vstd::prelude::*;
use vstd::utf8::encode_utf8;

use crate::compile::utf8_len;
use crate::search::SearchQuery;

verus! {

broadcast use vstd::string::group_string_axioms;

/// The longest source reference accepted, in UTF-8 bytes.
pub const MAX_SOURCE_LENGTH: usize = 2_048;

/// The longest query accepted, in UTF-8 bytes.
pub const MAX_QUERY_LENGTH: usize = 4_096;

/// The most moments one search may ask for.
pub const MAX_RESULT_LIMIT: usize = 20;

/// A request to find moments in a source.
#[derive(Clone, Debug, PartialEq, Eq)]
pub struct SearchSourceParams {
    pub source: String,
    pub query: String,
    pub language: Option<String>,
    pub refresh: bool,
    pub limit: Option<usize>,
    pub start_ms: Option<u64>,
    pub end_ms: Option<u64>,
}

/// A request to read a whole source.
#[derive(Clone, Debug, PartialEq, Eq)]
pub struct ReadSourceParams {
    pub source: String,
    pub language: Option<String>,
    pub refresh: bool,
}

/// Why a request is out of bounds, or `None` when the source reference
/// is 1 to 2048 bytes long.
pub open spec fn source_problem(source: Seq<char>) -> Option<Seq<char>> {
    let n = encode_utf8(source).len();
    if n == 0 || n > MAX_SOURCE_LENGTH {
        Some("source must contain between 1 and 2048 bytes"@)
    } else {
        None
    }
}

/// Why a search request is out of bounds: its source first, then a query
/// of 1 to 4096 bytes, then a limit of at most twenty.
pub open spec fn params_problem(source: Seq<char>, query: Seq<char>, limit: Option<usize>) -> Option<
    Seq<char>,
> {
    match source_problem(source) {
        Some(p) => Some(p),
        None => {
            let n = encode_utf8(query).len();
            if n == 0 || n > MAX_QUERY_LENGTH {
                Some("query must contain between 1 and 4096 bytes"@)
            } else if limit matches Some(l) && l > MAX_RESULT_LIMIT {
                Some("limit cannot exceed 20 moments"@)
            } else {
                None
            }
        },
    }
}

/// Checks the source reference of a request.
pub fn validate_source(source: &str) -> (r: Result<(), &'static str>)
    ensures
        match source_problem(source@) {
            Some(p) => r matches Err(m) && m@ == p,
            None => r is Ok,
        },
{
    let n = utf8_len(source);
    if n == 0 || n > MAX_SOURCE_LENGTH {
        return Err("source must contain between 1 and 2048 bytes");
    }
    Ok(())
}

/// Checks the bounds of a search request.
pub fn validate_params(params: &SearchSourceParams) -> (r: Result<(), &'static str>)
    ensures
        match params_problem(params.source@, params.query@, params.limit) {
            Some(p) => r matches Err(m) && m@ == p,
            None => r is Ok,
        },
{
    validate_source(params.source.as_str())?;
    let n = utf8_len(params.query.as_str());
    if n == 0 || n > MAX_QUERY_LENGTH {
        return Err("query must contain between 1 and 4096 bytes");
    }
    if let Some(l) = params.limit {
        if l > MAX_RESULT_LIMIT {
            return Err("limit cannot exceed 20 moments");
        }
    }
    Ok(())
}

/// The query a search request asks: its text, its limit (five unless
/// given) and its timestamp bounds.
pub fn search_query(params: &SearchSourceParams) -> (q: SearchQuery)
    ensures
        q.text@ == params.query@,
        q.limit == match params.limit {
            Some(l) => l,
            None => 5,
        },
        q.start_ms == params.start_ms,
        q.end_ms == params.end_ms,
{
    let mut q = SearchQuery::new(params.query.clone());
    q.limit = match params.limit {
        Some(l) => l,
        None => 5,
    };
    q.start_ms = params.start_ms;
    q.end_ms = params.end_ms;
    q
}

} // verus!
