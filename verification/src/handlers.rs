//! Request validation and response shaping for the service endpoints.

use vstd::prelude::*;
use vstd::string::StringExecFns;
use crate::error::AppError;

verus! {

/// A rerank request: a query and the documents to rank against it.
pub struct RerankRequest {
    pub query: String,
    pub documents: Vec<String>,
}

/// A search request: a query over the tool catalog and how many results to
/// return.
pub struct SearchRequest {
    pub query: String,
    pub top_k: usize,
}

/// The body of the health and readiness endpoints.
pub struct HealthResponse {
    pub status: String,
    pub version: String,
}

/// Default number of results returned by a search when the request names
/// none.
pub fn default_top_k() -> (r: usize)
    ensures
        r == 3,
{
    3
}

/// The decimal digit `d` as a character.
pub open spec fn spec_decimal_digit(d: int) -> char {
    if d == 0 {
        '0'
    } else if d == 1 {
        '1'
    } else if d == 2 {
        '2'
    } else if d == 3 {
        '3'
    } else if d == 4 {
        '4'
    } else if d == 5 {
        '5'
    } else if d == 6 {
        '6'
    } else if d == 7 {
        '7'
    } else if d == 8 {
        '8'
    } else {
        '9'
    }
}

/// The decimal notation of a non-negative number.
pub open spec fn spec_decimal(n: int) -> Seq<char>
    decreases n,
{
    if n < 0 {
        Seq::<char>::empty()
    } else if n < 10 {
        seq![spec_decimal_digit(n)]
    } else {
        spec_decimal(n / 10).push(spec_decimal_digit(n % 10))
    }
}

fn digit_str(d: usize) -> (s: &'static str)
    requires
        d < 10,
    ensures
        s@ == seq![spec_decimal_digit(d as int)],
{
    proof {
        reveal_strlit("0");
        reveal_strlit("1");
        reveal_strlit("2");
        reveal_strlit("3");
        reveal_strlit("4");
        reveal_strlit("5");
        reveal_strlit("6");
        reveal_strlit("7");
        reveal_strlit("8");
        reveal_strlit("9");
    }
    let s = if d == 0 {
        "0"
    } else if d == 1 {
        "1"
    } else if d == 2 {
        "2"
    } else if d == 3 {
        "3"
    } else if d == 4 {
        "4"
    } else if d == 5 {
        "5"
    } else if d == 6 {
        "6"
    } else if d == 7 {
        "7"
    } else if d == 8 {
        "8"
    } else {
        "9"
    };
    proof {
        assert(s@ =~= seq![spec_decimal_digit(d as int)]);
    }
    s
}

/// A number in decimal notation.
pub fn decimal_string(n: usize) -> (s: String)
    ensures
        s@ == spec_decimal(n as int),
    decreases n,
{
    if n < 10 {
        String::from_str(digit_str(n))
    } else {
        let mut s = decimal_string(n / 10);
        s.append(digit_str(n % 10));
        proof {
            assert(s@ =~= spec_decimal(n as int));
        }
        s
    }
}

/// Validate a rerank request: the query and the document list must be
/// non-empty, and the list must not exceed the document limit.  Each
/// rejection names its reason; the limit message names the limit.
pub fn validate_rerank_request(req: &RerankRequest, max_documents: usize) -> (r: Result<
    (),
    AppError,
>)
    ensures
        r is Ok <==> (req.query@.len() > 0 && req.documents@.len() > 0 && req.documents@.len()
            <= max_documents),
        req.query@.len() == 0 ==> (r matches Err(AppError::ValidationError(m)) && m@ == (
        "Query cannot be empty")@),
        (req.query@.len() > 0 && req.documents@.len() == 0) ==> (r matches Err(
            AppError::ValidationError(m),
        ) && m@ == ("Documents list cannot be empty")@),
        (req.query@.len() > 0 && req.documents@.len() > max_documents) ==> (r matches Err(
            AppError::ValidationError(m),
        ) && m@ == ("Maximum ")@ + spec_decimal(max_documents as int) + (
        " documents per request")@),
{
    if req.query.as_str().is_empty() {
        return Err(AppError::ValidationError(String::from_str("Query cannot be empty")));
    }
    if req.documents.len() == 0 {
        return Err(AppError::ValidationError(String::from_str("Documents list cannot be empty")));
    }
    if req.documents.len() > max_documents {
        let mut m = String::from_str("Maximum ");
        let count = decimal_string(max_documents);
        m.append(count.as_str());
        m.append(" documents per request");
        return Err(AppError::ValidationError(m));
    }
    Ok(())
}

/// Validate a search request: the query must be non-empty, `top_k` at least
/// one, and the catalog loaded.
pub fn validate_search_request(req: &SearchRequest, tools_len: usize) -> (r: Result<(), AppError>)
    ensures
        r is Ok <==> (req.query@.len() > 0 && req.top_k >= 1 && tools_len > 0),
        req.query@.len() == 0 ==> (r matches Err(AppError::ValidationError(m)) && m@ == (
        "Query cannot be empty")@),
        (req.query@.len() > 0 && req.top_k == 0) ==> (r matches Err(AppError::ValidationError(m))
            && m@ == ("top_k must be at least 1")@),
        (req.query@.len() > 0 && req.top_k >= 1 && tools_len == 0) ==> (r matches Err(
            AppError::ValidationError(m),
        ) && m@ == ("No tools loaded. Set TOOLS_PATH environment variable.")@),
{
    if req.query.as_str().is_empty() {
        return Err(AppError::ValidationError(String::from_str("Query cannot be empty")));
    }
    if req.top_k == 0 {
        return Err(AppError::ValidationError(String::from_str("top_k must be at least 1")));
    }
    if tools_len == 0 {
        return Err(
            AppError::ValidationError(
                String::from_str("No tools loaded. Set TOOLS_PATH environment variable."),
            ),
        );
    }
    Ok(())
}

/// How many results a search will return and how many candidates its first
/// stage keeps: each budget clamped to the catalog size.
pub fn search_plan(top_k: usize, retrieval_candidates: usize, tools_len: usize) -> (r: (
    usize,
    usize,
))
    ensures
        r.0 == if top_k <= tools_len {
            top_k as int
        } else {
            tools_len as int
        },
        r.1 == if retrieval_candidates <= tools_len {
            retrieval_candidates as int
        } else {
            tools_len as int
        },
{
    let k = if top_k <= tools_len {
        top_k
    } else {
        tools_len
    };
    let c = if retrieval_candidates <= tools_len {
        retrieval_candidates
    } else {
        tools_len
    };
    (k, c)
}

/// A search returns exactly `min(top_k, tools)` results: its first stage
/// keeps `min(retrieval_candidates, tools)` candidates, its second ranks
/// them all, and the response takes the clamped `top_k` of that ranking —
/// which is `min(top_k, tools)` whenever the candidate budget is at least
/// `top_k`.
pub proof fn lemma_search_result_size(top_k: int, retrieval_candidates: int, tools_len: int)
    requires
        0 <= top_k <= retrieval_candidates,
        0 <= tools_len,
    ensures
        ({
            let clamped = if top_k <= tools_len {
                top_k
            } else {
                tools_len
            };
            let candidates = if retrieval_candidates <= tools_len {
                retrieval_candidates
            } else {
                tools_len
            };
            let returned = if clamped <= candidates {
                clamped
            } else {
                candidates
            };
            returned == clamped
        }),
{
}

/// The body of the health endpoint.
pub fn health_response(version: String) -> (r: HealthResponse)
    ensures
        r.status@ == ("healthy")@,
        r.version@ == version@,
{
    HealthResponse { status: String::from_str("healthy"), version }
}

/// The readiness endpoint: `200 ready` once warmup has finished, else
/// `503 not_ready`.
pub fn ready_response(ready: bool, version: String) -> (r: (u16, HealthResponse))
    ensures
        ready ==> r.0 == 200 && r.1.status@ == ("ready")@,
        !ready ==> r.0 == 503 && r.1.status@ == ("not_ready")@,
        r.1.version@ == version@,
{
    if ready {
        (200, HealthResponse { status: String::from_str("ready"), version })
    } else {
        (503, HealthResponse { status: String::from_str("not_ready"), version })
    }
}

} // verus!
