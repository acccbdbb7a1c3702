use vstd::prelude::*;
use vstd::string::StringExecFns;
use crate::error::AnalyzeError;

verus! {

/// Where the change summaries are sent for scoring.
pub const ANALYZE_ENDPOINT: &'static str = "https://api.deepseek.com/v1/analyze";

/// What stands for a missing author email or name.
pub const UNKNOWN_IDENTITY: &'static str = "unknown";

/// Accepts a credential only when one was given and it is not empty.
pub fn validate_credential(api_key: Option<String>) -> (r: Result<String, AnalyzeError>)
    ensures
        r is Ok <==> (api_key matches Some(k) && k@.len() > 0),
        r matches Ok(k) ==> api_key matches Some(a) && k@ == a@,
        r matches Err(e) ==> e == AnalyzeError::Configuration,
{
    match api_key {
        Some(k) => {
            if k.as_str().is_empty() {
                Err(AnalyzeError::Configuration)
            } else {
                Ok(k)
            }
        },
        None => Err(AnalyzeError::Configuration),
    }
}

/// The value of the `Authorization` header that carries `api_key`.
pub fn bearer_header(api_key: &str) -> (r: String)
    ensures
        r@ == "Bearer "@ + api_key@,
{
    let mut r = String::new();
    r.append("Bearer ");
    r.append(api_key);
    proof {
        reveal_strlit("Bearer ");
    }
    assert(r@ =~= "Bearer "@ + api_key@);
    r
}

/// The email or display name of an author, or `unknown` where the backend
/// has none.
pub fn identity_or_unknown(field: Option<String>) -> (r: String)
    ensures
        r@ == match field {
            Some(s) => s@,
            None => UNKNOWN_IDENTITY@,
        },
{
    match field {
        Some(s) => s,
        None => String::from_str(UNKNOWN_IDENTITY),
    }
}

/// Sorts an HTTP status of the scoring service: success, a rejected
/// credential (401), or any other failure.
pub fn classify_status(status: u16) -> (r: Result<(), AnalyzeError>)
    ensures
        r is Ok <==> 200 <= status <= 299,
        r == Err::<(), AnalyzeError>(AnalyzeError::Authentication) <==> status == 401,
        r == Err::<(), AnalyzeError>(AnalyzeError::RemoteService) <==> !(200 <= status <= 299 || status == 401),
{
    if 200 <= status && status <= 299 {
        Ok(())
    } else if status == 401 {
        Err(AnalyzeError::Authentication)
    } else {
        Err(AnalyzeError::RemoteService)
    }
}

} // verus!
