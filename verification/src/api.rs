//! The decisions of the HTTP API through which servers are added, deleted and
//! updated, on both sides: the balancer answering, and the command line asking.
use crate::balancer::{BalancerError, BalancerRequest, BalancerResponse};
use vstd::prelude::*;
use vstd::string::*;
use vstd::utf8::{decode_utf8, valid_utf8};

verus! {

/// Which change an API call asks for, by its method and path.
#[derive(Debug, PartialEq, Eq)]
pub enum ApiRoute {
    /// `POST /add`, with a server in JSON as body.
    Add,
    /// `POST /delete`, with the url of a server as body.
    Delete,
    /// `POST /update`, with a server in JSON as body.
    Update,
    /// Anything else.
    BadRequest,
}

/// Compares two texts with `==` on `str`: equal exactly where they hold the
/// same characters, as std documents it.
#[verifier::external_body]
fn same_text(a: &str, b: &str) -> (r: bool)
    ensures
        r == (a@ == b@),
{
    a == b
}

/// Calls `String::from_utf8`: std documents that it succeeds exactly on valid
/// UTF-8, with the text those bytes encode; the contract states this with
/// vstd's UTF-8 specification.
#[verifier::external_body]
fn text_from_utf8(bytes: Vec<u8>) -> (r: Option<String>)
    ensures
        r is Some <==> valid_utf8(bytes@),
        r matches Some(s) ==> s@ == decode_utf8(bytes@),
{
    match String::from_utf8(bytes) {
        Ok(s) => Some(s),
        Err(_) => None,
    }
}

/// The change that a call with `method` and `path` asks for.
pub fn route(method: &str, path: &str) -> (r: ApiRoute)
    ensures
        r == (if method@ != "POST"@ {
            ApiRoute::BadRequest
        } else if path@ == "/add"@ {
            ApiRoute::Add
        } else if path@ == "/delete"@ {
            ApiRoute::Delete
        } else if path@ == "/update"@ {
            ApiRoute::Update
        } else {
            ApiRoute::BadRequest
        }),
{
    if !same_text(method, "POST") {
        ApiRoute::BadRequest
    } else if same_text(path, "/add") {
        ApiRoute::Add
    } else if same_text(path, "/delete") {
        ApiRoute::Delete
    } else if same_text(path, "/update") {
        ApiRoute::Update
    } else {
        ApiRoute::BadRequest
    }
}

/// The deletion that a `/delete` call asks for: its body is the url; a body
/// that is not UTF-8 asks for nothing.
pub fn delete_request(body: Vec<u8>) -> (r: Option<BalancerRequest>)
    ensures
        match r {
            Some(req) => valid_utf8(body@) && (req matches BalancerRequest::DeleteServer(u) && u@
                == decode_utf8(body@)),
            None => !valid_utf8(body@),
        },
{
    match text_from_utf8(body) {
        Some(url) => Some(BalancerRequest::DeleteServer(url)),
        None => None,
    }
}

/// The answer to an API call, from the outcome of the change it asked for: a
/// refusal is a bad request carrying its message.
pub fn response_for(result: &Result<(), BalancerError>) -> (r: BalancerResponse)
    ensures
        match result {
            Ok(()) => r is Success,
            Err(BalancerError::MyError(m)) => r matches BalancerResponse::Error(c, t) && c == 400 && t@
                == m@,
            Err(_) => r matches BalancerResponse::Error(c, t) && c == 500 && t@
                == "internal server error"@,
        },
{
    match result {
        Ok(()) => BalancerResponse::Success,
        Err(BalancerError::MyError(m)) => BalancerResponse::Error(400, m.clone()),
        Err(_) => BalancerResponse::Error(500, String::from_str("internal server error")),
    }
}

/// The HTTP status and body that answer `resp`.
pub fn reply_for(resp: &BalancerResponse) -> (r: (u16, String))
    ensures
        match resp {
            BalancerResponse::Success => r.0 == 200 && r.1@ == Seq::<char>::empty(),
            BalancerResponse::Error(c, m) => r.0 == *c && r.1@ == m@,
        },
{
    match resp {
        BalancerResponse::Success => (200, String::new()),
        BalancerResponse::Error(c, m) => (*c, m.clone()),
    }
}

/// The HTTP status and body that answer a call to no known route.
pub fn bad_request_reply() -> (r: (u16, String))
    ensures
        r.0 == 400 && r.1@ == "bad request"@,
{
    (400, String::from_str("bad request"))
}

/// What the command line makes of the balancer's answer: success on status
/// 200, and otherwise the body as the error.
pub fn check_api_reply(status: u16, body: String) -> (r: Result<(), BalancerError>)
    ensures
        status == 200 ==> r is Ok,
        status != 200 ==> (r matches Err(BalancerError::MyError(m)) && m@ == body@),
{
    if status == 200 {
        Ok(())
    } else {
        Err(BalancerError::MyError(body))
    }
}

} // verus!
