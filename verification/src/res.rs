//! Answers to requests: the errors of refused requests and the choice among
//! the handlers of the HTTP methods that a route serves.
use crate::error::UserError;
use vstd::prelude::*;

verus! {

/// HTTP status code of a successful answer.
pub const STATUS_OK: u16 = 200;

/// HTTP status code of a request whose method the route does not serve.
pub const STATUS_METHOD_NOT_ALLOWED: u16 = 405;

/// HTTP status code of a request whose acceptable formats the service cannot
/// answer in.
pub const STATUS_NOT_ACCEPTABLE: u16 = 406;

/// The answer to a refused request: the error it carries and the HTTP
/// status code it is answered with.
#[derive(Clone, Copy, Debug, PartialEq, Eq, Structural)]
pub struct RequestError {
    pub error: UserError,
    pub status: u16,
}

/// The refusal of a request whose method the route does not serve.
pub open spec fn method_not_allowed() -> RequestError {
    RequestError { error: UserError, status: STATUS_METHOD_NOT_ALLOWED }
}

/// The refusal of a request that accepts no answer the service can give.
pub open spec fn not_acceptable() -> RequestError {
    RequestError { error: UserError, status: STATUS_NOT_ACCEPTABLE }
}

/// A refused method is answered `405 Method Not Allowed`, and a request
/// that accepts no UTF-8 JSON `406 Not Acceptable`; both carry the bad
/// request error.
pub proof fn law_refusal_statuses()
    ensures
        method_not_allowed().status == 405,
        method_not_allowed().error == UserError,
        not_acceptable().status == 406,
        not_acceptable().error == UserError,
{
}

/// Refuses a request: its method is not served here (405).
pub fn err_method_not_allowed<T>() -> (r: Result<T, RequestError>)
    ensures
        r == Err::<T, RequestError>(method_not_allowed()),
{
    Err(RequestError { error: UserError, status: STATUS_METHOD_NOT_ALLOWED })
}

/// Refuses a request: it accepts no answer the service can give (406).
pub fn err_not_acceptable<T>() -> (r: Result<T, RequestError>)
    ensures
        r == Err::<T, RequestError>(not_acceptable()),
{
    Err(RequestError { error: UserError, status: STATUS_NOT_ACCEPTABLE })
}

/// An HTTP request method. Methods outside the standard set are all
/// `Extension`: a route names only standard methods, so none of them is
/// ever served.
#[derive(Clone, Copy, Debug, PartialEq, Eq, Structural)]
pub enum Method {
    Options,
    Get,
    Post,
    Put,
    Delete,
    Head,
    Trace,
    Connect,
    Patch,
    Extension,
}

/// Chooses the handler for a request's method among the methods a route
/// serves, in order: the position of the first one that is the request's
/// method, or the refusal `405` where the route does not serve it.
pub fn match_method(method: Method, served: &[Method]) -> (r: Result<usize, RequestError>)
    ensures
        r matches Ok(i) ==> i < served@.len() && served@[i as int] == method && forall|j: int|
            0 <= j < i ==> served@[j] != method,
        r is Err <==> !served@.contains(method),
        r matches Err(e) ==> e == method_not_allowed(),
{
    let mut i: usize = 0;
    while i < served.len()
        invariant
            i <= served@.len(),
            forall|j: int| 0 <= j < i ==> served@[j] != method,
        decreases served@.len() - i,
    {
        if served[i] == method {
            return Ok(i);
        }
        i = i + 1;
    }
    err_method_not_allowed()
}

/// The greeting that the service's API root answers with.
#[derive(Clone, Copy, Debug, PartialEq, Eq)]
pub struct HelloWorld {
    pub msg: &'static str,
}

/// The API root: a `GET` is answered with the greeting, every other method
/// is refused with `405`.
pub fn hello(method: Method) -> (r: Result<HelloWorld, RequestError>)
    ensures
        r is Ok <==> method == Method::Get,
        r matches Ok(h) ==> h.msg@ == "Hello! :)"@,
        r matches Err(e) ==> e == method_not_allowed(),
{
    let served = [Method::Get];
    match match_method(method, &served) {
        Ok(_) => Ok(HelloWorld { msg: "Hello! :)" }),
        Err(e) => Err(e),
    }
}

} // verus!
