//! The error taxonomy of the dispatch pipeline and of router construction,
//! and the mapping of each pipeline error to an HTTP status code.
use vstd::prelude::*;
use vstd::string::StringExecFns;

use crate::method::HttpMethod;

verus! {

/// A failure while building a routing table from project routes.
#[derive(Debug)]
pub enum BuildError {
    /// Two entries for one path name the same method.
    DuplicateMethod { path: String, method: HttpMethod },
    /// A path pattern differs from an earlier one only in parameter names,
    /// so a match would be ambiguous.
    ConflictingPattern { path: String },
    /// A path pattern does not begin with `/`.
    InvalidPattern { path: String },
}

/// A failure while dispatching one request.
#[derive(Debug)]
pub enum AppError {
    /// No tenant is registered for the request host.
    HostNotFound(String),
    /// No route pattern matches the request path.
    RoutePathNotFound(String),
    /// A pattern matches the path, but carries no handler for the method.
    RouteMethodNotAllowed(HttpMethod),
    /// The script bundle failed to evaluate.
    WorkerInit(String),
    /// The handler's return value has the wrong shape.
    WorkerShape(String),
    /// The handler's promise was rejected.
    WorkerRejected(String),
    /// Any other unexpected failure.
    Internal(String),
}

/// The HTTP status under which a pipeline error is reported.
pub open spec fn spec_status_of(e: AppError) -> u16 {
    match e {
        AppError::HostNotFound(_) => 404,
        AppError::RoutePathNotFound(_) => 404,
        AppError::RouteMethodNotAllowed(_) => 405,
        AppError::WorkerInit(_) => 500,
        AppError::WorkerShape(_) => 502,
        AppError::WorkerRejected(_) => 500,
        AppError::Internal(_) => 500,
    }
}

impl AppError {
    /// The HTTP status code this error is rendered with.
    pub fn status_code(&self) -> (s: u16)
        ensures
            s == spec_status_of(*self),
    {
        match self {
            AppError::HostNotFound(_) => 404,
            AppError::RoutePathNotFound(_) => 404,
            AppError::RouteMethodNotAllowed(_) => 405,
            AppError::WorkerInit(_) => 500,
            AppError::WorkerShape(_) => 502,
            AppError::WorkerRejected(_) => 500,
            AppError::Internal(_) => 500,
        }
    }

    /// A short plain-text description, carrying the offending detail.
    pub fn message(&self) -> (s: String)
        ensures
            match self {
                AppError::HostNotFound(h) => s@ == "host not found: "@ + h@,
                AppError::RoutePathNotFound(p) => s@ == "route path not found: "@ + p@,
                AppError::RouteMethodNotAllowed(m) => s@ == "method not allowed: "@
                    + crate::method::method_chars(*m),
                AppError::WorkerInit(d) => s@ == "worker init failed: "@ + d@,
                AppError::WorkerShape(d) => s@ == "bad handler response shape: "@ + d@,
                AppError::WorkerRejected(d) => s@ == "handler rejected: "@ + d@,
                AppError::Internal(d) => s@ == "internal error: "@ + d@,
            },
    {
        match self {
            AppError::HostNotFound(h) => concat_onto("host not found: ", h),
            AppError::RoutePathNotFound(p) => concat_onto("route path not found: ", p),
            AppError::RouteMethodNotAllowed(m) => {
                let tail = crate::strutil::from_chars(&crate::method::method_name_chars(*m));
                concat_onto("method not allowed: ", &tail)
            },
            AppError::WorkerInit(d) => concat_onto("worker init failed: ", d),
            AppError::WorkerShape(d) => concat_onto("bad handler response shape: ", d),
            AppError::WorkerRejected(d) => concat_onto("handler rejected: ", d),
            AppError::Internal(d) => concat_onto("internal error: ", d),
        }
    }
}

/// `prefix` followed by `tail`, as a fresh string.
fn concat_onto(prefix: &str, tail: &String) -> (s: String)
    ensures
        s@ == prefix@ + tail@,
{
    let mut s = prefix.to_owned();
    s.append(tail.as_str());
    s
}

} // verus!
