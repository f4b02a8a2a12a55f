//! What a load test is made of, as far as its metrics depend on it.

use vstd::prelude::*;

verus! {

/// The HTTP method of a request.
#[derive(Clone, Copy, Debug, PartialEq, Eq, PartialOrd, Ord, Hash, Structural)]
pub enum GooseMethod {
    Delete,
    Get,
    Head,
    Patch,
    Post,
    Put,
}

impl GooseMethod {
    /// The method as it is written in a request.
    pub open spec fn text(self) -> Seq<char> {
        match self {
            GooseMethod::Delete => "DELETE"@,
            GooseMethod::Get => "GET"@,
            GooseMethod::Head => "HEAD"@,
            GooseMethod::Patch => "PATCH"@,
            GooseMethod::Post => "POST"@,
            GooseMethod::Put => "PUT"@,
        }
    }

    /// The place of the method in the order of methods.
    pub open spec fn rank(self) -> int {
        match self {
            GooseMethod::Delete => 0,
            GooseMethod::Get => 1,
            GooseMethod::Head => 2,
            GooseMethod::Patch => 3,
            GooseMethod::Post => 4,
            GooseMethod::Put => 5,
        }
    }

    /// Writes the method as it is written in a request.
    pub fn as_str(&self) -> (r: &'static str)
        ensures
            r@ == self.text(),
    {
        match self {
            GooseMethod::Delete => "DELETE",
            GooseMethod::Get => "GET",
            GooseMethod::Head => "HEAD",
            GooseMethod::Patch => "PATCH",
            GooseMethod::Post => "POST",
            GooseMethod::Put => "PUT",
        }
    }

    pub(crate) fn place(&self) -> (r: u8)
        ensures
            r == self.rank(),
    {
        match self {
            GooseMethod::Delete => 0,
            GooseMethod::Get => 1,
            GooseMethod::Head => 2,
            GooseMethod::Patch => 3,
            GooseMethod::Post => 4,
            GooseMethod::Put => 5,
        }
    }
}

/// The status code of an HTTP response: three digits, the first of them not zero.
#[derive(Clone, Copy, Debug, PartialEq, Eq)]
pub struct StatusCode {
    code: u16,
}

impl View for StatusCode {
    type V = u16;

    closed spec fn view(&self) -> u16 {
        self.code
    }
}

/// Passes a number through `http::StatusCode::from_u16` and `http::StatusCode::as_u16`.
///
/// Believed of them: the first accepts exactly the numbers from 100 to 999, and the second gives
/// back the number that was accepted.
#[verifier::external_body]
fn http_status_code(src: u16) -> (r: Option<u16>)
    ensures
        r == if 100 <= src < 1000 {
            Some(src)
        } else {
            None
        },
{
    http::StatusCode::from_u16(src).ok().map(|status_code| status_code.as_u16())
}

impl StatusCode {
    #[verifier::type_invariant]
    spec fn three_digits(self) -> bool {
        100 <= self.code < 1000
    }

    /// The status code with the number `src`, if there is one.
    pub fn from_u16(src: u16) -> (r: Option<StatusCode>)
        ensures
            r is Some <==> 100 <= src < 1000,
            r matches Some(status_code) ==> status_code@ == src,
    {
        match http_status_code(src) {
            Some(code) => Some(StatusCode { code }),
            None => None,
        }
    }

    /// The number of the status code.
    pub fn as_u16(&self) -> (r: u16)
        ensures
            r == self@,
            100 <= r < 1000,
    {
        proof {
            use_type_invariant(self);
        }
        self.code
    }
}

/// A task that the users of a load test run.
#[derive(Debug)]
pub struct GooseTask {
    /// An index into `GooseTaskSet.tasks`, indicating which task this is.
    pub tasks_index: usize,
    /// The optional name of the task.
    pub name: String,
}

/// A set of tasks that are run together.
#[derive(Debug)]
pub struct GooseTaskSet {
    /// An index into the task sets of the load test, indicating which task set this is.
    pub task_sets_index: usize,
    /// The name of the task set.
    pub name: String,
    /// The tasks of the set.
    pub tasks: Vec<GooseTask>,
}

/// The options of a load test that say which metrics are collected.
#[derive(Debug)]
pub struct GooseConfiguration {
    /// Collect no metrics at all.
    pub no_metrics: bool,
    /// Collect no metrics about tasks.
    pub no_task_metrics: bool,
    /// Collect no summary of errors.
    pub no_error_summary: bool,
    /// Count the status codes of responses.
    pub status_codes: bool,
    /// The format in which requests are logged: `json`, `csv` or `raw`.
    pub requests_format: String,
}

} // verus!
