//! Metrics about the errors that requests caused.

use crate::goose::GooseMethod;
use vstd::prelude::*;

verus! {

/// For tracking and counting errors detected during a load test.
///
/// Multiple errors that share the same request method, the same request name, and the same error
/// text are contained within a single GooseErrorMetric object, with `occurrences` indicating how
/// many times this error was seen.
#[derive(Debug, Clone, Eq, PartialEq)]
pub struct GooseErrorMetric {
    /// The method that resulted in an error.
    pub method: GooseMethod,
    /// The optional name of the request.
    pub name: String,
    /// The error string.
    pub error: String,
    /// A counter reflecting how many times this error occurred.
    pub occurrences: usize,
}

/// What a `GooseErrorMetric` says.
#[verifier::ext_equal]
pub struct ErrorModel {
    pub method: GooseMethod,
    pub name: Seq<char>,
    pub error: Seq<char>,
    pub occurrences: int,
}

impl View for GooseErrorMetric {
    type V = ErrorModel;

    open spec fn view(&self) -> ErrorModel {
        ErrorModel {
            method: self.method,
            name: self.name@,
            error: self.error@,
            occurrences: self.occurrences as int,
        }
    }
}

impl GooseErrorMetric {
    /// An error that did not occur yet.
    pub fn new(method: GooseMethod, name: String, error: String) -> (r: Self)
        ensures
            r@ == (ErrorModel { method, name: name@, error: error@, occurrences: 0 }),
    {
        GooseErrorMetric { method, name, error, occurrences: 0 }
    }
}

/// The key under which errors of one kind are kept: `error.method.name`.
pub open spec fn error_key(error: Seq<char>, method: GooseMethod, name: Seq<char>) -> Seq<char> {
    error + "."@ + method.text() + "."@ + name
}

/// Writes the key under which errors of one kind are kept.
pub(crate) fn error_key_text(error: &str, method: GooseMethod, name: &str) -> (r: String)
    ensures
        r@ == error_key(error@, method, name@),
{
    error.to_string().concat(".").concat(method.as_str()).concat(".").concat(name)
}

} // verus!
