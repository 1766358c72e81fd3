//! The uniformly shaped error descriptor every operation reports:
//! a code from the error taxonomy, a human message, and a fresh trace
//! identifier.

use vstd::prelude::*;

use crate::digits::spec_digits;

verus! {

#[derive(Debug)]
pub struct ErrorDetails {
    pub code: String,
    pub message: String,
    pub trace_id: String,
}

/// An error response: `ok` is always false, the details carry the
/// classification.
#[derive(Debug)]
pub struct ApiError {
    pub ok: bool,
    pub error: ErrorDetails,
}

/// Relies on uuid's `Uuid::new_v4` and its `Display` form: the
/// hyphenated rendering of a UUID is 36 characters. The value itself is
/// random, so nothing more is promised.
#[verifier::external_body]
fn fresh_trace_id() -> (r: String)
    ensures
        r@.len() == 36,
{
    uuid::Uuid::new_v4().to_string()
}

impl ApiError {
    pub fn new(code: &str, message: &str) -> (e: ApiError)
        ensures
            e.ok == false,
            e.error.code@ == code@,
            e.error.message@ == message@,
            e.error.trace_id@.len() == 36,
    {
        ApiError {
            ok: false,
            error: ErrorDetails {
                code: String::from_str(code),
                message: String::from_str(message),
                trace_id: fresh_trace_id(),
            },
        }
    }

    pub fn database(message: &str) -> (e: ApiError)
        ensures
            e.ok == false,
            e.error.code@ == "DATABASE_ERROR"@,
            e.error.message@ == message@,
            e.error.trace_id@.len() == 36,
    {
        ApiError::new("DATABASE_ERROR", message)
    }

    /// An upstream failure: the HTTP status is kept in the code.
    pub fn upstream(status: u16, message: &str) -> (e: ApiError)
        ensures
            e.ok == false,
            e.error.code@ == "UPSTREAM_"@ + spec_digits(status as nat),
            e.error.message@ == message@,
            e.error.trace_id@.len() == 36,
    {
        let mut code = String::from_str("UPSTREAM_");
        crate::digits::push_digits(status as u64, &mut code);
        ApiError {
            ok: false,
            error: ErrorDetails {
                code,
                message: String::from_str(message),
                trace_id: fresh_trace_id(),
            },
        }
    }

    pub fn not_found(message: &str) -> (e: ApiError)
        ensures
            e.ok == false,
            e.error.code@ == "NOT_FOUND"@,
            e.error.message@ == message@,
            e.error.trace_id@.len() == 36,
    {
        ApiError::new("NOT_FOUND", message)
    }

    pub fn internal(message: &str) -> (e: ApiError)
        ensures
            e.ok == false,
            e.error.code@ == "INTERNAL_ERROR"@,
            e.error.message@ == message@,
            e.error.trace_id@.len() == 36,
    {
        ApiError::new("INTERNAL_ERROR", message)
    }

    pub fn validation(message: &str) -> (e: ApiError)
        ensures
            e.ok == false,
            e.error.code@ == "VALIDATION_ERROR"@,
            e.error.message@ == message@,
            e.error.trace_id@.len() == 36,
    {
        ApiError::new("VALIDATION_ERROR", message)
    }

    /// The one-line rendering of the error.
    pub fn display_string(&self) -> (s: String)
        ensures
            s@ == "ApiError["@ + self.error.code@ + "]: "@ + self.error.message@ + " (trace: "@
                + self.error.trace_id@ + ")"@,
    {
        let mut out = String::from_str("ApiError[");
        out.append(self.error.code.as_str());
        out.append("]: ");
        out.append(self.error.message.as_str());
        out.append(" (trace: ");
        out.append(self.error.trace_id.as_str());
        out.append(")");
        proof {
            assert(out@ =~= "ApiError["@ + self.error.code@ + "]: "@ + self.error.message@
                + " (trace: "@ + self.error.trace_id@ + ")"@);
        }
        out
    }
}

/// Classifies an HTTP client failure: a response status makes an
/// upstream error tagged with it, no status makes an internal error.
pub fn classify_http_error(status: Option<u16>, message: &str) -> (e: ApiError)
    ensures
        e.ok == false,
        e.error.message@ == message@,
        match status {
            Some(s) => e.error.code@ == "UPSTREAM_"@ + spec_digits(s as nat),
            None => e.error.code@ == "INTERNAL_ERROR"@,
        },
{
    match status {
        Some(s) => ApiError::upstream(s, message),
        None => ApiError::internal(message),
    }
}

} // verus!
