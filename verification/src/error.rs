//! The API error record and its JSON response form.
//!
//! An error is a status code, a message and a details string. It turns into
//! an HTTP response whose body is the JSON object with fields `code`,
//! `message` and `details`, in that order, with no added whitespace.

use vstd::prelude::*;
use vstd::string::StringSliceAdditionalSpecFns;
use crate::response::Response;

verus! {

/// The bytes of the JSON string literal (quoted and escaped) that encodes
/// the characters `s`; what serde_json produces for a string.
pub uninterp spec fn json_string_bytes(s: Seq<char>) -> Seq<u8>;

/// Relies on serde_json::to_vec on a string slice: it yields the JSON string
/// literal for exactly those characters and cannot fail for strings.
#[verifier::external_body]
fn json_quote(s: &str) -> (r: Vec<u8>)
    ensures
        r@ == json_string_bytes(s@),
{
    serde_json::to_vec(s).expect("serializing a string cannot fail")
}

/// The decimal digits of `n`, most significant first, as ASCII bytes.
pub open spec fn spec_udec(n: nat) -> Seq<u8>
    decreases n,
{
    if n < 10 {
        seq![(48 + n) as u8]
    } else {
        spec_udec(n / 10).push((48 + n % 10) as u8)
    }
}

/// The JSON body of an error response: an object holding `code`, `message`
/// and `details`, serialized without whitespace.
pub open spec fn spec_error_body(code: u16, message: Seq<char>, details: Seq<char>) -> Seq<u8> {
    "{\"code\":".spec_bytes() + spec_udec(code as nat) + ",\"message\":".spec_bytes()
        + json_string_bytes(message) + ",\"details\":".spec_bytes() + json_string_bytes(details)
        + "}".spec_bytes()
}

/// API error format.
pub struct Error {
    /// HTTP status code carried by the error.
    pub code: u16,
    /// Short human-readable message.
    pub message: String,
    /// Further details.
    pub details: String,
}

impl Error {
    /// Internal Server Error.
    pub fn internal(message: &str, details: &str) -> (e: Self)
        ensures
            e.code == 500,
            e.message@ == message@,
            e.details@ == details@,
    {
        Error { code: 500, message: message.to_owned(), details: details.to_owned() }
    }

    /// Generate 404 not found error.
    pub fn not_found(details: &str) -> (e: Self)
        ensures
            e.code == 404,
            e.message@ == "Requested resource was not found."@,
            e.details@ == details@,
    {
        Error {
            code: 404,
            message: "Requested resource was not found.".to_owned(),
            details: details.to_owned(),
        }
    }

    /// Generate 400 bad request error.
    pub fn bad_request(message: &str, details: &str) -> (e: Self)
        ensures
            e.code == 400,
            e.message@ == message@,
            e.details@ == details@,
    {
        Error { code: 400, message: message.to_owned(), details: details.to_owned() }
    }

    /// Generate 405 method not allowed error.
    pub fn method_not_allowed(message: &str, details: &str) -> (e: Self)
        ensures
            e.code == 405,
            e.message@ == message@,
            e.details@ == details@,
    {
        Error { code: 405, message: message.to_owned(), details: details.to_owned() }
    }

    /// The HTTP response for this error: its status is the error's code, the
    /// body is the JSON error object, and the content type is JSON.
    pub fn to_response(&self) -> (r: Response)
        ensures
            r.spec_status() == self.code,
            r.spec_body() == spec_error_body(self.code, self.message@, self.details@),
            r.spec_headers() =~~= seq![
                ("Content-Type"@, seq!["application/json".spec_bytes()]),
            ],
    {
        let mut body: Vec<u8> = Vec::new();
        push_bytes(&mut body, "{\"code\":".as_bytes());
        push_udec(&mut body, self.code);
        push_bytes(&mut body, ",\"message\":".as_bytes());
        let q = json_quote(self.message.as_str());
        push_bytes(&mut body, q.as_slice());
        push_bytes(&mut body, ",\"details\":".as_bytes());
        let q2 = json_quote(self.details.as_str());
        push_bytes(&mut body, q2.as_slice());
        push_bytes(&mut body, "}".as_bytes());
        proof {
            assert(body@ =~= spec_error_body(self.code, self.message@, self.details@));
        }
        Response::json_response(self.code, body)
    }
}

/// Appends a byte slice to a byte vector.
fn push_bytes(out: &mut Vec<u8>, b: &[u8])
    ensures
        final(out)@ == old(out)@ + b@,
{
    let mut i: usize = 0;
    while i < b.len()
        invariant
            i <= b@.len(),
            out@ == old(out)@ + b@.take(i as int),
        decreases b@.len() - i,
    {
        out.push(b[i]);
        proof {
            assert(out@ =~= old(out)@ + b@.take(i as int + 1));
        }
        i = i + 1;
    }
    proof {
        assert(old(out)@ + b@.take(b@.len() as int) =~= old(out)@ + b@);
    }
}

/// Appends the decimal digits of `n` to a byte vector.
fn push_udec(out: &mut Vec<u8>, n: u16)
    ensures
        final(out)@ == old(out)@ + spec_udec(n as nat),
    decreases n,
{
    if n < 10 {
        out.push(48 + n as u8);
        proof {
            assert(out@ =~= old(out)@ + spec_udec(n as nat));
        }
    } else {
        push_udec(out, n / 10);
        out.push(48 + (n % 10) as u8);
        proof {
            assert(out@ =~= old(out)@ + spec_udec(n as nat));
        }
    }
}

} // verus!
