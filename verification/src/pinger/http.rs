//! HTTP probe configuration and outcome classification.
//!
//! The probe itself is one network request performed by the surrounding
//! process. This module holds the logic around it: checking and normalising
//! the per-target metadata into a request plan, and classifying a response
//! by the target's configured acceptable status range.

use vstd::prelude::*;

use base64::Engine;

verus! {

/// Outcome of one HTTP probe attempt that received an answer or ran out of
/// time: latency in milliseconds and the response status, or a timeout.
#[derive(Clone, Copy, Debug, PartialEq, Eq)]
pub enum PingResponse {
    Down((u64, u16)),
    Up((u64, u16)),
    Timeout,
}

/// Per-target HTTP metadata, decoded from the target's opaque metadata blob
/// by the surrounding process.
#[derive(Debug)]
pub struct HttpMetadata {
    pub method: String,
    /// Request body, standard base64.
    pub body: Option<String>,
    pub successful_max: u16,
    pub successful_min: u16,
    /// Accept invalid TLS certificates and hostnames.
    pub insecure: bool,
    /// `None` or `Some(0)` means no redirects are followed.
    pub follow_redirects: Option<usize>,
    pub headers: Vec<(String, String)>,
    /// Per-request timeout override in seconds.
    pub timeout: Option<u32>,
}

/// Everything the surrounding process needs to arm one HTTP request, checked
/// and normalised from [`HttpMetadata`].
#[derive(Debug)]
pub struct RequestPlan {
    /// A valid HTTP method token.
    pub method: String,
    /// Decoded request body.
    pub body: Option<Vec<u8>>,
    /// `Some(n)` with `n > 0`: follow up to `n` redirects; `None`: none.
    pub redirect_limit: Option<usize>,
    pub timeout_secs: u64,
    pub insecure: bool,
    pub headers: Vec<(String, String)>,
}

/// Why a target's HTTP metadata cannot be armed into a request. Such an
/// error fails the single probe attempt; it is not fatal to the worker.
#[derive(Clone, Copy, Debug, PartialEq, Eq, Structural)]
pub enum HttpConfigError {
    InvalidMethod,
    InvalidBody,
}

/// Probe timeout in seconds when the target's metadata gives none.
pub const HTTP_PING_TIMEOUT: u64 = 30;

/// Standard base64 decoding with mandatory padding, as `base64`'s
/// `BASE64_STANDARD` engine computes it; `None` for a malformed encoding.
pub uninterp spec fn base64_standard_decoding(s: Seq<char>) -> Option<Seq<u8>>;

/// Relies on `base64::Engine::decode` of the `BASE64_STANDARD` engine: the
/// result is a function of the input characters alone.
#[verifier::external_body]
fn base64_decode(s: &str) -> (r: Option<Vec<u8>>)
    ensures
        r is Some <==> base64_standard_decoding(s@) is Some,
        r is Some ==> r->0@ == base64_standard_decoding(s@)->0,
{
    base64::prelude::BASE64_STANDARD.decode(s).ok()
}

/// A byte allowed in an HTTP method token (RFC 9110 `tchar`), exactly the
/// bytes `http::Method::from_bytes` accepts.
pub open spec fn is_method_byte(b: u8) -> bool {
    ||| b == 33  // !
    ||| 35 <= b <= 39  // # $ % & '
    ||| b == 42 || b == 43 || b == 45 || b == 46  // * + - .
    ||| 48 <= b <= 57  // 0-9
    ||| 65 <= b <= 90  // A-Z
    ||| 94 <= b <= 96  // ^ _ `
    ||| 97 <= b <= 122  // a-z
    ||| b == 124 || b == 126  // | ~
}

/// A well-formed HTTP method: a non-empty token.
pub open spec fn is_valid_method(bytes: Seq<u8>) -> bool {
    bytes.len() > 0 && forall|i: int| 0 <= i < bytes.len() ==> is_method_byte(#[trigger] bytes[i])
}

fn method_byte_ok(b: u8) -> (r: bool)
    ensures
        r == is_method_byte(b),
{
    b == 33 || (35 <= b && b <= 39) || b == 42 || b == 43 || b == 45 || b == 46 || (48 <= b && b
        <= 57) || (65 <= b && b <= 90) || (94 <= b && b <= 96) || (97 <= b && b <= 122) || b == 124
        || b == 126
}

/// Check that a method string is a non-empty HTTP token.
pub fn check_method(method: &str) -> (r: bool)
    ensures
        r == is_valid_method(vstd::utf8::encode_utf8(method@)),
{
    let bytes = method.as_bytes();
    if bytes.len() == 0 {
        return false;
    }
    let mut i: usize = 0;
    while i < bytes.len()
        invariant
            i <= bytes@.len(),
            bytes@ == vstd::utf8::encode_utf8(method@),
            forall|j: int| 0 <= j < i ==> is_method_byte(#[trigger] bytes@[j]),
        decreases bytes@.len() - i,
    {
        if !method_byte_ok(bytes[i]) {
            return false;
        }
        i = i + 1;
    }
    true
}

/// The redirect limit a plan carries for a configured redirect count:
/// following is only enabled for a positive count.
pub open spec fn spec_redirect_limit(follow_redirects: Option<usize>) -> Option<usize> {
    match follow_redirects {
        Some(v) => if v > 0 {
            Some(v)
        } else {
            None
        },
        None => None,
    }
}

/// The effective probe timeout for a configured override.
pub open spec fn spec_timeout_secs(timeout: Option<u32>) -> u64 {
    match timeout {
        Some(t) => t as u64,
        None => HTTP_PING_TIMEOUT,
    }
}

/// The decoded body a plan carries, if the metadata's body is well-formed.
pub open spec fn spec_body_decoding(body: Option<Seq<char>>) -> Option<Option<Seq<u8>>> {
    match body {
        None => Some(None),
        Some(b) => match base64_standard_decoding(b) {
            Some(d) => Some(Some(d)),
            None => None,
        },
    }
}

impl HttpMetadata {
    /// Check this metadata and normalise it into a request plan: the method
    /// must be a non-empty HTTP token and the body, if any, standard base64.
    /// A failure fails one probe attempt and names the first offending
    /// field, the method before the body.
    pub fn build_request(&self) -> (r: Result<RequestPlan, HttpConfigError>)
        ensures
            r is Ok <==> (is_valid_method(vstd::utf8::encode_utf8(self.method@))
                && spec_body_decoding(
                match self.body {
                    Some(ref b) => Some(b@),
                    None => None,
                },
            ) is Some),
            !is_valid_method(vstd::utf8::encode_utf8(self.method@)) ==> r == Err::<
                RequestPlan,
                HttpConfigError,
            >(HttpConfigError::InvalidMethod),
            r matches Err(e) ==> (e == HttpConfigError::InvalidMethod || e
                == HttpConfigError::InvalidBody),
            r matches Ok(p) ==> {
                &&& p.method@ == self.method@
                &&& (match (self.body, p.body) {
                    (None, None) => true,
                    (Some(ref b), Some(ref d)) => Some(d@) == base64_standard_decoding(b@),
                    _ => false,
                })
                &&& p.redirect_limit == spec_redirect_limit(self.follow_redirects)
                &&& p.timeout_secs == spec_timeout_secs(self.timeout)
                &&& p.insecure == self.insecure
                &&& p.headers@.len() == self.headers@.len()
                &&& forall|i: int|
                    0 <= i < self.headers@.len() ==> (#[trigger] p.headers@[i].0)@
                        == self.headers@[i].0@ && p.headers@[i].1@ == self.headers@[i].1@
            },
    {
        if !check_method(self.method.as_str()) {
            return Err(HttpConfigError::InvalidMethod);
        }
        let body: Option<Vec<u8>> = match self.body {
            None => None,
            Some(ref b) => {
                match base64_decode(b.as_str()) {
                    Some(d) => Some(d),
                    None => {
                        return Err(HttpConfigError::InvalidBody);
                    },
                }
            },
        };
        let redirect_limit: Option<usize> = match self.follow_redirects {
            Some(v) => if v > 0 {
                Some(v)
            } else {
                None
            },
            None => None,
        };
        let timeout_secs: u64 = match self.timeout {
            Some(t) => t as u64,
            None => HTTP_PING_TIMEOUT,
        };
        let mut headers: Vec<(String, String)> = Vec::new();
        let mut i: usize = 0;
        while i < self.headers.len()
            invariant
                i <= self.headers@.len(),
                headers@.len() == i,
                forall|j: int|
                    0 <= j < i ==> (#[trigger] headers@[j].0)@ == self.headers@[j].0@
                        && headers@[j].1@ == self.headers@[j].1@,
            decreases self.headers@.len() - i,
        {
            let name = self.headers[i].0.clone();
            let value = self.headers[i].1.clone();
            headers.push((name, value));
            i = i + 1;
        }
        Ok(
            RequestPlan {
                method: self.method.clone(),
                body,
                redirect_limit,
                timeout_secs,
                insecure: self.insecure,
                headers,
            },
        )
    }
}

/// Classify an answered probe by the target's acceptable status range:
/// inside the closed range `[successful_min, successful_max]` the target is
/// up, outside it is down; latency and status are carried either way.
pub fn classify_response(
    latency_ms: u64,
    status: u16,
    successful_min: u16,
    successful_max: u16,
) -> (r: PingResponse)
    ensures
        r == (if successful_min <= status && status <= successful_max {
            PingResponse::Up((latency_ms, status))
        } else {
            PingResponse::Down((latency_ms, status))
        }),
{
    if successful_min <= status && status <= successful_max {
        PingResponse::Up((latency_ms, status))
    } else {
        PingResponse::Down((latency_ms, status))
    }
}

} // verus!
