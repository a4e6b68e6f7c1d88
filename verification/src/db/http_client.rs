//! The download of the game database over HTTP: its settings, what a
//! response turns into, and when a failed request is tried again. The
//! requests themselves are left to the program around the library.
use vstd::prelude::*;
use crate::db::error::DatabaseError;
use crate::outside::duration_from_secs;
use crate::text::{chars_of, decimal, decimal_chars, parse_unsigned, push_str, string_from_chars, unsigned_parse};

verus! {

/// Where the database is downloaded from, and the client's limits.
pub struct HttpConfig {
    pub base_url: String,
    pub endpoint: String,
    pub user_agent: String,
    pub timeout: std::time::Duration,
    pub connect_timeout: std::time::Duration,
    pub max_retries: u32,
    pub retry_delay: std::time::Duration,
}

impl Default for HttpConfig {
    fn default() -> (r: Self)
        ensures
            r.base_url@ == "https://discord.com/api/v9"@,
            r.endpoint@ == "/applications/detectable"@,
            r.user_agent@ == "arRPC-Rust/1.0"@,
            r.max_retries == 3,
    {
        HttpConfig {
            base_url: string_from_chars(chars_of("https://discord.com/api/v9").as_slice()),
            endpoint: string_from_chars(chars_of("/applications/detectable").as_slice()),
            user_agent: string_from_chars(chars_of("arRPC-Rust/1.0").as_slice()),
            timeout: duration_from_secs(30),
            connect_timeout: duration_from_secs(10),
            max_retries: 3,
            retry_delay: duration_from_secs(1),
        }
    }
}

impl HttpConfig {
    /// The url the database is downloaded from: the base url followed by
    /// the endpoint.
    pub fn url(&self) -> (r: String)
        ensures
            r@ == self.base_url@ + self.endpoint@,
    {
        let mut u = string_from_chars(chars_of(self.base_url.as_str()).as_slice());
        push_str(&mut u, self.endpoint.as_str());
        u
    }
}

/// The status codes the download tells apart.
pub const STATUS_OK: u16 = 200;
pub const STATUS_NOT_MODIFIED: u16 = 304;

/// A downloaded database: its bytes and what the headers said.
pub struct DatabaseResponse {
    pub data: Vec<u8>,
    pub etag: Option<String>,
    pub last_modified: Option<String>,
    pub content_length: Option<u64>,
    pub status: u16,
}

/// How one request went.
pub enum RequestOutcome {
    /// An answer with this status; the body and headers are read only for
    /// a 200.
    Answered(u16),
    /// The request failed before any answer, for this reason.
    Failed(String),
}

/// What follows a request.
pub enum DownloadStep {
    /// Read the body and headers of the 200 answer.
    ReadBody,
    /// The database did not change.
    NotModified,
    /// Try again at once.
    RetryNow,
    /// Try again after the retry delay times `multiplier`; no multiplier
    /// when it does not fit in 32 bits.
    RetryAfter { multiplier: Option<u32> },
    /// Give up with this error.
    Fail(DatabaseError),
}

/// Two to the power `e`, when it fits in 32 bits.
pub open spec fn pow2_u32(e: nat) -> Option<u32> {
    if e < 32 {
        Some(vstd::arithmetic::power2::pow2(e) as u32)
    } else {
        None
    }
}

/// The reason phrase that `StatusCode::from_u16(code)` and
/// `StatusCode::canonical_reason` give a status code: none for a code
/// outside 100 to 999 or without a standard phrase.
pub uninterp spec fn reason_phrase(code: u16) -> Option<Seq<char>>;

/// `StatusCode::from_u16` then `StatusCode::canonical_reason`: the reason
/// phrase of the code (see `reason_phrase`); a code outside 100 to 999 has
/// none.
#[verifier::external_body]
fn canonical_reason(code: u16) -> (r: Option<String>)
    ensures
        match r {
            Some(t) => reason_phrase(code) == Some(t@),
            None => reason_phrase(code) is None,
        },
        !(100 <= code <= 999) ==> r is None,
{
    match reqwest::StatusCode::from_u16(code) {
        Ok(status) => status.canonical_reason().map(String::from),
        Err(_) => None,
    }
}

/// How a status code is written (`StatusCode`'s `Display`): the number, a
/// space, and its reason phrase or `<unknown status code>`.
pub open spec fn status_text(code: u16) -> Seq<char> {
    decimal(code as nat) + " "@ + match reason_phrase(code) {
        Some(p) => p,
        None => "<unknown status code>"@,
    }
}

/// Writes a status code as `StatusCode`'s `Display` does (see `status_text`).
pub fn status_display(code: u16) -> (r: String)
    ensures
        r@ == status_text(code),
{
    let mut r = string_from_chars(decimal_chars(code as u128).as_slice());
    push_str(&mut r, " ");
    match canonical_reason(code) {
        Some(p) => push_str(&mut r, p.as_str()),
        None => push_str(&mut r, "<unknown status code>"),
    }
    r
}

/// The requests of one download: how many were made, of how many allowed.
pub struct DownloadAttempts {
    attempt: u32,
    max_retries: u32,
}

impl DownloadAttempts {
    /// The number of requests made.
    pub closed spec fn made(&self) -> u32 {
        self.attempt
    }

    /// The number of requests allowed.
    pub closed spec fn allowed(&self) -> u32 {
        self.max_retries
    }

    /// No request made yet.
    pub fn new(max_retries: u32) -> (r: Self)
        ensures
            r.made() == 0,
            r.allowed() == max_retries,
    {
        DownloadAttempts { attempt: 0, max_retries }
    }

    /// A request begins; its number is returned.
    pub fn begin(&mut self) -> (r: u32)
        requires
            old(self).made() < u32::MAX,
        ensures
            r == old(self).made() + 1,
            final(self).made() == r,
            final(self).allowed() == old(self).allowed(),
    {
        self.attempt = self.attempt + 1;
        self.attempt
    }

    /// What follows the request: a 200 is read, a 304 means no change; any
    /// other status is tried again at once, or fails as an HTTP error once
    /// the allowed requests are made; a request that got no answer is tried
    /// again after a delay that doubles each time, or fails as a network
    /// error once the allowed requests are made.
    pub fn after(&self, outcome: RequestOutcome) -> (r: DownloadStep)
        requires
            self.made() >= 1,
        ensures
            match outcome {
                RequestOutcome::Answered(s) => if s == STATUS_OK {
                    r == DownloadStep::ReadBody
                } else if s == STATUS_NOT_MODIFIED {
                    r == DownloadStep::NotModified
                } else if self.made() >= self.allowed() {
                    r matches DownloadStep::Fail(DatabaseError::HttpError { status, message })
                        && status == s && message@ == "HTTP "@ + status_text(s) + " after "@ + decimal(self.made() as nat) + " attempts"@
                } else {
                    r == DownloadStep::RetryNow
                },
                RequestOutcome::Failed(e) => if self.made() >= self.allowed() {
                    r matches DownloadStep::Fail(DatabaseError::NetworkError(m)) && m@ == e@
                } else {
                    r == DownloadStep::RetryAfter { multiplier: pow2_u32((self.made() - 1) as nat) }
                },
            },
    {
        match outcome {
            RequestOutcome::Answered(s) => {
                if s == STATUS_OK {
                    DownloadStep::ReadBody
                } else if s == STATUS_NOT_MODIFIED {
                    DownloadStep::NotModified
                } else if self.attempt >= self.max_retries {
                    let mut m = string_from_chars(chars_of("HTTP ").as_slice());
                    let text = status_display(s);
                    push_str(&mut m, text.as_str());
                    push_str(&mut m, " after ");
                    push_str(&mut m, string_from_chars(decimal_chars(self.attempt as u128).as_slice()).as_str());
                    push_str(&mut m, " attempts");
                    DownloadStep::Fail(DatabaseError::HttpError { status: s, message: m })
                } else {
                    DownloadStep::RetryNow
                }
            },
            RequestOutcome::Failed(e) => {
                if self.attempt >= self.max_retries {
                    DownloadStep::Fail(DatabaseError::NetworkError(e))
                } else {
                    let exponent = self.attempt - 1;
                    let multiplier = if exponent < 32 {
                        proof {
                            vstd::arithmetic::power2::lemma_pow2_strictly_increases(exponent as nat, 32);
                            vstd::arithmetic::power2::lemma2_to64();
                        }
                        Some(1u32 << exponent)
                    } else {
                        None
                    };
                    proof {
                        if exponent < 32 {
                            vstd::bits::lemma_u32_shl_is_mul(1, exponent);
                            vstd::arithmetic::power2::lemma_pow2(exponent as nat);
                        }
                    }
                    DownloadStep::RetryAfter { multiplier }
                }
            },
        }
    }
}

/// Each request that got no answer waits twice as long as the one before:
/// the multiplier after request `k + 1` is double the one after request `k`,
/// while both fit in 32 bits.
pub proof fn law_backoff_doubles(k: nat)
    requires
        k + 1 < 32,
    ensures
        pow2_u32(k) is Some,
        pow2_u32(k + 1) is Some,
        pow2_u32(k + 1)->Some_0 == 2 * pow2_u32(k)->Some_0,
{
    vstd::arithmetic::power2::lemma_pow2_unfold(k + 1);
    vstd::arithmetic::power2::lemma_pow2_strictly_increases(k + 1, 32);
    vstd::arithmetic::power2::lemma_pow2_pos(k);
    vstd::arithmetic::power2::lemma2_to64();
}

/// The response for a 200 answer: its body, the `etag` and
/// `last-modified` headers when readable as text, and the `content-length`
/// header when it reads as a number.
pub fn ok_response(
    data: Vec<u8>,
    etag: Option<String>,
    last_modified: Option<String>,
    content_length: Option<String>,
) -> (r: DatabaseResponse)
    ensures
        r.data@ == data@,
        r.etag == etag,
        r.last_modified == last_modified,
        r.content_length == match content_length {
            Some(t) => match unsigned_parse(t@, u64::MAX as nat) {
                Some(v) => Some(v as u64),
                None => None,
            },
            None => None::<u64>,
        },
        r.status == STATUS_OK,
{
    let length = match &content_length {
        Some(t) => parse_unsigned(t.as_str(), u64::MAX),
        None => None,
    };
    DatabaseResponse { data, etag, last_modified, content_length: length, status: STATUS_OK }
}

/// The response for a 304 answer: no body, no entity tag, length 0.
pub fn not_modified_response() -> (r: DatabaseResponse)
    ensures
        r.data@.len() == 0,
        r.etag is None,
        r.last_modified is None,
        r.content_length == Some(0u64),
        r.status == STATUS_NOT_MODIFIED,
{
    DatabaseResponse { data: Vec::new(), etag: None, last_modified: None, content_length: Some(0), status: STATUS_NOT_MODIFIED }
}

/// The database version a `HEAD` answer gives: its `etag` header (or
/// `unknown`) when the status is a success, an error otherwise.
pub fn version_from_answer(status: u16, etag: Option<String>) -> (r: Result<String, DatabaseError>)
    ensures
        200 <= status < 300 ==> (r matches Ok(v) && v@ == match etag {
            Some(e) => e@,
            None => "unknown"@,
        }),
        !(200 <= status < 300) ==> (r matches Err(DatabaseError::HttpError { status: s, message: m })
            && s == status && m@ == "Failed to check database version"@),
{
    if 200 <= status && status < 300 {
        match etag {
            Some(e) => Ok(e),
            None => Ok(string_from_chars(chars_of("unknown").as_slice())),
        }
    } else {
        Err(DatabaseError::HttpError {
            status,
            message: string_from_chars(chars_of("Failed to check database version").as_slice()),
        })
    }
}

} // verus!
