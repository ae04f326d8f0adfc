//! The gateway proxy's bookkeeping: deriving the handler name from a path,
//! capping stored bodies, the persisted log entries, and the retry policy of
//! the log writer. The proxying itself — streaming bodies between client and
//! backend — is the binary's business.

use vstd::prelude::*;

use crate::ids::{spec_dec_digits, u64_to_string};
use crate::text::{chars_to_string, str_chars};

verus! {

/// Cap on stored request and response bodies, in bytes.
pub const BODY_CAP: usize = 10000;

/// Number of attempts the log writer makes per entry.
pub const WRITE_ATTEMPTS: u32 = 3;

/// The characters after the last slash; the whole string when it has none.
pub open spec fn spec_after_last_slash(s: Seq<char>) -> Seq<char>
    decreases s.len(),
{
    if s.len() == 0 {
        s
    } else if s.last() == '/' {
        Seq::empty()
    } else {
        spec_after_last_slash(s.drop_last()).push(s.last())
    }
}

/// The function name a request path addresses: its last path segment.
pub fn extract_function_name(path: &str) -> (r: String)
    ensures
        r@ == spec_after_last_slash(path@),
{
    let chars = str_chars(path);
    let mut start: usize = 0;
    let mut i: usize = 0;
    while i < chars.len()
        invariant
            i <= chars@.len(),
            start <= i,
            start > 0 ==> chars@[start - 1] == '/',
            forall|j: int| start <= j < i ==> chars@[j] != '/',
        decreases chars@.len() - i,
    {
        if chars[i] == '/' {
            start = i + 1;
        }
        i = i + 1;
    }
    let mut out: Vec<char> = Vec::new();
    let mut k: usize = start;
    while k < chars.len()
        invariant
            start <= k <= chars@.len(),
            out@ == chars@.subrange(start as int, k as int),
        decreases chars@.len() - k,
    {
        out.push(chars[k]);
        proof {
            assert(chars@.subrange(start as int, k as int).push(chars@[k as int])
                =~= chars@.subrange(start as int, k + 1));
        }
        k = k + 1;
    }
    proof {
        lemma_after_last_slash_from(path@, start as int);
    }
    chars_to_string(&out)
}

/// When everything from `start` on is slash-free and `start` sits just past
/// a slash (or at the string's head), the last segment is the suffix.
proof fn lemma_after_last_slash_from(s: Seq<char>, start: int)
    requires
        0 <= start <= s.len(),
        start > 0 ==> s[start - 1] == '/',
        forall|j: int| start <= j < s.len() ==> s[j] != '/',
    ensures
        spec_after_last_slash(s) == s.subrange(start, s.len() as int),
    decreases s.len(),
{
    if s.len() == 0 {
        assert(spec_after_last_slash(s) =~= s.subrange(start, s.len() as int));
    } else if s.last() == '/' {
        assert(start == s.len());
        assert(spec_after_last_slash(s) =~= s.subrange(start, s.len() as int));
    } else {
        let pre = s.drop_last();
        if start == s.len() {
            assert(s[start - 1] != '/');
            assert(false);
        }
        lemma_after_last_slash_from(pre, start);
        assert(pre.subrange(start, pre.len() as int).push(s.last()) =~= s.subrange(
            start,
            s.len() as int,
        ));
    }
}

/// Cap a body for storage. A body over the cap keeps its first `max_len`
/// characters and gains an explicit truncation suffix; a body within the cap
/// is kept whole. The cap is measured in bytes, as stored.
pub fn truncate_body(body: &str, max_len: usize) -> (r: String)
    ensures
        vstd::utf8::encode_utf8(body@).len() <= max_len ==> r@ == body@,
        vstd::utf8::encode_utf8(body@).len() > max_len ==> r@ == body@.take(
            if max_len < body@.len() {
                max_len as int
            } else {
                body@.len() as int
            },
        ) + "... (truncated)"@,
{
    let bytes = body.as_bytes();
    if bytes.len() <= max_len {
        return body.to_owned();
    }
    let chars = str_chars(body);
    let keep = if max_len < chars.len() {
        max_len
    } else {
        chars.len()
    };
    let mut out: Vec<char> = Vec::new();
    let mut i: usize = 0;
    while i < keep
        invariant
            i <= keep <= chars@.len(),
            out@ == chars@.take(i as int),
        decreases keep - i,
    {
        out.push(chars[i]);
        proof {
            assert(chars@.take(i as int).push(chars@[i as int]) =~= chars@.take(i + 1));
        }
        i = i + 1;
    }
    let r = chars_to_string(&out).concat("... (truncated)");
    r
}

/// One persisted request-log entry.
pub struct LogEntry {
    pub id: String,
    pub function_name: Option<String>,
    pub method: String,
    pub path: String,
    /// `"started"`, `"completed"` or `"failed"`.
    pub status: String,
    pub created_at: Option<String>,
    pub completed_at: Option<String>,
    pub duration_ms: Option<u64>,
    pub status_code: Option<u16>,
    pub request_body: Option<String>,
    pub response_body: Option<String>,
    pub error: Option<String>,
}

impl Default for LogEntry {
    /// An empty entry: every field blank or absent.
    fn default() -> (r: Self)
        ensures
            r.id@.len() == 0,
            r.function_name is None,
            r.method@.len() == 0,
            r.path@.len() == 0,
            r.status@.len() == 0,
            r.created_at is None,
            r.completed_at is None,
            r.duration_ms is None,
            r.status_code is None,
            r.request_body is None,
            r.response_body is None,
            r.error is None,
    {
        LogEntry {
            id: String::new(),
            function_name: None,
            method: String::new(),
            path: String::new(),
            status: String::new(),
            created_at: None,
            completed_at: None,
            duration_ms: None,
            status_code: None,
            request_body: None,
            response_body: None,
            error: None,
        }
    }
}

impl LogEntry {
    /// The entry enqueued when a request arrives, before the backend is
    /// driven: status `"started"`, the capped request body, no completion
    /// data yet.
    pub fn started(
        id: String,
        function_name: String,
        method: String,
        path: String,
        created_at: String,
        request_body: &str,
    ) -> (r: LogEntry)
        ensures
            r.id@ == id@,
            r.function_name matches Some(f) && f@ == function_name@,
            r.method@ == method@,
            r.path@ == path@,
            r.status@ == "started"@,
            r.created_at matches Some(c) && c@ == created_at@,
            r.completed_at is None,
            r.duration_ms is None,
            r.status_code is None,
            r.request_body is Some,
            r.response_body is None,
            r.error is None,
    {
        LogEntry {
            id,
            function_name: Some(function_name),
            method,
            path,
            status: String::from_str("started"),
            created_at: Some(created_at),
            completed_at: None,
            duration_ms: None,
            status_code: None,
            request_body: Some(truncate_body(request_body, BODY_CAP)),
            response_body: None,
            error: None,
        }
    }

    /// The entry enqueued when the backend could not be driven at all:
    /// status `"failed"` with the backend error, no status code.
    pub fn backend_failed(
        id: String,
        function_name: String,
        method: String,
        path: String,
        created_at: String,
        completed_at: String,
        duration_ms: u64,
        request_body: &str,
        error: String,
    ) -> (r: LogEntry)
        ensures
            r.id@ == id@,
            r.function_name matches Some(f) && f@ == function_name@,
            r.method@ == method@,
            r.path@ == path@,
            r.status@ == "failed"@,
            r.created_at matches Some(c) && c@ == created_at@,
            r.completed_at matches Some(c) && c@ == completed_at@,
            r.duration_ms == Some(duration_ms),
            r.status_code is None,
            r.request_body is Some,
            r.response_body is None,
            r.error matches Some(e) && e@ == "Backend error: "@ + error@,
    {
        LogEntry {
            id,
            function_name: Some(function_name),
            method,
            path,
            status: String::from_str("failed"),
            created_at: Some(created_at),
            completed_at: Some(completed_at),
            duration_ms: Some(duration_ms),
            status_code: None,
            request_body: Some(truncate_body(request_body, BODY_CAP)),
            response_body: None,
            error: Some(String::from_str("Backend error: ").concat(error.as_str())),
        }
    }

    /// The entry enqueued when the backend answered: status `"completed"`
    /// for a success code and `"failed"` otherwise, both bodies capped, and
    /// an `HTTP <code>` error recorded for a failure code.
    pub fn response_logged(
        id: String,
        function_name: String,
        method: String,
        path: String,
        created_at: String,
        completed_at: String,
        duration_ms: u64,
        status_code: u16,
        request_body: &str,
        response_body: &str,
    ) -> (r: LogEntry)
        ensures
            r.id@ == id@,
            r.function_name matches Some(f) && f@ == function_name@,
            r.method@ == method@,
            r.path@ == path@,
            r.status@ == (if 200 <= status_code < 300 {
                "completed"@
            } else {
                "failed"@
            }),
            r.created_at matches Some(c) && c@ == created_at@,
            r.completed_at matches Some(c) && c@ == completed_at@,
            r.duration_ms == Some(duration_ms),
            r.status_code == Some(status_code),
            r.request_body is Some,
            r.response_body is Some,
            200 <= status_code < 300 ==> r.error is None,
            !(200 <= status_code < 300) ==> (r.error matches Some(e) && e@ == "HTTP "@
                + spec_dec_digits(status_code as int)),
    {
        let success = 200 <= status_code && status_code < 300;
        let status = if success {
            String::from_str("completed")
        } else {
            String::from_str("failed")
        };
        let error = if success {
            None
        } else {
            Some(String::from_str("HTTP ").concat(u64_to_string(status_code as u64).as_str()))
        };
        LogEntry {
            id,
            function_name: Some(function_name),
            method,
            path,
            status,
            created_at: Some(created_at),
            completed_at: Some(completed_at),
            duration_ms: Some(duration_ms),
            status_code: Some(status_code),
            request_body: Some(truncate_body(request_body, BODY_CAP)),
            response_body: Some(truncate_body(response_body, BODY_CAP)),
            error,
        }
    }
}

/// Whether the log writer should try again after the given failed attempt
/// (counted from zero): the budget is three attempts in all.
pub fn should_retry(attempt: u32) -> (r: bool)
    ensures
        r == (attempt + 1 < WRITE_ATTEMPTS),
{
    attempt < WRITE_ATTEMPTS - 1
}

/// The exponential backoff before retrying a failed write: 100 milliseconds
/// doubled per attempt already made.
pub fn backoff_delay_ms(attempt: u32) -> (r: u64)
    requires
        attempt < 32,
    ensures
        r == 100u64 * ((1u64 << attempt) as u64),
{
    proof {
        assert(attempt < 32 ==> (1u64 << attempt) <= 0x8000_0000u64) by (bit_vector);
    }
    100u64 * (1u64 << attempt)
}

} // verus!
