//! The completion client's decisions: which messages make the system
//! prompt and the prompt, which errors are worth another attempt, and how
//! long to wait before it. Sending the request and sleeping are the
//! caller's part.
use vstd::prelude::*;
use vstd::arithmetic::power2::{pow2, lemma_pow2_unfold};
use crate::config::Message;
use crate::text::{chars_of, contains_sub, decimal, decimal_u64, is_substring, spec_lowercase, to_lowercase};

verus! {

/// Seconds a completion may take when the request sets no limit.
pub const DEFAULT_TIMEOUT_SECS: u64 = 60;

/// Further attempts after the first when the request sets none.
pub const DEFAULT_MAX_RETRIES: u32 = 3;

/// The first system message's content, among the first `k` messages.
pub open spec fn first_system(messages: Seq<Message>, k: int) -> Option<Seq<char>>
    decreases k,
{
    if k <= 0 {
        None
    } else {
        match first_system(messages, k - 1) {
            Some(c) => Some(c),
            None => if messages[k - 1].role@ == "system"@ {
                Some(messages[k - 1].content@)
            } else {
                None
            },
        }
    }
}

/// The system prompt and the prompt of a single-turn completion: the first
/// system message (or nothing) and the last message; none for no messages.
pub open spec fn prompts_of(messages: Seq<Message>) -> Option<(Seq<char>, Seq<char>)> {
    if messages.len() == 0 {
        None
    } else {
        Some(
            (
                match first_system(messages, messages.len() as int) {
                    Some(c) => c,
                    None => Seq::empty(),
                },
                messages.last().content@,
            ),
        )
    }
}

/// The system prompt and the prompt for `messages`; `None` where there is
/// nothing to send.
pub fn completion_prompts(messages: &[Message]) -> (r: Option<(String, String)>)
    ensures
        match r {
            Some((s, p)) => prompts_of(messages@) == Some((s@, p@)),
            None => prompts_of(messages@) is None,
        },
{
    if messages.len() == 0 {
        return None;
    }
    let mut system: Option<String> = None;
    let mut i: usize = 0;
    while i < messages.len()
        invariant
            i <= messages@.len(),
            match system {
                Some(s) => first_system(messages@, i as int) == Some(s@),
                None => first_system(messages@, i as int) is None,
            },
        decreases messages@.len() - i,
    {
        if system.is_none() && crate::text::str_eq(messages[i].role.as_str(), "system") {
            system = Some(messages[i].content.clone());
        }
        i += 1;
    }
    let s = match system {
        Some(s) => s,
        None => String::new(),
    };
    let p = messages[messages.len() - 1].content.clone();
    Some((s, p))
}

/// What is known of a failed completion.
#[derive(Debug, Clone)]
pub enum ErrorFacts {
    /// An error of the HTTP client: whether it timed out, failed to
    /// connect or failed to send, and the response status if one came.
    Http { timeout: bool, connect: bool, request: bool, status: Option<u16> },
    /// Any other error, by its message.
    Other { message: String },
}

/// Message parts that mark a passing failure.
pub open spec fn transient_text(m: Seq<char>) -> bool {
    is_substring("timeout"@, m) || is_substring("timed out"@, m) || is_substring("temporarily unavailable"@, m)
        || is_substring("too many requests"@, m)
}

/// Message parts that mark a lasting failure.
pub open spec fn permanent_text(m: Seq<char>) -> bool {
    is_substring("unauthorized"@, m) || is_substring("forbidden"@, m) || is_substring("not found"@, m)
        || is_substring("invalid"@, m)
}

/// Whether another attempt may succeed: transport failures, server errors
/// and rate limits are worth one, other statuses are not; another error is
/// judged by its lowercased message, and retried unless it reads as lasting.
pub open spec fn retryable(e: ErrorFacts) -> bool {
    match e {
        ErrorFacts::Http { timeout, connect, request, status } => if timeout || connect || request {
            true
        } else {
            match status {
                Some(code) => code >= 500 || code == 429,
                None => true,
            }
        },
        ErrorFacts::Other { message } => {
            let m = spec_lowercase(message@);
            transient_text(m) || !permanent_text(m)
        },
    }
}

/// An error whose lowercased message tells of refused credentials or
/// access, a missing resource or an invalid request, and of no timeout or
/// rate limit, is lasting: it is not tried again.
pub proof fn lemma_lasting_errors_not_retried(message: String)
    requires
        ({
            let m = spec_lowercase(message@);
            &&& is_substring("unauthorized"@, m) || is_substring("forbidden"@, m) || is_substring("not found"@, m)
                || is_substring("invalid"@, m)
            &&& !is_substring("timeout"@, m)
            &&& !is_substring("timed out"@, m)
            &&& !is_substring("temporarily unavailable"@, m)
            &&& !is_substring("too many requests"@, m)
        }),
    ensures
        !retryable(ErrorFacts::Other { message }),
{
}

/// An error whose lowercased message tells of a timeout, an unavailable
/// service or a rate limit is tried again, whatever else it says; so is a
/// message that tells of nothing known.
pub proof fn lemma_passing_errors_retried(message: String)
    requires
        ({
            let m = spec_lowercase(message@);
            ||| is_substring("timeout"@, m)
            ||| is_substring("timed out"@, m)
            ||| is_substring("temporarily unavailable"@, m)
            ||| is_substring("too many requests"@, m)
            ||| !is_substring("unauthorized"@, m) && !is_substring("forbidden"@, m) && !is_substring("not found"@, m)
                && !is_substring("invalid"@, m)
        }),
    ensures
        retryable(ErrorFacts::Other { message }),
{
}

/// An HTTP error that got a response is tried again exactly for a server
/// error (5xx) or a rate limit (429); transport failures always are.
pub proof fn lemma_http_retries(timeout: bool, connect: bool, request: bool, status: Option<u16>)
    ensures
        timeout || connect || request ==> retryable(ErrorFacts::Http { timeout, connect, request, status }),
        !(timeout || connect || request) ==> match status {
            Some(code) => retryable(ErrorFacts::Http { timeout, connect, request, status }) <==> (500 <= code
                || code == 429),
            None => retryable(ErrorFacts::Http { timeout, connect, request, status }),
        },
{
}

fn has(hay: &Vec<char>, needle: &str) -> (b: bool)
    ensures
        b == is_substring(needle@, hay@),
{
    let n = chars_of(needle);
    contains_sub(hay.as_slice(), n.as_slice())
}

/// Whether a failed completion is worth another attempt.
pub fn is_retryable(err: &ErrorFacts) -> (b: bool)
    ensures
        b == retryable(*err),
{
    match err {
        ErrorFacts::Http { timeout, connect, request, status } => {
            if *timeout || *connect || *request {
                return true;
            }
            match status {
                Some(code) => *code >= 500 || *code == 429,
                None => true,
            }
        },
        ErrorFacts::Other { message } => {
            let lower = to_lowercase(message.as_str());
            let m = chars_of(lower.as_str());
            if has(&m, "timeout") || has(&m, "timed out") || has(&m, "temporarily unavailable") || has(
                &m,
                "too many requests",
            ) {
                return true;
            }
            if has(&m, "unauthorized") || has(&m, "forbidden") || has(&m, "not found") || has(&m, "invalid") {
                return false;
            }
            true
        },
    }
}

/// How an attempt went.
#[derive(Debug, Clone, Copy, PartialEq, Eq, Structural)]
pub enum AttemptOutcome {
    Answered,
    Failed { retryable: bool },
    TimedOut,
}

/// What the client does after an attempt.
#[derive(Debug, Clone, Copy, PartialEq, Eq, Structural)]
pub enum RetryStep {
    /// Hand back the answer.
    Return,
    /// Hand back the attempt's error.
    GiveUp,
    /// Wait this many seconds, then try again.
    RetryAfter { backoff_secs: u64 },
}

/// After attempt `attempt` (from 0) of at most `max_retries + 1`: an answer
/// is returned; a failure that is not worth another attempt, or one after
/// the last attempt, is given back; otherwise the client waits 2^attempt
/// seconds and tries again.
pub open spec fn next_step(attempt: u32, max_retries: u32, outcome: AttemptOutcome) -> RetryStep {
    match outcome {
        AttemptOutcome::Answered => RetryStep::Return,
        AttemptOutcome::Failed { retryable } => if !retryable || attempt >= max_retries {
            RetryStep::GiveUp
        } else {
            RetryStep::RetryAfter { backoff_secs: pow2(attempt as nat) as u64 }
        },
        AttemptOutcome::TimedOut => if attempt >= max_retries {
            RetryStep::GiveUp
        } else {
            RetryStep::RetryAfter { backoff_secs: pow2(attempt as nat) as u64 }
        },
    }
}

/// Whether the attempt leads to a wait.
pub open spec fn waits(attempt: u32, max_retries: u32, outcome: AttemptOutcome) -> bool {
    next_step(attempt, max_retries, outcome) is RetryAfter
}

/// The step after an attempt. A wait of 2^64 seconds or more cannot be
/// written, so an attempt from the 65th on may only end the exchange.
pub fn retry_step(attempt: u32, max_retries: u32, outcome: AttemptOutcome) -> (s: RetryStep)
    requires
        waits(attempt, max_retries, outcome) ==> attempt < 64,
    ensures
        s == next_step(attempt, max_retries, outcome),
        s matches RetryStep::RetryAfter { backoff_secs } ==> backoff_secs == pow2(attempt as nat),
{
    let retry = match outcome {
        AttemptOutcome::Answered => {
            return RetryStep::Return;
        },
        AttemptOutcome::Failed { retryable } => retryable && attempt < max_retries,
        AttemptOutcome::TimedOut => attempt < max_retries,
    };
    if !retry {
        return RetryStep::GiveUp;
    }
    let mut b: u64 = 1;
    let mut i: u32 = 0;
    proof {
        assert(pow2(0) == 1) by {
            vstd::arithmetic::power2::lemma2_to64();
        }
    }
    while i < attempt
        invariant
            i <= attempt,
            attempt < 64,
            b == pow2(i as nat),
        decreases attempt - i,
    {
        proof {
            lemma_pow2_unfold((i + 1) as nat);
            vstd::arithmetic::power2::lemma_pow2_strictly_increases((i + 1) as nat, 64);
            assert(pow2(64) == 0x1_0000_0000_0000_0000) by {
                vstd::arithmetic::power2::lemma2_to64();
            }
        }
        b = b * 2;
        i += 1;
    }
    RetryStep::RetryAfter { backoff_secs: b }
}

/// The waits grow 1 s, 2 s, 4 s, ...: the first wait is one second, each
/// wait doubles the one before, and no attempt after the last allowed one
/// waits, so at most `max_retries + 1` attempts are made.
pub proof fn lemma_backoff_schedule(attempt: u32, max_retries: u32, o1: AttemptOutcome, o2: AttemptOutcome)
    requires
        attempt < 63,
    ensures
        waits(attempt, max_retries, o1) ==> attempt < max_retries,
        waits(0, max_retries, o1) ==> next_step(0, max_retries, o1)->backoff_secs == 1,
        waits(attempt, max_retries, o1) && waits((attempt + 1) as u32, max_retries, o2) ==> next_step(
            (attempt + 1) as u32,
            max_retries,
            o2,
        )->backoff_secs == 2 * next_step(attempt, max_retries, o1)->backoff_secs,
{
    vstd::arithmetic::power2::lemma2_to64();
    lemma_pow2_unfold((attempt + 1) as nat);
    vstd::arithmetic::power2::lemma_pow2_strictly_increases((attempt + 1) as nat, 64);
}

/// The error text for an attempt that ran out of time.
pub open spec fn timeout_text(timeout_secs: u64, attempt: u32, max_retries: u32) -> Seq<char> {
    "LLM request timed out after "@ + decimal(timeout_secs as nat) + "s (attempt "@ + decimal((attempt + 1) as nat) + "/"@
        + decimal((max_retries + 1) as nat) + ")"@
}

/// The error for an attempt that ran out of time.
pub fn timeout_error(timeout_secs: u64, attempt: u32, max_retries: u32) -> (s: String)
    requires
        attempt <= max_retries,
        max_retries < u32::MAX,
    ensures
        s@ == timeout_text(timeout_secs, attempt, max_retries),
{
    let mut s = String::from_str("LLM request timed out after ");
    let t = decimal_u64(timeout_secs);
    s.append(t.as_str());
    s.append("s (attempt ");
    let a = decimal_u64((attempt + 1) as u64);
    s.append(a.as_str());
    s.append("/");
    let m = decimal_u64((max_retries + 1) as u64);
    s.append(m.as_str());
    s.append(")");
    s
}

} // verus!
