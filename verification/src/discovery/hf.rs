//! The Hugging Face transfer: URLs, resuming, retrying, and how far a download
//! has come.

use vstd::prelude::*;
use crate::number;
use crate::text;
use crate::url;

verus! {

/// Progress is reported at most once per this many bytes.
pub const PROGRESS_INTERVAL: u64 = 8_388_608;

/// How often a download is tried.
pub const DOWNLOAD_ATTEMPTS: u32 = 5;

/// How long the first retry waits, in milliseconds.
pub const INITIAL_RETRY_DELAY: u64 = 1000;

/// One file of a repository, as the Hub's tree lists it.
#[derive(Debug)]
pub struct TreeEntry {
    pub path: String,
    pub size: u64,
}

// --- URLs --------------------------------------------------------------------

/// A path encoded for a URL, its separators kept.
pub fn encode_url_path(value: &str) -> (r: String)
    ensures
        r@ == url::encoded_text(value@, true),
{
    url::encode(value, true)
}

/// Where a file of a repository's revision downloads from.
pub open spec fn file_url(repo: Seq<char>, revision: Seq<char>, file: Seq<char>) -> Seq<char> {
    "https://huggingface.co/"@ + url::encoded_text(repo, true) + "/resolve/"@ + url::encoded_text(
        revision,
        true,
    ) + "/"@ + url::encoded_text(file, true)
}

/// Where a file of a repository's revision downloads from.
pub fn resolve_url(repo: &str, revision: &str, file: &str) -> (r: String)
    ensures
        r@ == file_url(repo@, revision@, file@),
{
    let mut out = text::cat("https://huggingface.co/", encode_url_path(repo).as_str());
    out.append("/resolve/");
    out.append(encode_url_path(revision).as_str());
    out.append("/");
    out.append(encode_url_path(file).as_str());
    out
}

/// Where the Hub lists the files of a repository's revision.
pub fn tree_url(repo: &str, revision: &str) -> (r: String)
    ensures
        r@ == "https://huggingface.co/api/models/"@ + url::encoded_text(repo@, true) + "/tree/"@
            + url::encoded_text(revision@, true),
{
    let mut out = text::cat("https://huggingface.co/api/models/", encode_url_path(repo).as_str());
    out.append("/tree/");
    out.append(encode_url_path(revision).as_str());
    out
}

/// The range to ask for when part of a file is there.
pub fn range_header(existing: u64) -> (r: Option<String>)
    ensures
        text::opt(r) == if existing > 0 {
            Some("bytes="@ + number::decimal(existing as nat) + "-"@)
        } else {
            None
        },
{
    if existing > 0 {
        Some(text::cat3("bytes=", number::nat_text(existing).as_str(), "-"))
    } else {
        None
    }
}

// --- retrying ----------------------------------------------------------------

/// Whether an HTTP status is worth another try: a timeout, too many requests, or
/// a fault of the server.
pub open spec fn is_transient(status: u16) -> bool {
    status == 408 || status == 429 || (500 <= status && status <= 599)
}

/// Whether an HTTP status is worth another try.
pub fn retryable_http_status(status: u16) -> (r: bool)
    ensures
        r == is_transient(status),
{
    status == 408 || status == 429 || (500 <= status && status <= 599)
}

/// How often to try, and how long to wait before the first retry, in
/// milliseconds.
#[derive(Debug, Clone, Copy, PartialEq, Eq, Structural)]
pub struct RetryPolicy {
    pub attempts: u32,
    pub initial_delay: u64,
}

/// The factor on the first delay after an attempt: it doubles with each, up to
/// sixteen.
pub open spec fn backoff(attempt: u32) -> nat {
    if attempt <= 1 {
        1
    } else if attempt == 2 {
        2
    } else if attempt == 3 {
        4
    } else if attempt == 4 {
        8
    } else {
        16
    }
}

/// The wait after an attempt, at most the largest number of 64 bits.
pub open spec fn delay_spec(policy: RetryPolicy, attempt: u32) -> u64 {
    if policy.initial_delay * backoff(attempt) > u64::MAX {
        u64::MAX
    } else {
        (policy.initial_delay * backoff(attempt)) as u64
    }
}

impl RetryPolicy {
    /// How downloads are retried.
    pub fn download() -> (r: RetryPolicy)
        ensures
            r == (RetryPolicy { attempts: DOWNLOAD_ATTEMPTS, initial_delay: INITIAL_RETRY_DELAY }),
    {
        RetryPolicy { attempts: DOWNLOAD_ATTEMPTS, initial_delay: INITIAL_RETRY_DELAY }
    }

    /// The wait after an attempt, in milliseconds.
    pub fn delay_after(self, attempt: u32) -> (r: u64)
        ensures
            r == delay_spec(self, attempt),
    {
        let factor: u64 = if attempt <= 1 {
            1
        } else if attempt == 2 {
            2
        } else if attempt == 3 {
            4
        } else if attempt == 4 {
            8
        } else {
            16
        };
        if self.initial_delay > u64::MAX / factor {
            u64::MAX
        } else {
            self.initial_delay * factor
        }
    }

    /// The number of attempts: at least one.
    pub open spec fn tries(self) -> u32 {
        if self.attempts == 0 {
            1
        } else {
            self.attempts
        }
    }
}

/// How an attempt ended.
#[derive(Debug, Clone, Copy, PartialEq, Eq, Structural)]
pub enum AttemptEnd {
    Completed,
    Cancelled,
    Retryable,
    Fatal,
}

/// What to do before an attempt.
#[derive(Debug, Clone, Copy, PartialEq, Eq, Structural)]
pub enum Start {
    /// The user cancelled.
    Stop,
    /// The partial file has the expected size already.
    AlreadyComplete,
    Fetch,
}

/// What to do after an attempt.
#[derive(Debug, Clone, Copy, PartialEq, Eq, Structural)]
pub enum Next {
    Finished,
    Stopped,
    Fail,
    /// Fail, saying how often it was tried.
    Exhausted,
    /// Wait so many milliseconds, then try again.
    Retry { delay: u64 },
}

/// What to do before an attempt: stop where the user cancelled, and fetch
/// nothing where everything is there.
pub fn before_attempt(cancelled: bool, offset: u64, expected: u64) -> (r: Start)
    ensures
        r == if cancelled {
            Start::Stop
        } else if offset == expected {
            Start::AlreadyComplete
        } else {
            Start::Fetch
        },
{
    if cancelled {
        Start::Stop
    } else if offset == expected {
        Start::AlreadyComplete
    } else {
        Start::Fetch
    }
}

/// What follows attempt number `attempt`.
pub open spec fn next_spec(policy: RetryPolicy, attempt: u32, end: AttemptEnd) -> Next {
    match end {
        AttemptEnd::Completed => Next::Finished,
        AttemptEnd::Cancelled => Next::Stopped,
        AttemptEnd::Fatal => Next::Fail,
        AttemptEnd::Retryable => if attempt == policy.tries() {
            Next::Exhausted
        } else {
            Next::Retry { delay: delay_spec(policy, attempt) }
        },
    }
}

/// What follows attempt number `attempt`.
pub fn after_attempt(policy: RetryPolicy, attempt: u32, end: AttemptEnd) -> (r: Next)
    ensures
        r == next_spec(policy, attempt, end),
{
    match end {
        AttemptEnd::Completed => Next::Finished,
        AttemptEnd::Cancelled => Next::Stopped,
        AttemptEnd::Fatal => Next::Fail,
        AttemptEnd::Retryable => {
            let tries = if policy.attempts == 0 {
                1
            } else {
                policy.attempts
            };
            if attempt == tries {
                Next::Exhausted
            } else {
                Next::Retry { delay: policy.delay_after(attempt) }
            }
        },
    }
}

/// The attempts that a policy makes when each of them ends as `ends` says: the
/// number of the last one.
pub open spec fn last_attempt(policy: RetryPolicy, ends: spec_fn(u32) -> AttemptEnd, attempt: u32) -> u32
    decreases policy.tries() - attempt,
{
    if attempt >= policy.tries() || !(next_spec(policy, attempt, ends(attempt)) is Retry) {
        attempt
    } else {
        last_attempt(policy, ends, (attempt + 1) as u32)
    }
}

/// However the attempts end, no more are made than the policy allows, and the
/// last one is not followed by a retry.
pub proof fn law_attempts_are_bounded(policy: RetryPolicy, ends: spec_fn(u32) -> AttemptEnd, attempt: u32)
    requires
        1 <= attempt <= policy.tries(),
    ensures
        last_attempt(policy, ends, attempt) <= policy.tries(),
        !(next_spec(
            policy,
            last_attempt(policy, ends, attempt),
            ends(last_attempt(policy, ends, attempt)),
        ) is Retry),
    decreases policy.tries() - attempt,
{
    if attempt < policy.tries() && next_spec(policy, attempt, ends(attempt)) is Retry {
        law_attempts_are_bounded(policy, ends, (attempt + 1) as u32);
    }
}

/// How an attempt ends that the server refused.
pub fn refused(status: u16) -> (r: AttemptEnd)
    ensures
        r == if is_transient(status) {
            AttemptEnd::Retryable
        } else {
            AttemptEnd::Fatal
        },
{
    if retryable_http_status(status) {
        AttemptEnd::Retryable
    } else {
        AttemptEnd::Fatal
    }
}

/// What is said of a download that the server refused.
pub fn refusal_message(status: u16, repo: &str, file: &str) -> (r: String)
    ensures
        r@ == "Hugging Face returned HTTP "@ + number::decimal(status as nat) + " for hf://"@
            + repo@ + "/"@ + file@,
{
    let mut out = text::cat("Hugging Face returned HTTP ", number::nat_text(status as u64).as_str());
    out.append(" for hf://");
    out.append(repo);
    out.append("/");
    out.append(file);
    out
}

/// What is said of a download that was tried as often as the policy allows.
pub fn exhausted_message(policy: RetryPolicy) -> (r: String)
    ensures
        r@ == "Hugging Face download failed after "@ + number::decimal(policy.tries() as nat)
            + " attempts"@,
{
    let tries: u32 = if policy.attempts == 0 {
        1
    } else {
        policy.attempts
    };
    text::cat3(
        "Hugging Face download failed after ",
        number::nat_text(tries as u64).as_str(),
        " attempts",
    )
}

/// What is left of a wait after the next slice of it, and that slice: at most a
/// tenth of a second, so that a cancellation is seen soon.
pub fn wait_slice(remaining: u64) -> (r: (u64, u64))
    ensures
        r.1 == if remaining < 100 {
            remaining
        } else {
            100
        },
        r.0 + r.1 == remaining,
{
    let slice: u64 = if remaining < 100 {
        remaining
    } else {
        100
    };
    (remaining - slice, slice)
}

// --- one attempt -------------------------------------------------------------

/// How far a transfer has come: the bytes on disk, and those reported.
#[derive(Debug, Clone, Copy, PartialEq, Eq, Structural)]
pub struct Transfer {
    pub downloaded: u64,
    pub reported: u64,
}

/// Whether the server continues a partial file. One that ignores the range sends
/// the whole body, and the partial file is discarded.
pub open spec fn resumes(existing: u64, status: u16) -> bool {
    existing > 0 && status == 206
}

impl Transfer {
    /// A transfer at its start.
    pub fn begin(existing: u64, status: u16) -> (r: Transfer)
        ensures
            r.downloaded == (if resumes(existing, status) {
                existing
            } else {
                0
            }),
            r.reported == r.downloaded,
    {
        let at: u64 = if existing > 0 && status == 206 {
            existing
        } else {
            0
        };
        Transfer { downloaded: at, reported: at }
    }

    /// Takes in a chunk that was written; the progress to report, if it is time.
    pub fn wrote(&mut self, chunk: u64, expected: u64) -> (r: Option<(u64, u64)>)
        requires
            old(self).reported <= old(self).downloaded,
        ensures
            final(self).downloaded == (if old(self).downloaded + chunk > u64::MAX {
                u64::MAX as int
            } else {
                old(self).downloaded + chunk
            }),
            final(self).reported <= final(self).downloaded,
            final(self).downloaded - old(self).reported >= PROGRESS_INTERVAL ==> {
                &&& r == Some(
                    (
                        if final(self).downloaded < expected {
                            final(self).downloaded
                        } else {
                            expected
                        },
                        expected,
                    ),
                )
                &&& final(self).reported == final(self).downloaded
            },
            final(self).downloaded - old(self).reported < PROGRESS_INTERVAL ==> r is None
                && final(self).reported == old(self).reported,
    {
        self.downloaded = self.downloaded.saturating_add(chunk);
        if self.downloaded - self.reported >= PROGRESS_INTERVAL {
            self.reported = self.downloaded;
            let shown: u64 = if self.downloaded < expected {
                self.downloaded
            } else {
                expected
            };
            Some((shown, expected))
        } else {
            None
        }
    }

    /// How an attempt ends whose body was read to its end: complete only at
    /// exactly the expected size.
    pub fn end(&self, expected: u64) -> (r: AttemptEnd)
        ensures
            r == if self.downloaded == expected {
                AttemptEnd::Completed
            } else {
                AttemptEnd::Retryable
            },
    {
        if self.downloaded == expected {
            AttemptEnd::Completed
        } else {
            AttemptEnd::Retryable
        }
    }
}

/// What is said of a body that ended early or late.
pub fn incomplete_message(file: &str, downloaded: u64, expected: u64) -> (r: String)
    ensures
        r@ == "incomplete Hugging Face download for "@ + file@ + ": received "@ + number::decimal(
            downloaded as nat,
        ) + " of "@ + number::decimal(expected as nat) + " bytes"@,
{
    let mut out = text::cat("incomplete Hugging Face download for ", file);
    out.append(": received ");
    out.append(number::nat_text(downloaded).as_str());
    out.append(" of ");
    out.append(number::nat_text(expected).as_str());
    out.append(" bytes");
    out
}

/// Where a file downloads from, for names without reserved characters: the names
/// themselves, in their places.
pub proof fn law_addresses_name_the_file(repo: Seq<char>, revision: Seq<char>, file: Seq<char>)
    requires
        url::encoded_text(repo, true) == repo,
        url::encoded_text(revision, true) == revision,
        url::encoded_text(file, true) == file,
    ensures
        file_url(repo, revision, file) == "https://huggingface.co/"@ + repo + "/resolve/"@ + revision
            + "/"@ + file,
{
}

} // verus!
