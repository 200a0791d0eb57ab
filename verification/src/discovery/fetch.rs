//! Fetching a file, step by step: what to do next follows from what has happened.
//! The file, the connection and the clock are outside.

use vstd::prelude::*;
use crate::discovery::hf::{
    after_attempt, before_attempt, delay_spec, is_transient, next_spec, refused, resumes, wait_slice,
    AttemptEnd, Next, RetryPolicy, Start, Transfer, PROGRESS_INTERVAL,
};

verus! {

/// How a fetch ends.
#[derive(Debug, Clone, Copy, PartialEq, Eq, Structural)]
pub enum Ending {
    Complete,
    Cancelled,
    Failed,
    /// It failed as often as it may be tried.
    Exhausted,
}

/// What a fetch is about.
#[derive(Debug, Clone, Copy, PartialEq, Eq, Structural)]
pub enum Phase {
    /// The scratch file is looked at.
    Looking,
    /// The server is asked, with so much of the file there.
    Asking { existing: u64 },
    /// The body is received.
    Receiving { transfer: Transfer },
    /// So many milliseconds are waited before the next attempt.
    Waiting { remaining: u64 },
    Ended { ending: Ending },
}

/// A fetch: the attempt that it is at, and how far that has come.
#[derive(Debug, Clone, Copy, PartialEq, Eq, Structural)]
pub struct Fetch {
    pub policy: RetryPolicy,
    /// The size of the file.
    pub expected: u64,
    pub attempt: u32,
    pub phase: Phase,
}

/// What has happened.
#[derive(Debug, Clone, Copy, PartialEq, Eq, Structural)]
pub enum Event {
    /// The scratch file has so many bytes; `cancelled` says whether the user wants
    /// none more.
    Measured { cancelled: bool, length: u64 },
    /// The server sends a body.
    Answered { status: u16 },
    /// The server refuses.
    Refused { status: u16 },
    /// A chunk of the body was written.
    Wrote { bytes: u64 },
    /// The body is at its end, and all of it was written.
    Drained,
    /// The connection failed.
    Broke,
    /// The file cannot be written.
    DiskFailed,
    /// The user wants no more of it, and what came was written.
    Cancelled,
    /// The time that was asked for has passed.
    Waited,
}

/// What to do next.
#[derive(Debug, Clone, Copy, PartialEq, Eq, Structural)]
pub enum Order {
    /// Look at the scratch file.
    Measure,
    /// Ask the server for what follows on so many bytes.
    Ask { existing: u64 },
    /// Open the scratch file, at its end or empty, and read.
    Receive { append: bool },
    /// Read on.
    Read,
    /// Say how much of how much is there, then read on.
    Report { shown: u64, total: u64 },
    /// Wait so many milliseconds.
    Sleep { slice: u64 },
    /// Say that all of it is there: the fetch is complete.
    Finish { shown: u64, total: u64 },
    /// The fetch has ended otherwise; nothing is said of its progress.
    End { ending: Ending },
    /// Nothing follows from what has happened.
    Nothing,
}

/// The next slice of a wait.
pub open spec fn slice_of(remaining: u64) -> u64 {
    if remaining < 100 {
        remaining
    } else {
        100
    }
}

impl Fetch {
    /// A fetch within its attempts, that has reported no more than it has.
    pub open spec fn wf(self) -> bool {
        &&& 1 <= self.attempt <= self.policy.tries()
        &&& self.phase is Receiving ==> self.phase->transfer.reported
            <= self.phase->transfer.downloaded
        &&& self.phase is Waiting ==> self.attempt < self.policy.tries()
    }

    /// The fetch at its end. A complete one is reported in full.
    pub open spec fn ended(self, ending: Ending) -> (Fetch, Order) {
        (
            Fetch { phase: Phase::Ended { ending }, ..self },
            if ending == Ending::Complete {
                Order::Finish { shown: self.expected, total: self.expected }
            } else {
                Order::End { ending }
            },
        )
    }

    /// The fetch at its next attempt.
    pub open spec fn again(self) -> (Fetch, Order) {
        (Fetch { attempt: (self.attempt + 1) as u32, phase: Phase::Looking, ..self }, Order::Measure)
    }

    /// What follows on the end of an attempt.
    pub open spec fn after(self, end: AttemptEnd) -> (Fetch, Order) {
        match next_spec(self.policy, self.attempt, end) {
            Next::Finished => self.ended(Ending::Complete),
            Next::Stopped => self.ended(Ending::Cancelled),
            Next::Fail => self.ended(Ending::Failed),
            Next::Exhausted => self.ended(Ending::Exhausted),
            Next::Retry { delay } => if delay == 0 {
                self.again()
            } else {
                (
                    Fetch { phase: Phase::Waiting { remaining: delay }, ..self },
                    Order::Sleep { slice: slice_of(delay) },
                )
            },
        }
    }

    /// What follows on a chunk.
    pub open spec fn received(self, t: Transfer, bytes: u64) -> (Fetch, Order) {
        let downloaded = if t.downloaded + bytes > u64::MAX {
            u64::MAX
        } else {
            (t.downloaded + bytes) as u64
        };
        if downloaded - t.reported >= PROGRESS_INTERVAL {
            let shown = if downloaded < self.expected {
                downloaded
            } else {
                self.expected
            };
            (
                Fetch {
                    phase: Phase::Receiving {
                        transfer: Transfer { downloaded, reported: downloaded },
                    },
                    ..self
                },
                Order::Report { shown, total: self.expected },
            )
        } else {
            (
                Fetch {
                    phase: Phase::Receiving { transfer: Transfer { downloaded, ..t } },
                    ..self
                },
                Order::Read,
            )
        }
    }

    /// What follows on what has happened; what does not fit the phase changes
    /// nothing.
    pub open spec fn stepped(self, event: Event) -> (Fetch, Order) {
        match (self.phase, event) {
            (Phase::Looking, Event::Measured { cancelled, length }) => if cancelled {
                self.ended(Ending::Cancelled)
            } else if length == self.expected {
                self.ended(Ending::Complete)
            } else {
                (
                    Fetch { phase: Phase::Asking { existing: length }, ..self },
                    Order::Ask { existing: length },
                )
            },
            (Phase::Asking { existing }, Event::Answered { status }) => {
                let at = if resumes(existing, status) {
                    existing
                } else {
                    0
                };
                (
                    Fetch {
                        phase: Phase::Receiving {
                            transfer: Transfer { downloaded: at, reported: at },
                        },
                        ..self
                    },
                    Order::Receive { append: at > 0 },
                )
            },
            (Phase::Asking { .. }, Event::Refused { status }) => self.after(
                if is_transient(status) {
                    AttemptEnd::Retryable
                } else {
                    AttemptEnd::Fatal
                },
            ),
            (Phase::Asking { .. }, Event::Broke) => self.after(AttemptEnd::Retryable),
            (Phase::Receiving { transfer }, Event::Wrote { bytes }) => self.received(
                transfer,
                bytes,
            ),
            (Phase::Receiving { transfer }, Event::Drained) => self.after(
                if transfer.downloaded == self.expected {
                    AttemptEnd::Completed
                } else {
                    AttemptEnd::Retryable
                },
            ),
            (Phase::Receiving { .. }, Event::Broke) => self.after(AttemptEnd::Retryable),
            (Phase::Receiving { .. }, Event::DiskFailed) => self.after(AttemptEnd::Fatal),
            (Phase::Receiving { .. }, Event::Cancelled) => self.after(AttemptEnd::Cancelled),
            (Phase::Waiting { .. }, Event::Cancelled) => self.ended(Ending::Cancelled),
            (Phase::Waiting { remaining }, Event::Waited) => if remaining == slice_of(remaining) {
                self.again()
            } else {
                let left = (remaining - slice_of(remaining)) as u64;
                (
                    Fetch { phase: Phase::Waiting { remaining: left }, ..self },
                    Order::Sleep { slice: slice_of(left) },
                )
            },
            _ => (self, Order::Nothing),
        }
    }

    /// A fetch that has not begun; the scratch file is looked at first.
    pub fn new(policy: RetryPolicy, expected: u64) -> (r: Fetch)
        ensures
            r == (Fetch { policy, expected, attempt: 1, phase: Phase::Looking }),
            r.wf(),
    {
        Fetch { policy, expected, attempt: 1, phase: Phase::Looking }
    }

    fn end(&mut self, ending: Ending) -> (r: Order)
        requires
            old(self).wf(),
        ensures
            (*final(self), r) == old(self).ended(ending),
            final(self).wf(),
    {
        self.phase = Phase::Ended { ending };
        if ending == Ending::Complete {
            Order::Finish { shown: self.expected, total: self.expected }
        } else {
            Order::End { ending }
        }
    }

    fn retry(&mut self) -> (r: Order)
        requires
            old(self).wf(),
            old(self).attempt < old(self).policy.tries(),
        ensures
            (*final(self), r) == old(self).again(),
            final(self).wf(),
    {
        self.attempt = self.attempt + 1;
        self.phase = Phase::Looking;
        Order::Measure
    }

    fn finish(&mut self, end: AttemptEnd) -> (r: Order)
        requires
            old(self).wf(),
        ensures
            (*final(self), r) == old(self).after(end),
            final(self).wf(),
    {
        match after_attempt(self.policy, self.attempt, end) {
            Next::Finished => self.end(Ending::Complete),
            Next::Stopped => self.end(Ending::Cancelled),
            Next::Fail => self.end(Ending::Failed),
            Next::Exhausted => self.end(Ending::Exhausted),
            Next::Retry { delay } => if delay == 0 {
                self.retry()
            } else {
                let (_, slice) = wait_slice(delay);
                self.phase = Phase::Waiting { remaining: delay };
                Order::Sleep { slice }
            },
        }
    }

    /// Takes in what has happened, and says what to do next.
    pub fn step(&mut self, event: Event) -> (r: Order)
        requires
            old(self).wf(),
        ensures
            (*final(self), r) == old(self).stepped(event),
            final(self).wf(),
            // completion is reported with the whole size, and nothing else ends so
            (!(old(self).phase is Ended) && final(self).phase == (Phase::Ended {
                ending: Ending::Complete,
            })) <==> r is Finish,
            r is Finish ==> r->Finish_shown == old(self).expected && r->Finish_total
                == old(self).expected,
    {
        match (self.phase, event) {
            (Phase::Looking, Event::Measured { cancelled, length }) => {
                match before_attempt(cancelled, length, self.expected) {
                    Start::Stop => self.end(Ending::Cancelled),
                    Start::AlreadyComplete => self.end(Ending::Complete),
                    Start::Fetch => {
                        self.phase = Phase::Asking { existing: length };
                        Order::Ask { existing: length }
                    },
                }
            },
            (Phase::Asking { existing }, Event::Answered { status }) => {
                let transfer = Transfer::begin(existing, status);
                self.phase = Phase::Receiving { transfer };
                Order::Receive { append: transfer.downloaded > 0 }
            },
            (Phase::Asking { .. }, Event::Refused { status }) => self.finish(refused(status)),
            (Phase::Asking { .. }, Event::Broke) => self.finish(AttemptEnd::Retryable),
            (Phase::Receiving { transfer }, Event::Wrote { bytes }) => {
                let mut t = transfer;
                let report = t.wrote(bytes, self.expected);
                self.phase = Phase::Receiving { transfer: t };
                match report {
                    Some((shown, total)) => Order::Report { shown, total },
                    None => Order::Read,
                }
            },
            (Phase::Receiving { transfer }, Event::Drained) => {
                let end = transfer.end(self.expected);
                self.finish(end)
            },
            (Phase::Receiving { .. }, Event::Broke) => self.finish(AttemptEnd::Retryable),
            (Phase::Receiving { .. }, Event::DiskFailed) => self.finish(AttemptEnd::Fatal),
            (Phase::Receiving { .. }, Event::Cancelled) => self.finish(AttemptEnd::Cancelled),
            (Phase::Waiting { .. }, Event::Cancelled) => self.end(Ending::Cancelled),
            (Phase::Waiting { remaining }, Event::Waited) => {
                let (left, _) = wait_slice(remaining);
                if left == 0 {
                    self.retry()
                } else {
                    let (_, slice) = wait_slice(left);
                    self.phase = Phase::Waiting { remaining: left };
                    Order::Sleep { slice }
                }
            },
            _ => Order::Nothing,
        }
    }
}

// --- laws --------------------------------------------------------------------

/// The fetch after everything in a list has happened.
pub open spec fn run(f: Fetch, events: Seq<Event>) -> Fetch
    decreases events.len(),
{
    if events.len() == 0 {
        f
    } else {
        run(f, events.drop_last()).stepped(events.last()).0
    }
}

/// How often the server is asked in the course of a list of events.
pub open spec fn requests(f: Fetch, events: Seq<Event>) -> nat
    decreases events.len(),
{
    if events.len() == 0 {
        0
    } else {
        let before = run(f, events.drop_last());
        requests(f, events.drop_last()) + if before.stepped(events.last()).1 is Ask {
            1nat
        } else {
            0nat
        }
    }
}

/// How often the server may still be asked.
pub open spec fn requests_left(f: Fetch) -> int {
    match f.phase {
        Phase::Looking => f.policy.tries() - f.attempt + 1,
        Phase::Ended { .. } => 0,
        _ => f.policy.tries() - f.attempt,
    }
}

proof fn lemma_run(f: Fetch, events: Seq<Event>)
    requires
        f.wf(),
    ensures
        run(f, events).wf(),
        run(f, events).policy == f.policy,
        run(f, events).expected == f.expected,
        requests(f, events) + requests_left(run(f, events)) <= requests_left(f),
    decreases events.len(),
{
    if events.len() > 0 {
        lemma_run(f, events.drop_last());
        let before = run(f, events.drop_last());
        assert(before.stepped(events.last()).0.wf());
    }
}

/// Whatever happens, the server is asked no more often than the policy allows.
pub proof fn law_requests_are_bounded(policy: RetryPolicy, expected: u64, events: Seq<Event>)
    ensures
        requests(Fetch { policy, expected, attempt: 1, phase: Phase::Looking }, events)
            <= policy.tries(),
{
    let f = Fetch { policy, expected, attempt: 1, phase: Phase::Looking };
    lemma_run(f, events);
    assert(requests_left(run(f, events)) >= 0);
}

/// A fetch that has ended stays as it is.
pub proof fn law_an_end_is_final(f: Fetch, event: Event)
    requires
        f.phase is Ended,
    ensures
        f.stepped(event) == (f, Order::Nothing),
{
}

/// A fetch is complete only at exactly the expected size: the scratch file had it,
/// or the body that was written came to it. It is then reported as a whole.
pub proof fn law_complete_files_are_whole(f: Fetch, event: Event)
    requires
        f.stepped(event).1 is Finish,
    ensures
        f.stepped(event).1 == (Order::Finish { shown: f.expected, total: f.expected }),
        event is Measured && event->length == f.expected || (event is Drained
            && f.phase is Receiving && f.phase->transfer.downloaded == f.expected),
{
}

/// Once the user has cancelled, the server is not asked again.
pub proof fn law_cancelling_ends_it(f: Fetch, event: Event)
    requires
        f.phase is Receiving || f.phase is Waiting ==> event is Cancelled,
        f.phase is Looking ==> event is Measured && event->cancelled,
        !(f.phase is Asking) && !(f.phase is Ended),
    ensures
        f.stepped(event).1 == (Order::End { ending: Ending::Cancelled }),
{
}

/// A body is appended only to a file that the server goes on with; any other file
/// begins anew.
pub proof fn law_only_continued_files_are_appended_to(f: Fetch, event: Event)
    requires
        f.stepped(event).1 == (Order::Receive { append: true }),
    ensures
        f.phase is Asking && event is Answered && event->Answered_status == 206
            && f.stepped(event).0.phase->transfer.downloaded == f.phase->existing,
{
}

/// How often completion is reported in the course of a list of events.
pub open spec fn finishes(f: Fetch, events: Seq<Event>) -> nat
    decreases events.len(),
{
    if events.len() == 0 {
        0
    } else {
        let before = run(f, events.drop_last());
        finishes(f, events.drop_last()) + if before.stepped(events.last()).1 is Finish {
            1nat
        } else {
            0nat
        }
    }
}

/// Completion is reported once where the fetch comes to it, and never otherwise.
pub proof fn law_completion_is_reported_once(policy: RetryPolicy, expected: u64, events: Seq<Event>)
    ensures
        ({
            let f = Fetch { policy, expected, attempt: 1, phase: Phase::Looking };
            let after = run(f, events);
            finishes(f, events) == if after.phase == (Phase::Ended { ending: Ending::Complete }) {
                1nat
            } else {
                0nat
            }
        }),
    decreases events.len(),
{
    let f = Fetch { policy, expected, attempt: 1, phase: Phase::Looking };
    if events.len() > 0 {
        law_completion_is_reported_once(policy, expected, events.drop_last());
    }
}

/// A file that is whole already, or a fetch that is cancelled at its beginning, asks
/// the server for nothing.
pub proof fn law_nothing_is_asked_in_vain(policy: RetryPolicy, expected: u64, cancelled: bool, length: u64, rest: Seq<Event>)
    requires
        cancelled || length == expected,
    ensures
        ({
            let f = Fetch { policy, expected, attempt: 1, phase: Phase::Looking };
            let events = seq![Event::Measured { cancelled, length }] + rest;
            requests(f, events) == 0 && run(f, events).phase == (Phase::Ended {
                ending: if cancelled {
                    Ending::Cancelled
                } else {
                    Ending::Complete
                },
            })
        }),
    decreases rest.len(),
{
    let f = Fetch { policy, expected, attempt: 1, phase: Phase::Looking };
    let first = seq![Event::Measured { cancelled, length }];
    let events = first + rest;
    if rest.len() == 0 {
        assert(events =~= first);
        assert(events.drop_last() =~= Seq::<Event>::empty());
        assert(run(f, events.drop_last()) == f);
        assert(requests(f, events.drop_last()) == 0);
        assert(events.last() == first[0]);
    } else {
        law_nothing_is_asked_in_vain(policy, expected, cancelled, length, rest.drop_last());
        assert(events.drop_last() =~= first + rest.drop_last());
        assert(run(f, events.drop_last()).phase is Ended);
    }
}

/// All chunks together.
pub open spec fn total_of(chunks: Seq<u64>) -> nat
    decreases chunks.len(),
{
    if chunks.len() == 0 {
        0
    } else {
        total_of(chunks.drop_last()) + chunks.last() as nat
    }
}

/// What happens when a body arrives in chunks.
pub open spec fn arrival(chunks: Seq<u64>) -> Seq<Event> {
    chunks.map_values(|n: u64| Event::Wrote { bytes: n })
}

proof fn lemma_run_append(f: Fetch, a: Seq<Event>, b: Seq<Event>)
    ensures
        run(f, a + b) == run(run(f, a), b),
    decreases b.len(),
{
    if b.len() == 0 {
        assert(a + b =~= a);
    } else {
        lemma_run_append(f, a, b.drop_last());
        assert((a + b).drop_last() =~= a + b.drop_last());
        assert((a + b).last() == b.last());
    }
}

proof fn lemma_arrival(f: Fetch, chunks: Seq<u64>)
    requires
        f.phase is Receiving,
        f.phase->transfer.downloaded + total_of(chunks) <= u64::MAX,
    ensures
        ({
            let after = run(f, arrival(chunks));
            &&& after.phase is Receiving
            &&& after.phase->transfer.downloaded == f.phase->transfer.downloaded + total_of(chunks)
            &&& after.expected == f.expected
            &&& after.attempt == f.attempt
            &&& after.policy == f.policy
        }),
    decreases chunks.len(),
{
    if chunks.len() > 0 {
        let less = chunks.drop_last();
        lemma_arrival(f, less);
        assert(arrival(chunks).drop_last() =~= arrival(less));
        assert(arrival(chunks).last() == (Event::Wrote { bytes: chunks.last() }));
    } else {
        assert(arrival(chunks) =~= Seq::<Event>::empty());
    }
}

/// A file of which a part is there is asked for from that part on. Where the server
/// goes on with it, what arrives is added to it; where it begins anew, what was there
/// counts for nothing. The fetch is complete where the bytes come to the expected size,
/// and only there.
pub proof fn law_a_fetch_adds_up(policy: RetryPolicy, expected: u64, have: u64, status: u16, chunks: Seq<u64>)
    requires
        have != expected,
        have + total_of(chunks) <= u64::MAX,
    ensures
        ({
            let f = Fetch { policy, expected, attempt: 1, phase: Phase::Looking };
            let looked = f.stepped(Event::Measured { cancelled: false, length: have });
            let answered = looked.0.stepped(Event::Answered { status });
            let events = seq![
                Event::Measured { cancelled: false, length: have },
                Event::Answered { status },
            ] + arrival(chunks) + seq![Event::Drained];
            let kept: nat = if status == 206 {
                have as nat
            } else {
                0
            };
            &&& looked.1 == (Order::Ask { existing: have })
            &&& answered.1 == (Order::Receive { append: status == 206 && have > 0 })
            &&& (run(f, events).phase == (Phase::Ended { ending: Ending::Complete })) == (kept
                + total_of(chunks) == expected)
        }),
{
    let f = Fetch { policy, expected, attempt: 1, phase: Phase::Looking };
    let first = Event::Measured { cancelled: false, length: have };
    let second = Event::Answered { status };
    let start = seq![first, second];
    let looked = f.stepped(first);
    let answered = looked.0.stepped(second);
    assert(start.drop_last() =~= seq![first]);
    assert(start.drop_last().drop_last() =~= Seq::<Event>::empty());
    assert(run(f, Seq::<Event>::empty()) == f);
    assert(run(f, start.drop_last()) == looked.0);
    assert(run(f, start) == answered.0);
    lemma_run_append(f, start, arrival(chunks));
    lemma_arrival(answered.0, chunks);
    let before = run(f, start + arrival(chunks));
    let events = start + arrival(chunks) + seq![Event::Drained];
    assert(events.drop_last() =~= start + arrival(chunks));
    assert(events.last() == Event::Drained);
    assert(run(f, events) == before.stepped(Event::Drained).0);
}

/// A fetch whose connection breaks is tried again while tries are left, and so is one
/// that the server is too busy for; any other refusal ends it.
pub proof fn law_passing_faults_are_tried_again(f: Fetch, status: u16)
    requires
        f.wf(),
        f.phase is Asking || f.phase is Receiving,
    ensures
        ({
            let broken = f.stepped(Event::Broke).0.phase;
            if f.attempt < f.policy.tries() {
                broken is Waiting || broken is Looking
            } else {
                broken == (Phase::Ended { ending: Ending::Exhausted })
            }
        }),
        f.phase is Asking ==> {
            let busy = status == 408 || status == 429 || 500 <= status <= 599;
            let refused = f.stepped(Event::Refused { status }).0.phase;
            if !busy {
                refused == (Phase::Ended { ending: Ending::Failed })
            } else if f.attempt < f.policy.tries() {
                refused is Waiting || refused is Looking
            } else {
                refused == (Phase::Ended { ending: Ending::Exhausted })
            }
        },
{
}

/// The first wait is that of the policy, each later one is twice the one before, and
/// from the fifth on they stay the same.
pub proof fn law_waits_double(policy: RetryPolicy, attempt: u32)
    requires
        policy.initial_delay <= 0xfff_ffff_ffff_ffff,
        1 <= attempt < u32::MAX,
    ensures
        delay_spec(policy, 1) == policy.initial_delay,
        attempt < 5 ==> delay_spec(policy, (attempt + 1) as u32) == 2 * delay_spec(policy, attempt),
        attempt >= 5 ==> delay_spec(policy, (attempt + 1) as u32) == delay_spec(policy, attempt),
{
}

/// Before another attempt a fetch waits, unless it is to go on at once.
pub proof fn law_a_fetch_waits_before_it_tries_again(f: Fetch, end: AttemptEnd, delay: u64)
    requires
        next_spec(f.policy, f.attempt, end) == (Next::Retry { delay }),
    ensures
        delay > 0 ==> f.after(end).1 is Sleep && f.after(end).0.phase == (Phase::Waiting {
            remaining: delay,
        }),
        delay == 0 ==> !(f.after(end).1 is Sleep) && f.after(end) == f.again(),
{
}

} // verus!
