//! Listings of models in the background: at most one at a time for each runtime,
//! and a later request takes the place of an earlier one that still waits.

use vstd::prelude::*;
use crate::domain::Model;
use crate::runtime::CatalogCtx;
use crate::table;
use crate::text;

verus! {

/// The listings that run, by runtime, each with the request that waits for it.
#[derive(Debug)]
pub struct CatalogJobs {
    pub jobs: Vec<(String, Option<CatalogCtx>)>,
}

/// The listings with their runtimes as texts.
pub open spec fn job_entries(v: Seq<(String, Option<CatalogCtx>)>) -> Seq<(Seq<char>, Option<CatalogCtx>)> {
    v.map_values(|e: (String, Option<CatalogCtx>)| (e.0@, e.1))
}

impl View for CatalogJobs {
    type V = Map<Seq<char>, Option<CatalogCtx>>;

    open spec fn view(&self) -> Map<Seq<char>, Option<CatalogCtx>> {
        table::as_map(job_entries(self.jobs@))
    }
}

/// A finished listing.
#[derive(Debug)]
pub struct CatalogResult {
    pub runtime: String,
    pub models: Vec<Model>,
}

/// What a finished listing leads to.
#[derive(Debug)]
pub enum Polled {
    /// The listing counts.
    Deliver(CatalogResult),
    /// The listing is out of date; this is being listed now.
    Start(CatalogCtx),
}

/// A request in place of an earlier one: if either is to read the source again,
/// this one is.
pub open spec fn superseding(now: CatalogCtx, before: Option<CatalogCtx>) -> CatalogCtx {
    CatalogCtx {
        reload: now.reload || (before is Some && before->0.reload),
        ..now
    }
}

/// The listings after a request.
pub open spec fn requested(jobs: Map<Seq<char>, Option<CatalogCtx>>, runtime: Seq<char>, ctx: CatalogCtx) -> Map<Seq<char>, Option<CatalogCtx>> {
    if jobs.dom().contains(runtime) {
        jobs.insert(runtime, Some(superseding(ctx, jobs[runtime])))
    } else {
        jobs.insert(runtime, None)
    }
}

/// The request that waits for a runtime's listing.
pub open spec fn waiting(jobs: Map<Seq<char>, Option<CatalogCtx>>, runtime: Seq<char>) -> Option<CatalogCtx> {
    if jobs.dom().contains(runtime) {
        jobs[runtime]
    } else {
        None
    }
}

/// The listings after one has ended: the waiting request runs in its place.
pub open spec fn ended(jobs: Map<Seq<char>, Option<CatalogCtx>>, runtime: Seq<char>) -> Map<Seq<char>, Option<CatalogCtx>> {
    if waiting(jobs, runtime) is Some {
        jobs.insert(runtime, None)
    } else {
        jobs.remove(runtime)
    }
}

impl CatalogJobs {
    /// No runtime has two listings.
    pub open spec fn wf(self) -> bool {
        table::distinct_keys(job_entries(self.jobs@))
    }

    /// Nothing is listed.
    pub fn new() -> (r: CatalogJobs)
        ensures
            r.wf(),
            r@ == Map::<Seq<char>, Option<CatalogCtx>>::empty(),
    {
        let r = CatalogJobs { jobs: Vec::new() };
        assert(r@ =~= Map::<Seq<char>, Option<CatalogCtx>>::empty());
        r
    }

    /// Whether nothing is listed.
    pub fn is_idle(&self) -> (r: bool)
        requires
            self.wf(),
        ensures
            r == (self@ == Map::<Seq<char>, Option<CatalogCtx>>::empty()),
    {
        let ghost all = job_entries(self.jobs@);
        if self.jobs.len() == 0 {
            assert(self@ =~= Map::<Seq<char>, Option<CatalogCtx>>::empty());
            true
        } else {
            proof {
                table::lemma_entry(all, 0);
            }
            false
        }
    }

    fn find(&self, runtime: &str) -> (r: Option<usize>)
        requires
            self.wf(),
        ensures
            match r {
                Some(i) => i < self.jobs@.len() && self.jobs@[i as int].0@ == runtime@
                    && self@.dom().contains(runtime@) && self@[runtime@] == self.jobs@[i as int].1,
                None => !self@.dom().contains(runtime@) && !table::has_key(
                    job_entries(self.jobs@),
                    runtime@,
                ),
            },
    {
        let ghost all = job_entries(self.jobs@);
        let mut i: usize = 0;
        while i < self.jobs.len()
            invariant
                i <= self.jobs.len(),
                self.wf(),
                all == job_entries(self.jobs@),
                forall|j: int| 0 <= j < i ==> (#[trigger] all[j]).0 != runtime@,
            decreases self.jobs.len() - i,
        {
            assert(all[i as int] == (self.jobs@[i as int].0@, self.jobs@[i as int].1));
            if text::same(self.jobs[i].0.as_str(), runtime) {
                proof {
                    table::lemma_entry(all, i as int);
                }
                return Some(i);
            }
            i += 1;
        }
        assert(all.len() == self.jobs@.len());
        None
    }

    fn put(&mut self, runtime: String, queued: Option<CatalogCtx>)
        requires
            old(self).wf(),
            !table::has_key(job_entries(old(self).jobs@), runtime@),
        ensures
            final(self).wf(),
            final(self)@ == old(self)@.insert(runtime@, queued),
    {
        let ghost all = job_entries(self.jobs@);
        proof {
            table::lemma_push(all, runtime@, queued);
        }
        let ghost entry = (runtime@, queued);
        self.jobs.push((runtime, queued));
        assert(job_entries(self.jobs@) =~= all.push(entry));
    }

    fn take(&mut self, i: usize) -> (r: (String, Option<CatalogCtx>))
        requires
            old(self).wf(),
            i < old(self).jobs@.len(),
        ensures
            final(self).wf(),
            r == old(self).jobs@[i as int],
            final(self)@ == old(self)@.remove(r.0@),
            !table::has_key(job_entries(final(self).jobs@), r.0@),
    {
        let ghost all = job_entries(self.jobs@);
        proof {
            table::lemma_remove(all, i as int);
        }
        let entry = self.jobs.remove(i);
        let ghost less = job_entries(self.jobs@);
        assert(less =~= all.remove(i as int));
        proof {
            if table::has_key(less, entry.0@) {
                assert(table::as_map(less).dom().contains(entry.0@));
            }
        }
        entry
    }

    /// Asks for a listing. Gives what to list now, or nothing where the runtime is
    /// being listed already: the request then waits.
    pub fn request(&mut self, runtime: &str, ctx: CatalogCtx) -> (r: Option<CatalogCtx>)
        requires
            old(self).wf(),
        ensures
            final(self).wf(),
            final(self)@ == requested(old(self)@, runtime@, ctx),
            r == (if old(self)@.dom().contains(runtime@) {
                None
            } else {
                Some(ctx)
            }),
    {
        let ghost before = self@;
        match self.find(runtime) {
            Some(i) => {
                let (name, queued) = self.take(i);
                let mut next = ctx;
                if let Some(previous) = queued {
                    next.reload = next.reload || previous.reload;
                }
                assert(next == superseding(ctx, before[runtime@]));
                self.put(name, Some(next));
                assert(self@ =~= requested(before, runtime@, ctx));
                None
            },
            None => {
                self.put(text::copy(runtime), None);
                Some(ctx)
            },
        }
    }

    /// Takes a finished listing. It counts, unless a request waited for it: that
    /// one is then being listed in its place.
    pub fn poll(&mut self, result: CatalogResult) -> (r: Polled)
        requires
            old(self).wf(),
        ensures
            final(self).wf(),
            r == (match waiting(old(self)@, result.runtime@) {
                Some(next) => Polled::Start(next),
                None => Polled::Deliver(result),
            }),
            final(self)@ == ended(old(self)@, result.runtime@),
    {
        let ghost before = self@;
        let ghost runtime = result.runtime@;
        match self.find(result.runtime.as_str()) {
            Some(i) => {
                let (name, queued) = self.take(i);
                match queued {
                    Some(next) => {
                        self.put(name, None);
                        assert(self@ =~= ended(before, runtime));
                        Polled::Start(next)
                    },
                    None => Polled::Deliver(result),
                }
            },
            None => {
                assert(self@ =~= before.remove(runtime));
                Polled::Deliver(result)
            },
        }
    }
}

/// While a runtime is being listed, no request starts another listing of it.
pub proof fn law_one_listing_per_runtime(jobs: Map<Seq<char>, Option<CatalogCtx>>, runtime: Seq<char>, ctx: CatalogCtx)
    requires
        jobs.dom().contains(runtime),
    ensures
        requested(jobs, runtime, ctx).dom() == jobs.dom(),
        waiting(requested(jobs, runtime, ctx), runtime) is Some,
        ended(requested(jobs, runtime, ctx), runtime).dom() == jobs.dom(),
{
    assert(requested(jobs, runtime, ctx).dom() =~= jobs.dom());
    assert(ended(requested(jobs, runtime, ctx), runtime).dom() =~= jobs.dom());
}

/// Of two requests that wait, the later one is listed, and a wish to read the
/// source again is never lost.
pub proof fn law_the_last_request_counts(jobs: Map<Seq<char>, Option<CatalogCtx>>, runtime: Seq<char>, first: CatalogCtx, second: CatalogCtx)
    requires
        jobs.dom().contains(runtime),
    ensures
        ({
            let next = waiting(requested(requested(jobs, runtime, first), runtime, second), runtime);
            &&& next is Some
            &&& next->0.view == second.view
            &&& next->0.sources == second.sources
            &&& (first.reload || second.reload ==> next->0.reload)
        }),
{
}

/// A runtime that is not being listed is listed at once, and once it is listed nothing of
/// it is left; a request that waited is listed next, as it was asked for.
pub proof fn law_listings_start_and_end(jobs: Map<Seq<char>, Option<CatalogCtx>>, runtime: Seq<char>, other: Seq<char>, first: CatalogCtx, second: CatalogCtx)
    requires
        !jobs.dom().contains(runtime),
        other != runtime,
    ensures
        ({
            let one = requested(jobs, runtime, first);
            let two = requested(one, runtime, second);
            &&& one.dom().contains(runtime) && waiting(one, runtime) is None
            &&& ended(one, runtime) == jobs
            &&& waiting(two, runtime) == Some(second)
            &&& ended(two, runtime) == one
            &&& one.dom().contains(other) == jobs.dom().contains(other)
            &&& waiting(two, other) == waiting(jobs, other)
        }),
{
    let one = requested(jobs, runtime, first);
    let two = requested(one, runtime, second);
    assert(ended(one, runtime) =~= jobs);
    assert(ended(two, runtime) =~= one);
}

} // verus!
