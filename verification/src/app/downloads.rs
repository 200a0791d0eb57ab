//! The life of a download: how it starts, goes on, ends, and is taken up again.

use vstd::prelude::*;
use crate::app::editor::{Message, MessageView};
use crate::discovery::online::cache::{
    blob_places, cache_blob_paths_in, expected_bytes, expected_upto,
};
use crate::discovery::online::transfer::{DownloadJobRecord, DownloadResult};
use crate::domain::{blobs_view, BlobView, Model, ModelView, RemoteModel, RemoteView};
use crate::runtime::{ModelTransfer, TransferView};
use crate::text;
use crate::text::strs;

verus! {

// --- jobs --------------------------------------------------------------------

/// How far a download is.
#[derive(Debug)]
pub enum ModelDownloadStatus {
    Downloading,
    Cancelling,
    Downloaded(String),
    Cancelled,
    Interrupted,
    Failed(String),
}

pub enum StatusView {
    Downloading,
    Cancelling,
    Downloaded(Seq<char>),
    Cancelled,
    Interrupted,
    Failed(Seq<char>),
}

impl View for ModelDownloadStatus {
    type V = StatusView;

    open spec fn view(&self) -> StatusView {
        match self {
            ModelDownloadStatus::Downloading => StatusView::Downloading,
            ModelDownloadStatus::Cancelling => StatusView::Cancelling,
            ModelDownloadStatus::Downloaded(p) => StatusView::Downloaded(p@),
            ModelDownloadStatus::Cancelled => StatusView::Cancelled,
            ModelDownloadStatus::Interrupted => StatusView::Interrupted,
            ModelDownloadStatus::Failed(e) => StatusView::Failed(e@),
        }
    }
}

impl StatusView {
    /// Whether something is being transferred.
    pub open spec fn active(self) -> bool {
        self is Downloading || self is Cancelling
    }

    /// Whether the download stopped before its end.
    pub open spec fn resumable(self) -> bool {
        self is Cancelled || self is Interrupted || self is Failed
    }
}

impl ModelDownloadStatus {
    /// Whether something is being transferred.
    pub fn is_active(&self) -> (r: bool)
        ensures
            r == self@.active(),
    {
        match self {
            ModelDownloadStatus::Downloading => true,
            ModelDownloadStatus::Cancelling => true,
            _ => false,
        }
    }

    /// Whether the download stopped before its end.
    pub fn is_resumable(&self) -> (r: bool)
        ensures
            r == self@.resumable(),
    {
        match self {
            ModelDownloadStatus::Cancelled => true,
            ModelDownloadStatus::Interrupted => true,
            ModelDownloadStatus::Failed(_) => true,
            _ => false,
        }
    }
}

/// Where the bytes of a download come from.
#[derive(Debug)]
pub enum DownloadSource {
    /// Blobs that go to the cache of the Hub.
    Hub(RemoteModel),
    /// A transfer that belongs to a runtime.
    Backend(ModelTransfer),
}

pub enum SourceView {
    Hub(RemoteView),
    Backend(TransferView),
}

impl View for DownloadSource {
    type V = SourceView;

    open spec fn view(&self) -> SourceView {
        match self {
            DownloadSource::Hub(r) => SourceView::Hub(r@),
            DownloadSource::Backend(t) => SourceView::Backend(t@),
        }
    }
}

impl Clone for DownloadSource {
    fn clone(&self) -> (r: Self)
        ensures
            r@ == self@,
    {
        match self {
            DownloadSource::Hub(r) => DownloadSource::Hub(r.clone()),
            DownloadSource::Backend(t) => DownloadSource::Backend(t.clone()),
        }
    }
}

/// One download.
#[derive(Debug)]
pub struct ModelDownload {
    /// The attempt; a new attempt has a new number.
    pub id: u64,
    pub model_id: String,
    pub model: String,
    pub downloaded_bytes: u64,
    pub total_bytes: u64,
    pub status: ModelDownloadStatus,
    pub source: DownloadSource,
    /// Whether the attempt was asked to stop.
    pub cancelled: bool,
}

pub struct JobView {
    pub id: u64,
    pub model_id: Seq<char>,
    pub model: Seq<char>,
    pub downloaded_bytes: u64,
    pub total_bytes: u64,
    pub status: StatusView,
    pub source: SourceView,
    pub cancelled: bool,
}

impl View for ModelDownload {
    type V = JobView;

    open spec fn view(&self) -> JobView {
        JobView {
            id: self.id,
            model_id: self.model_id@,
            model: self.model@,
            downloaded_bytes: self.downloaded_bytes,
            total_bytes: self.total_bytes,
            status: self.status@,
            source: self.source@,
            cancelled: self.cancelled,
        }
    }
}

/// The views of a list of downloads.
pub open spec fn job_views(v: Seq<ModelDownload>) -> Seq<JobView> {
    v.map_values(|j: ModelDownload| j@)
}

/// How much is there, in per cent and at most a hundred.
pub open spec fn percent_of(downloaded: u64, total: u64) -> int {
    if total == 0 {
        0
    } else if downloaded * 100 / total as int > 100 {
        100
    } else {
        downloaded * 100 / total as int
    }
}

/// How much of a transfer is there, in per cent.
pub fn transfer_percent(downloaded_bytes: u64, total_bytes: u64) -> (r: u8)
    ensures
        r == percent_of(downloaded_bytes, total_bytes),
        r <= 100,
{
    if total_bytes == 0 {
        return 0;
    }
    let part: u128 = downloaded_bytes as u128 * 100 / total_bytes as u128;
    if part > 100 {
        100
    } else {
        part as u8
    }
}

/// The files that the first `n` blobs are written to, in the cache at `hub`.
pub open spec fn blob_targets(hub: Seq<char>, repo: Seq<char>, blobs: Seq<BlobView>, n: nat) -> Seq<Seq<char>>
    decreases n,
{
    if n == 0 {
        Seq::<Seq<char>>::empty()
    } else {
        let rest = blob_targets(hub, repo, blobs, (n - 1) as nat);
        match blob_places(hub, repo, blobs[n - 1].oid) {
            Some((incomplete, complete)) => rest.push(incomplete).push(complete),
            None => rest,
        }
    }
}

/// The paths that a source writes.
pub open spec fn source_targets(source: SourceView, hub: Seq<char>) -> Seq<Seq<char>> {
    match source {
        SourceView::Hub(r) => blob_targets(hub, r.repo, r.blobs, r.blobs.len()),
        SourceView::Backend(t) => t.targets,
    }
}

impl ModelDownload {
    /// How much is there, in per cent.
    pub fn percent(&self) -> (r: u8)
        ensures
            r == percent_of(self@.downloaded_bytes, self@.total_bytes),
    {
        transfer_percent(self.downloaded_bytes, self.total_bytes)
    }

    /// The paths that the transfer writes, with the cache of the Hub at `hub`.
    pub fn targets(&self, hub: &str) -> (r: Vec<String>)
        ensures
            strs(r@) == source_targets(self@.source, hub@),
    {
        match &self.source {
            DownloadSource::Backend(t) => text::copy_all(&t.targets),
            DownloadSource::Hub(remote) => {
                let ghost blobs = blobs_view(remote.blobs@);
                let mut out: Vec<String> = Vec::new();
                let mut i: usize = 0;
                assert(strs(out@) =~= blob_targets(hub@, remote.repo@, blobs, 0));
                while i < remote.blobs.len()
                    invariant
                        i <= remote.blobs.len(),
                        blobs == blobs_view(remote.blobs@),
                        strs(out@) == blob_targets(hub@, remote.repo@, blobs, i as nat),
                    decreases remote.blobs.len() - i,
                {
                    assert(blobs[i as int] == remote.blobs@[i as int]@);
                    let ghost before = strs(out@);
                    if let Some((incomplete, complete)) = cache_blob_paths_in(
                        hub,
                        remote.repo.as_str(),
                        remote.blobs[i].oid.as_str(),
                    ) {
                        let ghost a = incomplete@;
                        let ghost b = complete@;
                        out.push(incomplete);
                        out.push(complete);
                        assert(strs(out@) =~= before.push(a).push(b));
                    }
                    i += 1;
                }
                assert(blobs.len() == remote.blobs@.len());
                out
            },
        }
    }
}

// --- events ------------------------------------------------------------------

/// What a running transfer reports.
#[derive(Debug)]
pub enum ModelDownloadEvent {
    Progress { id: u64, downloaded_bytes: u64, total_bytes: u64 },
    Finished { id: u64, result: Result<DownloadResult, String> },
}

/// How a transfer ended.
pub enum EndView {
    Downloaded(Seq<char>),
    Cancelled,
    Failed(Seq<char>),
}

pub enum EventView {
    Progress(u64, u64, u64),
    Finished(u64, EndView),
}

/// How a transfer ended.
pub open spec fn end_view(result: Result<DownloadResult, String>) -> EndView {
    match result {
        Ok(DownloadResult::Downloaded(p)) => EndView::Downloaded(p@),
        Ok(DownloadResult::Cancelled) => EndView::Cancelled,
        Err(e) => EndView::Failed(e@),
    }
}

impl View for ModelDownloadEvent {
    type V = EventView;

    open spec fn view(&self) -> EventView {
        match self {
            ModelDownloadEvent::Progress { id, downloaded_bytes, total_bytes } => {
                EventView::Progress(*id, *downloaded_bytes, *total_bytes)
            },
            ModelDownloadEvent::Finished { id, result } => EventView::Finished(
                *id,
                end_view(*result),
            ),
        }
    }
}

/// The views of a list of events.
pub open spec fn event_views(v: Seq<ModelDownloadEvent>) -> Seq<EventView> {
    v.map_values(|e: ModelDownloadEvent| e@)
}

/// What the ends of downloads ask for.
#[derive(Debug)]
pub struct DownloadChanges {
    /// Whether the online catalog is to be read again.
    pub online: bool,
    /// The runtimes whose catalogs are to be read again, each once.
    pub runtimes: Vec<String>,
    /// The downloads whose records are to be removed.
    pub records: Vec<String>,
}

/// The downloads, with what the events so far ask for.
pub struct Progress {
    pub jobs: Seq<JobView>,
    pub online: bool,
    pub runtimes: Seq<Seq<char>>,
    pub records: Seq<Seq<char>>,
}

/// The first download of an attempt, from `from` on.
pub open spec fn job_at(jobs: Seq<JobView>, id: u64, from: int) -> Option<int>
    decreases jobs.len() - from,
{
    if from < 0 || from >= jobs.len() {
        None
    } else if jobs[from].id == id {
        Some(from)
    } else {
        job_at(jobs, id, from + 1)
    }
}

impl JobView {
    /// The download after a report of progress: only a running one moves on.
    pub open spec fn progressed(self, downloaded: u64, total: u64) -> JobView {
        if self.status is Downloading {
            JobView {
                downloaded_bytes: if downloaded < total {
                    downloaded
                } else {
                    total
                },
                total_bytes: total,
                ..self
            }
        } else {
            self
        }
    }

    /// The download after its end. A failure after it was asked to stop is a stop.
    pub open spec fn ended(self, end: EndView) -> JobView {
        match end {
            EndView::Downloaded(p) => JobView {
                downloaded_bytes: self.total_bytes,
                status: StatusView::Downloaded(p),
                ..self
            },
            EndView::Cancelled => JobView { status: StatusView::Cancelled, ..self },
            EndView::Failed(e) => JobView {
                status: if self.cancelled {
                    StatusView::Cancelled
                } else {
                    StatusView::Failed(e)
                },
                ..self
            },
        }
    }

    /// The download after it was asked to stop: only a running one is.
    pub open spec fn stopped(self) -> JobView {
        if self.status is Downloading {
            JobView { status: StatusView::Cancelling, cancelled: true, ..self }
        } else {
            self
        }
    }

    /// The download in a new attempt.
    pub open spec fn again(self, id: u64) -> JobView {
        JobView { id, status: StatusView::Downloading, cancelled: false, ..self }
    }
}

impl Progress {
    /// What an event leads to. An event of an attempt that is no longer there is
    /// dropped.
    pub open spec fn after(self, event: EventView) -> Progress {
        match event {
            EventView::Progress(id, downloaded, total) => match job_at(self.jobs, id, 0) {
                None => self,
                Some(i) => Progress {
                    jobs: self.jobs.update(i, self.jobs[i].progressed(downloaded, total)),
                    ..self
                },
            },
            EventView::Finished(id, end) => match job_at(self.jobs, id, 0) {
                None => self,
                Some(i) => {
                    let jobs = self.jobs.update(i, self.jobs[i].ended(end));
                    if end is Downloaded {
                        match self.jobs[i].source {
                            SourceView::Hub(_) => Progress {
                                jobs,
                                online: true,
                                records: self.records.push(self.jobs[i].model_id),
                                ..self
                            },
                            SourceView::Backend(t) => Progress {
                                jobs,
                                runtimes: if self.runtimes.contains(t.runtime) {
                                    self.runtimes
                                } else {
                                    self.runtimes.push(t.runtime)
                                },
                                ..self
                            },
                        }
                    } else {
                        Progress { jobs, ..self }
                    }
                },
            },
        }
    }

    /// What the first `n` events lead to.
    pub open spec fn after_all(self, events: Seq<EventView>, n: nat) -> Progress
        decreases n,
    {
        if n == 0 {
            self
        } else {
            self.after_all(events, (n - 1) as nat).after(events[n - 1])
        }
    }
}

/// The downloads before any event.
pub open spec fn unchanged(jobs: Seq<JobView>) -> Progress {
    Progress {
        jobs,
        online: false,
        runtimes: Seq::<Seq<char>>::empty(),
        records: Seq::<Seq<char>>::empty(),
    }
}

/// The number after a number; zero is none.
pub open spec fn following(id: u64) -> u64 {
    if id == u64::MAX {
        1
    } else {
        (id + 1) as u64
    }
}

fn find_job(jobs: &Vec<ModelDownload>, id: u64) -> (r: Option<usize>)
    ensures
        match r {
            Some(i) => i < jobs.len() && job_at(job_views(jobs@), id, 0) == Some(i as int),
            None => job_at(job_views(jobs@), id, 0) is None,
        },
{
    let ghost all = job_views(jobs@);
    let mut i: usize = 0;
    while i < jobs.len()
        invariant
            i <= jobs.len(),
            all == job_views(jobs@),
            job_at(all, id, 0) == job_at(all, id, i as int),
        decreases jobs.len() - i,
    {
        assert(all[i as int] == jobs@[i as int]@);
        if jobs[i].id == id {
            return Some(i);
        }
        i += 1;
    }
    None
}

/// The downloads, and the number of the next attempt.
#[derive(Debug)]
pub struct DownloadManager {
    pub jobs: Vec<ModelDownload>,
    pub next_id: u64,
}

/// The downloads with what was asked for, as one value.
pub open spec fn progress_of(jobs: Seq<ModelDownload>, changes: DownloadChanges) -> Progress {
    Progress {
        jobs: job_views(jobs),
        online: changes.online,
        runtimes: strs(changes.runtimes@),
        records: strs(changes.records@),
    }
}

impl DownloadManager {
    /// Asks a running download to stop.
    pub fn cancel(&mut self, index: usize)
        ensures
            final(self).next_id == old(self).next_id,
            job_views(final(self).jobs@) == (if index < old(self).jobs@.len() {
                job_views(old(self).jobs@).update(index as int, old(self).jobs@[index as int]@.stopped())
            } else {
                job_views(old(self).jobs@)
            }),
    {
        if index >= self.jobs.len() {
            return;
        }
        let ghost before = job_views(self.jobs@);
        let running = match self.jobs[index].status {
            ModelDownloadStatus::Downloading => true,
            _ => false,
        };
        if running {
            let job = &mut self.jobs[index];
            job.cancelled = true;
            job.status = ModelDownloadStatus::Cancelling;
        }
        assert(job_views(self.jobs@) =~= before.update(
            index as int,
            before[index as int].stopped(),
        ));
    }

    /// A number for a new attempt.
    pub fn next_id(&mut self) -> (r: u64)
        ensures
            r == old(self).next_id,
            final(self).next_id == following(old(self).next_id),
            final(self).jobs == old(self).jobs,
    {
        let id = self.next_id;
        self.next_id = if id == u64::MAX {
            1
        } else {
            id + 1
        };
        id
    }

    /// Takes one report of a transfer.
    fn take(&mut self, event: ModelDownloadEvent, changes: &mut DownloadChanges)
        ensures
            progress_of(final(self).jobs@, *final(changes)) == progress_of(
                old(self).jobs@,
                *old(changes),
            ).after(event@),
            final(self).next_id == old(self).next_id,
    {
        let ghost before = progress_of(self.jobs@, *changes);
        let ghost jobs = job_views(self.jobs@);
        match event {
            ModelDownloadEvent::Progress { id, downloaded_bytes, total_bytes } => {
                let i = match find_job(&self.jobs, id) {
                    None => return,
                    Some(i) => i,
                };
                assert(jobs[i as int] == self.jobs@[i as int]@);
                let running = match self.jobs[i].status {
                    ModelDownloadStatus::Downloading => true,
                    _ => false,
                };
                if running {
                    let job = &mut self.jobs[i];
                    job.downloaded_bytes = if downloaded_bytes < total_bytes {
                        downloaded_bytes
                    } else {
                        total_bytes
                    };
                    job.total_bytes = total_bytes;
                }
                assert(job_views(self.jobs@) =~= jobs.update(
                    i as int,
                    jobs[i as int].progressed(downloaded_bytes, total_bytes),
                ));
            },
            ModelDownloadEvent::Finished { id, result } => {
                let i = match find_job(&self.jobs, id) {
                    None => return,
                    Some(i) => i,
                };
                assert(jobs[i as int] == self.jobs@[i as int]@);
                let ghost end = end_view(result);
                let mut finished = false;
                match result {
                    Ok(DownloadResult::Downloaded(path)) => {
                        let job = &mut self.jobs[i];
                        job.downloaded_bytes = job.total_bytes;
                        job.status = ModelDownloadStatus::Downloaded(path);
                        finished = true;
                    },
                    Ok(DownloadResult::Cancelled) => {
                        let job = &mut self.jobs[i];
                        job.status = ModelDownloadStatus::Cancelled;
                    },
                    Err(error) => {
                        let job = &mut self.jobs[i];
                        job.status = if job.cancelled {
                            ModelDownloadStatus::Cancelled
                        } else {
                            ModelDownloadStatus::Failed(error)
                        };
                    },
                }
                assert(job_views(self.jobs@) =~= jobs.update(i as int, jobs[i as int].ended(end)));
                if finished {
                    let job = &self.jobs[i];
                    match &job.source {
                        DownloadSource::Hub(_) => {
                            changes.online = true;
                            changes.records.push(job.model_id.clone());
                            assert(strs(changes.records@) =~= before.records.push(
                                jobs[i as int].model_id,
                            ));
                        },
                        DownloadSource::Backend(t) => {
                            let ghost name = t@.runtime;
                            if !text::list_contains(&changes.runtimes, t.runtime.0.as_str()) {
                                changes.runtimes.push(t.runtime.0.clone());
                                assert(strs(changes.runtimes@) =~= before.runtimes.push(name));
                            }
                        },
                    }
                }
            },
        }
    }

    /// Takes what the transfers reported, in order.
    pub fn poll(&mut self, events: Vec<ModelDownloadEvent>) -> (r: DownloadChanges)
        ensures
            progress_of(final(self).jobs@, r) == unchanged(job_views(old(self).jobs@)).after_all(
                event_views(events@),
                events@.len(),
            ),
            final(self).next_id == old(self).next_id,
    {
        let ghost start = unchanged(job_views(self.jobs@));
        let ghost all = event_views(events@);
        let ghost count = events@.len();
        let mut changes = DownloadChanges {
            online: false,
            runtimes: Vec::new(),
            records: Vec::new(),
        };
        assert(strs(changes.runtimes@) =~= Seq::<Seq<char>>::empty());
        assert(strs(changes.records@) =~= Seq::<Seq<char>>::empty());
        let mut left = events;
        let ghost mut n: nat = 0;
        let ghost first = self.next_id;
        assert(left@ =~= events@.skip(0));
        while left.len() > 0
            invariant
                n + left@.len() == count,
                all == event_views(events@),
                count == events@.len(),
                left@ == events@.skip(n as int),
                progress_of(self.jobs@, changes) == start.after_all(all, n),
                self.next_id == first,
            decreases left@.len(),
        {
            let event = left.remove(0);
            assert(event@ == all[n as int]);
            self.take(event, &mut changes);
            proof {
                n = n + 1;
            }
            assert(left@ =~= events@.skip(n as int));
        }
        changes
    }
}

// --- starting ----------------------------------------------------------------

/// What asking for a download leads to.
#[derive(Debug)]
pub enum DownloadStart {
    Nothing,
    Refused(Message),
    /// The download is in the list already.
    Reveal(usize),
    /// The download is in the list and can be taken up again.
    Resume(usize),
    /// A new download of so many bytes, under a name.
    Begin(String, u64),
}

pub enum StartView {
    Nothing,
    Refused(MessageView),
    Reveal(int),
    Resume(int),
    Begin(Seq<char>, u64),
}

impl View for DownloadStart {
    type V = StartView;

    open spec fn view(&self) -> StartView {
        match self {
            DownloadStart::Nothing => StartView::Nothing,
            DownloadStart::Refused(m) => StartView::Refused(m@),
            DownloadStart::Reveal(i) => StartView::Reveal(*i as int),
            DownloadStart::Resume(i) => StartView::Resume(*i as int),
            DownloadStart::Begin(s, n) => StartView::Begin(s@, *n),
        }
    }
}

/// The first download of a model, from `from` on.
pub open spec fn job_of(jobs: Seq<JobView>, model_id: Seq<char>, from: int) -> Option<int>
    decreases jobs.len() - from,
{
    if from < 0 || from >= jobs.len() {
        None
    } else if jobs[from].model_id == model_id {
        Some(from)
    } else {
        job_of(jobs, model_id, from + 1)
    }
}

/// What asking for a model leads to: the download that is there, or a new one.
pub open spec fn tracked_or(jobs: Seq<JobView>, model_id: Seq<char>, name: Seq<char>, total: u64) -> StartView {
    match job_of(jobs, model_id, 0) {
        Some(i) => if jobs[i].status.resumable() {
            StartView::Resume(i)
        } else {
            StartView::Reveal(i)
        },
        None => StartView::Begin(name, total),
    }
}

pub const CANNOT_DOWNLOAD: &'static str = "Cannot download";

pub const NEEDS_TOKEN: &'static str = "This gated model requires HF_TOKEN.";

pub const NO_METADATA: &'static str =
    "Download metadata is unavailable; press F5 in this repository and retry.";

/// What asking for the selected model's download leads to. `total` is the size of
/// all blobs, `downloaded` what is there of it, and `token` says whether there is
/// one for gated repositories.
pub open spec fn download_of(jobs: Seq<JobView>, m: ModelView, total: u64, downloaded: u64, token: bool) -> StartView {
    match (m.flm, m.remote) {
        (Some(flm), _) => if flm.installed {
            StartView::Nothing
        } else {
            tracked_or(jobs, m.id, flm.tag, m.size_bytes)
        },
        (None, None) => StartView::Nothing,
        (None, Some(remote)) => if remote.file is None || (total > 0 && downloaded >= total) {
            StartView::Nothing
        } else if remote.gated && !token {
            StartView::Refused(
                MessageView { title: CANNOT_DOWNLOAD@, lines: seq![NEEDS_TOKEN@] },
            )
        } else if remote.blobs.len() == 0 || total == 0 {
            StartView::Refused(
                MessageView { title: CANNOT_DOWNLOAD@, lines: seq![NO_METADATA@] },
            )
        } else {
            tracked_or(jobs, m.id, remote.repo + "/"@ + remote.file->0, total)
        },
    }
}

/// The size of all blobs that a model is downloaded from.
pub open spec fn download_total(model: Model) -> nat {
    match model.remote {
        Some(r) => expected_upto(r.blobs@, r.blobs@.len()),
        None => 0,
    }
}

impl DownloadManager {
    fn find_model(&self, model_id: &str) -> (r: Option<usize>)
        ensures
            match r {
                Some(i) => i < self.jobs@.len() && job_of(job_views(self.jobs@), model_id@, 0)
                    == Some(i as int),
                None => job_of(job_views(self.jobs@), model_id@, 0) is None,
            },
    {
        let ghost all = job_views(self.jobs@);
        let mut i: usize = 0;
        while i < self.jobs.len()
            invariant
                i <= self.jobs.len(),
                all == job_views(self.jobs@),
                job_of(all, model_id@, 0) == job_of(all, model_id@, i as int),
            decreases self.jobs.len() - i,
        {
            assert(all[i as int] == self.jobs@[i as int]@);
            if text::same(self.jobs[i].model_id.as_str(), model_id) {
                return Some(i);
            }
            i += 1;
        }
        None
    }

    fn track_or_begin(&self, model_id: &str, name: String, total: u64) -> (r: DownloadStart)
        ensures
            r@ == tracked_or(job_views(self.jobs@), model_id@, name@, total),
    {
        match self.find_model(model_id) {
            Some(i) => {
                assert(job_views(self.jobs@)[i as int] == self.jobs@[i as int]@);
                if self.jobs[i].status.is_resumable() {
                    DownloadStart::Resume(i)
                } else {
                    DownloadStart::Reveal(i)
                }
            },
            None => DownloadStart::Begin(name, total),
        }
    }

    /// What asking for the selected model's download leads to. `downloaded` is how
    /// much of it the cache holds, and `token` says whether there is a token for
    /// gated repositories.
    pub fn download_selected_model(&self, model: &Model, downloaded: u64, token: bool) -> (r: DownloadStart)
        requires
            download_total(*model) <= u64::MAX,
        ensures
            r@ == download_of(
                job_views(self.jobs@),
                model@,
                download_total(*model) as u64,
                downloaded,
                token,
            ),
    {
        if let Some(flm) = &model.flm {
            if flm.installed {
                return DownloadStart::Nothing;
            }
            return self.track_or_begin(model.id.as_str(), flm.tag.clone(), model.size_bytes);
        }
        let remote = match &model.remote {
            Some(r) => r,
            None => return DownloadStart::Nothing,
        };
        let total: u64 = match expected_bytes(&remote.blobs) {
            Some(n) => n,
            None => 0,
        };
        assert(total == download_total(*model));
        assert(blobs_view(remote.blobs@).len() == remote.blobs@.len());
        let file = match &remote.file {
            Some(f) => f,
            None => return DownloadStart::Nothing,
        };
        if total > 0 && downloaded >= total {
            return DownloadStart::Nothing;
        }
        if remote.gated && !token {
            return DownloadStart::Refused(Message::line(CANNOT_DOWNLOAD, NEEDS_TOKEN));
        }
        if remote.blobs.len() == 0 || total == 0 {
            return DownloadStart::Refused(Message::line(CANNOT_DOWNLOAD, NO_METADATA));
        }
        let name = text::cat3(remote.repo.as_str(), "/", file.as_str());
        self.track_or_begin(model.id.as_str(), name, total)
    }

    /// Starts a download, and gives the number of the attempt.
    pub fn begin(&mut self, model_id: &str, name: String, total: u64, source: DownloadSource) -> (r: u64)
        ensures
            r == old(self).next_id,
            final(self).next_id == following(old(self).next_id),
            job_views(final(self).jobs@) == job_views(old(self).jobs@).push(
                (JobView {
                    id: r,
                    model_id: model_id@,
                    model: name@,
                    downloaded_bytes: 0,
                    total_bytes: total,
                    status: StatusView::Downloading,
                    source: source@,
                    cancelled: false,
                }),
            ),
    {
        let ghost before = job_views(self.jobs@);
        let id = self.next_id();
        let job = ModelDownload {
            id,
            model_id: text::copy(model_id),
            model: name,
            downloaded_bytes: 0,
            total_bytes: total,
            status: ModelDownloadStatus::Downloading,
            source,
            cancelled: false,
        };
        let ghost view = job@;
        self.jobs.push(job);
        assert(job_views(self.jobs@) =~= before.push(view));
        id
    }

    /// The record to keep before a download is taken up again: only downloads from
    /// the Hub have one.
    pub fn resume_record(&self, index: usize) -> (r: Option<DownloadJobRecord>)
        ensures
            match r {
                Some(record) => index < self.jobs@.len() && ({
                    let job = self.jobs@[index as int]@;
                    &&& job.status.resumable()
                    &&& job.source == SourceView::Hub(record.remote@)
                    &&& record.model_id@ == job.model_id
                    &&& record.model@ == job.model
                }),
                None => index < self.jobs@.len() && self.jobs@[index as int]@.status.resumable()
                    ==> self.jobs@[index as int]@.source is Backend,
            },
    {
        if index >= self.jobs.len() {
            return None;
        }
        let job = &self.jobs[index];
        if !job.status.is_resumable() {
            return None;
        }
        match &job.source {
            DownloadSource::Hub(remote) => Some(
                DownloadJobRecord::new(job.model_id.clone(), job.model.clone(), remote.clone()),
            ),
            DownloadSource::Backend(_) => None,
        }
    }

    /// Takes up a download that stopped, and gives the number of the new attempt.
    /// Where its record could not be kept it stays stopped; the number is used up.
    pub fn resume_model_download(&mut self, index: usize, saved: bool) -> (r: Option<u64>)
        ensures
            ({
                let jobs = job_views(old(self).jobs@);
                let able = index < jobs.len() && jobs[index as int].status.resumable();
                let goes = able && (saved || jobs[index as int].source is Backend);
                &&& r == (if goes {
                    Some(old(self).next_id)
                } else {
                    None
                })
                &&& final(self).next_id == (if able {
                    following(old(self).next_id)
                } else {
                    old(self).next_id
                })
                &&& job_views(final(self).jobs@) == (if goes {
                    jobs.update(index as int, jobs[index as int].again(old(self).next_id))
                } else {
                    jobs
                })
            }),
    {
        if index >= self.jobs.len() {
            return None;
        }
        let ghost jobs = job_views(self.jobs@);
        assert(jobs[index as int] == self.jobs@[index as int]@);
        if !self.jobs[index].status.is_resumable() {
            return None;
        }
        let id = self.next_id();
        let hub = match &self.jobs[index].source {
            DownloadSource::Hub(_) => true,
            DownloadSource::Backend(_) => false,
        };
        if hub && !saved {
            return None;
        }
        let job = &mut self.jobs[index];
        job.id = id;
        job.status = ModelDownloadStatus::Downloading;
        job.cancelled = false;
        assert(job_views(self.jobs@) =~= jobs.update(index as int, jobs[index as int].again(id)));
        Some(id)
    }

    /// Whether a download can be removed from the list: not while it transfers.
    pub fn may_remove(&self, index: usize) -> (r: bool)
        ensures
            r == (index < self.jobs@.len() && !self.jobs@[index as int]@.status.active()),
    {
        index < self.jobs.len() && !self.jobs[index].status.is_active()
    }

    /// Removes a download from the list, where that is allowed.
    pub fn remove(&mut self, index: usize) -> (r: bool)
        ensures
            r == (index < old(self).jobs@.len() && !old(self).jobs@[index as int]@.status.active()),
            job_views(final(self).jobs@) == (if r {
                job_views(old(self).jobs@).remove(index as int)
            } else {
                job_views(old(self).jobs@)
            }),
            final(self).next_id == old(self).next_id,
    {
        if !self.may_remove(index) {
            return false;
        }
        let ghost before = job_views(self.jobs@);
        let _job = self.jobs.remove(index);
        assert(job_views(self.jobs@) =~= before.remove(index as int));
        true
    }
}

// --- after a restart ---------------------------------------------------------

/// A download that was recorded, with how much of it is there and whether it was
/// put in its place.
#[derive(Debug)]
pub struct Recorded {
    pub record: DownloadJobRecord,
    pub downloaded: u64,
    /// Whether the complete download could be put in its place.
    pub finalized: bool,
}

impl Recorded {
    /// The size of all blobs.
    pub open spec fn total(self) -> nat {
        expected_upto(self.record.remote.blobs@, self.record.remote.blobs@.len())
    }

    /// Whether the download needs nothing more.
    pub open spec fn complete(self) -> bool {
        self.total() > 0 && self.downloaded >= self.total() && self.finalized
    }

    /// The download under a number.
    pub open spec fn job(self, id: u64) -> JobView {
        JobView {
            id,
            model_id: self.record.model_id@,
            model: self.record.model@,
            downloaded_bytes: self.downloaded,
            total_bytes: self.total() as u64,
            status: if self.total() == 0 {
                StatusView::Failed("persisted download has no blob size metadata"@)
            } else {
                StatusView::Interrupted
            },
            source: SourceView::Hub(self.record.remote@),
            cancelled: false,
        }
    }
}

/// The downloads of the first `n` records that are not complete, numbered from
/// one, with the number that is next.
pub open spec fn restored(records: Seq<Recorded>, n: nat) -> (Seq<JobView>, u64)
    decreases n,
{
    if n == 0 {
        (Seq::<JobView>::empty(), 1)
    } else {
        let (jobs, id) = restored(records, (n - 1) as nat);
        if records[n - 1].complete() {
            (jobs, id)
        } else {
            (jobs.push(records[n - 1].job(id)), following(id))
        }
    }
}

/// The records of the first `n` that are complete, and so no longer needed.
pub open spec fn finished_records(records: Seq<Recorded>, n: nat) -> Seq<Seq<char>>
    decreases n,
{
    if n == 0 {
        Seq::<Seq<char>>::empty()
    } else {
        let rest = finished_records(records, (n - 1) as nat);
        if records[n - 1].complete() {
            rest.push(records[n - 1].record.model_id@)
        } else {
            rest
        }
    }
}

/// The downloads that were recorded before a restart, each stopped where it was,
/// with the records that are no longer needed.
pub fn restore_model_downloads(records: &Vec<Recorded>) -> (r: (DownloadManager, Vec<String>))
    requires
        forall|i: int| 0 <= i < records@.len() ==> (#[trigger] records@[i]).total() <= u64::MAX,
    ensures
        job_views(r.0.jobs@) == restored(records@, records@.len()).0,
        r.0.next_id == restored(records@, records@.len()).1,
        strs(r.1@) == finished_records(records@, records@.len()),
{
    let mut manager = DownloadManager { jobs: Vec::new(), next_id: 1 };
    let mut done: Vec<String> = Vec::new();
    let mut i: usize = 0;
    assert(job_views(manager.jobs@) =~= Seq::<JobView>::empty());
    assert(strs(done@) =~= finished_records(records@, 0));
    while i < records.len()
        invariant
            i <= records.len(),
            forall|j: int| 0 <= j < records@.len() ==> (#[trigger] records@[j]).total() <= u64::MAX,
            job_views(manager.jobs@) == restored(records@, i as nat).0,
            manager.next_id == restored(records@, i as nat).1,
            strs(done@) == finished_records(records@, i as nat),
        decreases records.len() - i,
    {
        let known = &records[i];
        let total: u64 = match expected_bytes(&known.record.remote.blobs) {
            Some(n) => n,
            None => 0,
        };
        assert(known.total() <= u64::MAX);
        assert(total == known.total());
        if total > 0 && known.downloaded >= total && known.finalized {
            let ghost before = strs(done@);
            done.push(known.record.model_id.clone());
            assert(strs(done@) =~= before.push(known.record.model_id@));
        } else {
            let ghost before = job_views(manager.jobs@);
            let id = manager.next_id();
            let status = if total == 0 {
                ModelDownloadStatus::Failed(
                    text::copy("persisted download has no blob size metadata"),
                )
            } else {
                ModelDownloadStatus::Interrupted
            };
            manager.jobs.push(
                ModelDownload {
                    id,
                    model_id: known.record.model_id.clone(),
                    model: known.record.model.clone(),
                    downloaded_bytes: known.downloaded,
                    total_bytes: total,
                    status,
                    source: DownloadSource::Hub(known.record.remote.clone()),
                    cancelled: false,
                },
            );
            assert(job_views(manager.jobs@) =~= before.push(records@[i as int].job(id)));
        }
        i += 1;
    }
    (manager, done)
}

// --- laws --------------------------------------------------------------------

/// Reports of an attempt that is no longer in the list change nothing.
pub proof fn law_stale_attempts_change_nothing(p: Progress, id: u64, downloaded: u64, total: u64, end: EndView)
    requires
        forall|i: int| 0 <= i < p.jobs.len() ==> (#[trigger] p.jobs[i]).id != id,
    ensures
        p.after(EventView::Progress(id, downloaded, total)) == p,
        p.after(EventView::Finished(id, end)) == p,
{
    lemma_no_job(p.jobs, id, 0);
}

proof fn lemma_no_job(jobs: Seq<JobView>, id: u64, from: int)
    requires
        0 <= from,
        forall|i: int| 0 <= i < jobs.len() ==> (#[trigger] jobs[i]).id != id,
    ensures
        job_at(jobs, id, from) is None,
    decreases jobs.len() - from,
{
    if from < jobs.len() {
        assert(jobs[from].id != id);
        lemma_no_job(jobs, id, from + 1);
    }
}

/// After a running download was asked to stop, late progress does not move it, and
/// a failure of its transfer is the stop that was asked for.
pub proof fn law_a_stopped_download_stays_stopped(job: JobView, downloaded: u64, total: u64, error: Seq<char>)
    requires
        job.status is Downloading,
    ensures
        job.stopped().progressed(downloaded, total) == job.stopped(),
        job.stopped().ended(EndView::Failed(error)).status is Cancelled,
        job.stopped().ended(EndView::Failed(error)).downloaded_bytes == job.downloaded_bytes,
{
}

/// Progress never claims more bytes than the total.
pub proof fn law_progress_is_bounded(job: JobView, downloaded: u64, total: u64)
    requires
        job.downloaded_bytes <= job.total_bytes,
    ensures
        job.progressed(downloaded, total).downloaded_bytes <= job.progressed(
            downloaded,
            total,
        ).total_bytes,
        0 <= percent_of(downloaded, total) <= 100,
{
    if total > 0 {
        assert(downloaded * 100 / total as int >= 0) by (nonlinear_arith)
            requires
                total > 0,
        ;
    }
}

/// Events keep every download in its place: none is lost and none is added.
pub proof fn law_events_keep_the_list(p: Progress, events: Seq<EventView>, n: nat)
    ensures
        p.after_all(events, n).jobs.len() == p.jobs.len(),
        forall|i: int|
            0 <= i < p.jobs.len() ==> (#[trigger] p.after_all(events, n).jobs[i]).model_id
                == p.jobs[i].model_id && p.after_all(events, n).jobs[i].id == p.jobs[i].id,
    decreases n,
{
    if n > 0 {
        law_events_keep_the_list(p, events, (n - 1) as nat);
        let before = p.after_all(events, (n - 1) as nat);
        match events[n - 1] {
            EventView::Progress(id, _, _) => lemma_job_exists(before.jobs, id, 0),
            EventView::Finished(id, _) => lemma_job_exists(before.jobs, id, 0),
        }
        assert forall|i: int| 0 <= i < p.jobs.len() implies (#[trigger] p.after_all(
            events,
            n,
        ).jobs[i]).model_id == p.jobs[i].model_id && p.after_all(events, n).jobs[i].id
            == p.jobs[i].id by {
            assert(before.jobs[i].model_id == p.jobs[i].model_id);
        }
    }
}

proof fn lemma_job_exists(jobs: Seq<JobView>, id: u64, from: int)
    requires
        0 <= from,
    ensures
        job_at(jobs, id, from) is Some ==> from <= job_at(jobs, id, from)->0 < jobs.len(),
    decreases jobs.len() - from,
{
    if from < jobs.len() {
        lemma_job_exists(jobs, id, from + 1);
    }
}

/// What was recorded comes back as a download that can be taken up again.
pub proof fn law_restored_downloads_can_go_on(records: Seq<Recorded>, n: nat, i: int)
    requires
        n <= records.len(),
        0 <= i < restored(records, n).0.len(),
    ensures
        restored(records, n).0[i].status.resumable(),
        !restored(records, n).0[i].status.active(),
    decreases n,
{
    if n > 0 {
        let (jobs, id) = restored(records, (n - 1) as nat);
        if i < jobs.len() {
            law_restored_downloads_can_go_on(records, (n - 1) as nat, i);
        }
    }
}

// --- what events come to -----------------------------------------------------

proof fn lemma_job_at(jobs: Seq<JobView>, i: int, from: int)
    requires
        0 <= from <= i < jobs.len(),
        forall|j: int| 0 <= j < i ==> (#[trigger] jobs[j]).id != jobs[i].id,
    ensures
        job_at(jobs, jobs[i].id, from) == Some(i),
    decreases i - from,
{
    if from < i {
        assert(jobs[from].id != jobs[i].id);
        lemma_job_at(jobs, i, from + 1);
    }
}

/// A report reaches the download of its attempt and no other: a running one has what
/// was reported.
pub proof fn law_reports_reach_their_download(p: Progress, i: int, downloaded: u64, total: u64)
    requires
        0 <= i < p.jobs.len(),
        forall|j: int| 0 <= j < i ==> (#[trigger] p.jobs[j]).id != p.jobs[i].id,
        p.jobs[i].status is Downloading,
        downloaded <= total,
    ensures
        ({
            let after = p.after(EventView::Progress(p.jobs[i].id, downloaded, total));
            &&& after.jobs[i].downloaded_bytes == downloaded
            &&& after.jobs[i].total_bytes == total
            &&& after.jobs[i].status is Downloading
            &&& forall|j: int| 0 <= j < p.jobs.len() && j != i ==> after.jobs[j] == p.jobs[j]
            &&& after.records == p.records && after.online == p.online
        }),
{
    lemma_job_at(p.jobs, i, 0);
}

/// A download that ends has its end: one that succeeds is whole and at its place, and
/// what belongs to it is read again; one that fails says why, unless it was to stop.
pub proof fn law_downloads_end(p: Progress, i: int, place: Seq<char>, error: Seq<char>)
    requires
        0 <= i < p.jobs.len(),
        forall|j: int| 0 <= j < i ==> (#[trigger] p.jobs[j]).id != p.jobs[i].id,
    ensures
        ({
            let id = p.jobs[i].id;
            let done = p.after(EventView::Finished(id, EndView::Downloaded(place)));
            let failed = p.after(EventView::Finished(id, EndView::Failed(error)));
            let stopped = p.after(EventView::Finished(id, EndView::Cancelled));
            &&& done.jobs[i].status == StatusView::Downloaded(place)
            &&& done.jobs[i].downloaded_bytes == p.jobs[i].total_bytes
            &&& p.jobs[i].source is Hub ==> done.online && done.records.contains(
                p.jobs[i].model_id,
            )
            &&& p.jobs[i].source is Backend ==> done.runtimes.contains(
                p.jobs[i].source->Backend_0.runtime,
            ) && done.records == p.records
            &&& failed.jobs[i].status == if p.jobs[i].cancelled {
                StatusView::Cancelled
            } else {
                StatusView::Failed(error)
            }
            &&& failed.jobs[i].downloaded_bytes == p.jobs[i].downloaded_bytes
            &&& failed.records == p.records && stopped.records == p.records
            &&& stopped.jobs[i].status is Cancelled
        }),
{
    lemma_job_at(p.jobs, i, 0);
    let done = p.after(EventView::Finished(p.jobs[i].id, EndView::Downloaded(place)));
    match p.jobs[i].source {
        SourceView::Hub(_) => {
            assert(done.records[p.records.len() as int] == p.jobs[i].model_id);
        },
        SourceView::Backend(t) => {
            if !p.runtimes.contains(t.runtime) {
                assert(done.runtimes[p.runtimes.len() as int] == t.runtime);
            }
        },
    }
}

/// A download that is taken up again is the same one in a new attempt: it keeps what is
/// there of it, and runs.
pub proof fn law_resuming_keeps_what_is_there(job: JobView, id: u64)
    ensures
        job.again(id).status is Downloading,
        job.again(id).id == id,
        !job.again(id).cancelled,
        job.again(id).downloaded_bytes == job.downloaded_bytes,
        job.again(id).total_bytes == job.total_bytes,
        job.again(id).model_id == job.model_id && job.again(id).source == job.source,
{
}

/// The shown part is the whole number of per cent that is there: so many hundredths are
/// there, and one more is not.
pub proof fn law_percent_is_the_part(downloaded: u64, total: u64)
    requires
        total > 0,
        downloaded <= total,
    ensures
        percent_of(downloaded, total) * total <= downloaded * 100 < (percent_of(downloaded, total)
            + 1) * total,
        percent_of(total, total) == 100,
{
    let n = downloaded * 100;
    let t = total as int;
    vstd::arithmetic::div_mod::lemma_fundamental_div_mod(n, t);
    vstd::arithmetic::div_mod::lemma_mod_bound(n, t);
    assert((n / t) * t <= n < (n / t + 1) * t) by (nonlinear_arith)
        requires
            n == t * (n / t) + n % t,
            0 <= n % t < t,
    ;
    assert(n / t <= 100) by (nonlinear_arith)
        requires
            n == downloaded * 100,
            downloaded <= t,
            t > 0,
            (n / t) * t <= n,
    ;
    assert((total * 100) / t == 100) by (nonlinear_arith)
        requires
            t == total,
            t > 0,
    ;
}

/// Asking for an artifact starts its download where nothing stands against it: it is
/// not there yet, its metadata is known, and it is open or there is a token. One that
/// is in the list is shown, or taken up again where it stopped.
pub proof fn law_asking_starts_a_download(jobs: Seq<JobView>, m: ModelView, total: u64, downloaded: u64, token: bool)
    requires
        m.flm is None,
        m.remote is Some,
        m.remote->0.file is Some,
        m.remote->0.blobs.len() > 0,
        total > 0,
    ensures
        ({
            let start = download_of(jobs, m, total, downloaded, token);
            let open = !m.remote->0.gated || token;
            let listed = job_of(jobs, m.id, 0);
            &&& downloaded >= total ==> start is Nothing
            &&& downloaded < total && !open ==> start is Refused
            &&& downloaded < total && open && listed is None ==> start == StartView::Begin(
                m.remote->0.repo + "/"@ + m.remote->0.file->0,
                total,
            )
            &&& downloaded < total && open && listed is Some ==> {
                let status = jobs[listed->0].status;
                if status is Cancelled || status is Interrupted || status is Failed {
                    start == StartView::Resume(listed->0)
                } else {
                    start == StartView::Reveal(listed->0)
                }
            }
        }),
{
}

/// A download that was recorded and is not complete is in the list after a restart,
/// interrupted where it was.
pub proof fn law_recorded_downloads_come_back(records: Seq<Recorded>, n: nat, i: int)
    requires
        0 <= i < n <= records.len(),
        !(records[i].total() > 0 && records[i].downloaded >= records[i].total()
            && records[i].finalized),
    ensures
        exists|k: int|
            0 <= k < restored(records, n).0.len() && recalls(
                #[trigger] restored(records, n).0[k],
                records[i],
            ),
    decreases n,
{
    let rest = restored(records, (n - 1) as nat).0;
    let all = restored(records, n).0;
    if i == n - 1 {
        assert(recalls(all[all.len() - 1], records[i]));
    } else {
        law_recorded_downloads_come_back(records, (n - 1) as nat, i);
        let k = choose|k: int| 0 <= k < rest.len() && recalls(#[trigger] rest[k], records[i]);
        assert(all[k] == rest[k]);
    }
}

/// Whether a download is what a record says.
pub open spec fn recalls(job: JobView, r: Recorded) -> bool {
    &&& job.model_id == r.record.model_id@
    &&& job.model == r.record.model@
    &&& job.downloaded_bytes == r.downloaded
    &&& job.source == SourceView::Hub(r.record.remote@)
    &&& r.total() > 0 ==> job.status is Interrupted
}

proof fn lemma_blob_targets(hub: Seq<char>, repo: Seq<char>, blobs: Seq<BlobView>, n: nat, i: int)
    requires
        n <= blobs.len(),
        0 <= i < n,
        blob_places(hub, repo, blobs[i].oid) is Some,
    ensures
        blob_targets(hub, repo, blobs, n).contains((blob_places(hub, repo, blobs[i].oid)->0).0),
        blob_targets(hub, repo, blobs, n).contains((blob_places(hub, repo, blobs[i].oid)->0).1),
    decreases n,
{
    let m = (n - 1) as nat;
    let rest = blob_targets(hub, repo, blobs, m);
    let all = blob_targets(hub, repo, blobs, n);
    let places = blob_places(hub, repo, blobs[i].oid)->0;
    if i == m {
        assert(all[all.len() - 2] == places.0);
        assert(all[all.len() - 1] == places.1);
    } else {
        lemma_blob_targets(hub, repo, blobs, m, i);
        let a = choose|a: int| 0 <= a < rest.len() && rest[a] == places.0;
        let b = choose|b: int| 0 <= b < rest.len() && rest[b] == places.1;
        assert(all[a] == places.0 && all[b] == places.1);
    }
}

/// A download writes to the places of its files in the cache, complete and not, or where
/// its runtime says.
pub proof fn law_downloads_write_to_their_places(r: RemoteView, t: TransferView, hub: Seq<char>, i: int)
    requires
        0 <= i < r.blobs.len(),
        blob_places(hub, r.repo, r.blobs[i].oid) is Some,
    ensures
        ({
            let places = blob_places(hub, r.repo, r.blobs[i].oid)->0;
            let targets = source_targets(SourceView::Hub(r), hub);
            targets.contains(places.0) && targets.contains(places.1)
        }),
        source_targets(SourceView::Backend(t), hub) == t.targets,
{
    lemma_blob_targets(hub, r.repo, r.blobs, r.blobs.len(), i);
}

/// The records of downloads that are complete are the ones to drop.
pub proof fn law_finished_downloads_are_dropped(records: Seq<Recorded>, n: nat, i: int)
    requires
        n <= records.len(),
        0 <= i < n,
        records[i].total() > 0,
        records[i].downloaded >= records[i].total(),
        records[i].finalized,
    ensures
        finished_records(records, n).contains(records[i].record.model_id@),
    decreases n,
{
    let m = (n - 1) as nat;
    let rest = finished_records(records, m);
    let all = finished_records(records, n);
    let id = records[i].record.model_id@;
    if i == m {
        assert(all.last() == id);
    } else {
        law_finished_downloads_are_dropped(records, m, i);
        let k = choose|k: int| 0 <= k < rest.len() && rest[k] == id;
        assert(all[k] == id);
    }
}

/// A record that is not complete is not dropped.
pub proof fn law_unfinished_downloads_are_kept(records: Seq<Recorded>, n: nat)
    requires
        n <= records.len(),
        forall|i: int|
            0 <= i < n ==> (#[trigger] records[i]).downloaded < records[i].total()
                || !records[i].finalized,
    ensures
        finished_records(records, n).len() == 0,
    decreases n,
{
    if n > 0 {
        law_unfinished_downloads_are_kept(records, (n - 1) as nat);
    }
}

} // verus!
