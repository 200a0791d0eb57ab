//! The list of jobs: the servers, then the downloads, under one selection.

use vstd::prelude::*;
use crate::app::downloads::{job_views, DownloadManager, ModelDownload};
use crate::app::editor::{Message, MessageView};
use crate::app::panes::ListState;
use crate::text;

verus! {

/// What is selected in the list.
#[derive(Debug, Clone, Copy, PartialEq, Eq, Structural)]
pub enum Job {
    Nothing,
    Server(usize),
    Download(usize),
}

/// What a selection is, in a list of so many servers and downloads.
pub open spec fn job_at(cursor: Option<usize>, servers: int, downloads: int) -> Job {
    match cursor {
        None => Job::Nothing,
        Some(i) => if i < servers {
            Job::Server(i)
        } else if i - servers < downloads {
            Job::Download((i - servers) as usize)
        } else {
            Job::Nothing
        },
    }
}

/// What is selected in a list of so many servers and downloads.
pub fn selected_job(selection: &ListState, servers: usize, downloads: usize) -> (r: Job)
    ensures
        r == job_at(selection.cursor, servers as int, downloads as int),
{
    match selection.selected() {
        None => Job::Nothing,
        Some(i) => if i < servers {
            Job::Server(i)
        } else if i - servers < downloads {
            Job::Download(i - servers)
        } else {
            Job::Nothing
        },
    }
}

/// How many jobs there are, where they can be counted.
pub fn async_job_count(servers: usize, downloads: usize) -> (r: usize)
    requires
        servers + downloads <= usize::MAX,
    ensures
        r == servers + downloads,
{
    servers + downloads
}

/// The place of a download in the list.
pub fn download_row(servers: usize, index: usize) -> (r: usize)
    requires
        servers + index <= usize::MAX,
    ensures
        r == servers + index,
        forall|downloads: int|
            index < downloads ==> #[trigger] job_at(Some(r), servers as int, downloads)
                == Job::Download(index),
{
    servers + index
}

pub const CANNOT_REMOVE: &'static str = "Cannot remove";

/// Why a download stays in the list, if it does: it transfers, or its record could
/// not be removed.
pub open spec fn removal_refusal(active: bool, deleted: Result<(), String>) -> Option<MessageView> {
    if active {
        Some(
            MessageView {
                title: CANNOT_REMOVE@,
                lines: seq!["Cancel the download before removing it."@],
            },
        )
    } else {
        match deleted {
            Err(e) => Some(
                MessageView {
                    title: CANNOT_REMOVE@,
                    lines: seq!["Cannot remove persisted download state: "@ + e@],
                },
            ),
            Ok(_) => None,
        }
    }
}

/// The view of an optional message.
pub open spec fn opt_message(o: Option<Message>) -> Option<MessageView> {
    match o {
        Some(m) => Some(m@),
        None => None,
    }
}

impl DownloadManager {
    /// The selected download, in a list that has so many servers before it.
    pub fn selected_model_download(&self, selection: &ListState, servers: usize) -> (r: Option<&ModelDownload>)
        ensures
            match job_at(selection.cursor, servers as int, self.jobs@.len() as int) {
                Job::Download(i) => r is Some && *r->0 == self.jobs@[i as int],
                _ => r is None,
            },
    {
        match selected_job(selection, servers, self.jobs.len()) {
            Job::Download(i) => Some(&self.jobs[i]),
            _ => None,
        }
    }

    /// Removes a download from the list, or says why it stays. `deleted` is what
    /// came of removing its record, which is tried only where the download does not
    /// transfer.
    pub fn remove_async_job(&mut self, index: usize, deleted: &Result<(), String>) -> (r: Option<Message>)
        requires
            index < old(self).jobs@.len(),
        ensures
            ({
                let jobs = job_views(old(self).jobs@);
                let refusal = removal_refusal(jobs[index as int].status.active(), *deleted);
                &&& opt_message(r) == refusal
                &&& job_views(final(self).jobs@) == (if refusal is Some {
                    jobs
                } else {
                    jobs.remove(index as int)
                })
                &&& final(self).next_id == old(self).next_id
            }),
    {
        assert(job_views(self.jobs@)[index as int] == self.jobs@[index as int]@);
        if !self.may_remove(index) {
            return Some(Message::line(CANNOT_REMOVE, "Cancel the download before removing it."));
        }
        match deleted {
            Err(e) => {
                let line = text::cat("Cannot remove persisted download state: ", e.as_str());
                Some(Message::line(CANNOT_REMOVE, line.as_str()))
            },
            Ok(_) => {
                let _removed = self.remove(index);
                None
            },
        }
    }
}

/// What is said where a server cannot be removed from the list.
pub fn live_server_stays() -> (r: Message)
    ensures
        r@ == (MessageView {
            title: CANNOT_REMOVE@,
            lines: seq!["Only Stopped or Crashed sessions can be removed; stop it first."@],
        }),
{
    Message::line(
        CANNOT_REMOVE,
        "Only Stopped or Crashed sessions can be removed; stop it first.",
    )
}

/// What is said where the record of a download could not be kept.
pub fn record_not_kept(title: &str, error: &str) -> (r: Message)
    ensures
        r@ == (MessageView {
            title: title@,
            lines: seq!["Cannot persist download state: "@ + error@],
        }),
{
    let line = text::cat("Cannot persist download state: ", error);
    Message::line(title, line.as_str())
}

/// What is said of a server that was started.
pub fn launched(name: &str, status: &str, endpoint: &str) -> (r: Message)
    ensures
        r@ == (MessageView {
            title: "Launched"@,
            lines: seq![name@, status@ + " — "@ + endpoint@],
        }),
{
    let line = text::cat3(status, " — ", endpoint);
    Message::two_lines("Launched", name, line.as_str())
}

// --- laws --------------------------------------------------------------------

/// Every row of the list is exactly one job, and every job has a row.
pub proof fn law_rows_are_jobs(servers: int, downloads: int, row: usize)
    requires
        0 <= servers <= usize::MAX,
        0 <= downloads <= usize::MAX,
    ensures
        row < servers + downloads <==> !(job_at(Some(row), servers, downloads) is Nothing),
        job_at(Some(row), servers, downloads) is Server <==> row < servers,
{
}

/// The servers come first in the list and the downloads behind them, each in its order.
pub proof fn law_servers_come_before_downloads(servers: int, downloads: int, i: usize)
    requires
        0 <= servers,
        0 <= downloads,
        servers + downloads <= usize::MAX,
    ensures
        i < servers ==> job_at(Some(i), servers, downloads) == Job::Server(i),
        i < downloads ==> job_at(Some((servers + i) as usize), servers, downloads)
            == Job::Download(i),
        job_at(None, servers, downloads) is Nothing,
{
}

/// A download is removed where it does not transfer and its record is gone, and else the
/// list says why it stays.
pub proof fn law_running_downloads_stay(deleted: Result<(), String>)
    ensures
        removal_refusal(true, deleted) is Some,
        removal_refusal(false, deleted) is Some <==> deleted is Err,
{
}

} // verus!
