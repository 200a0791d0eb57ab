//! Downloading an artifact into the cache, blob by blob.

use vstd::prelude::*;
use crate::discovery::online::cache::{expected_bytes, expected_upto, BlobSizes};
use crate::domain::{RemoteBlob, RemoteModel};
use crate::text;
use crate::text::opt;

verus! {

/// The layout of download records.
pub const DOWNLOAD_SCHEMA: u8 = 1;

/// What is kept of a download so that it can go on after a restart.
#[derive(Debug)]
pub struct DownloadJobRecord {
    pub schema: u8,
    pub model_id: String,
    pub model: String,
    pub remote: RemoteModel,
}

impl DownloadJobRecord {
    pub fn new(model_id: String, model: String, remote: RemoteModel) -> (r: Self)
        ensures
            r.schema == DOWNLOAD_SCHEMA,
            r.model_id@ == model_id@,
            r.model@ == model@,
            r.remote@ == remote@,
    {
        DownloadJobRecord { schema: DOWNLOAD_SCHEMA, model_id, model, remote }
    }

    /// Whether the record was written in the layout that is read here.
    pub fn is_current(&self) -> (r: bool)
        ensures
            r == (self.schema == DOWNLOAD_SCHEMA),
    {
        self.schema == DOWNLOAD_SCHEMA
    }
}

/// How a download ended that did not fail.
#[derive(Debug)]
pub enum DownloadResult {
    Downloaded(String),
    Cancelled,
}

/// Whether one of the blobs does not say which file it is.
pub open spec fn has_nameless(blobs: Seq<RemoteBlob>) -> bool {
    exists|i: int| 0 <= i < blobs.len() && (#[trigger] blobs[i]).file@.len() == 0
}

/// Why an artifact cannot be downloaded, from what the catalog knows of it.
pub open spec fn download_obstacle(remote: RemoteModel) -> Option<Seq<char>> {
    if remote.file is None {
        Some("Hub artifact has no filename"@)
    } else if remote.blobs@.len() == 0 {
        Some("Hub artifact has no downloadable blob metadata; refresh its repository"@)
    } else if has_nameless(remote.blobs@) {
        Some("Hub artifact has incomplete shard metadata; refresh its repository"@)
    } else if expected_upto(remote.blobs@, remote.blobs@.len()) == 0 {
        Some("Hub artifact reports an unknown download size"@)
    } else {
        None
    }
}

fn nameless(blobs: &Vec<RemoteBlob>) -> (r: bool)
    ensures
        r == has_nameless(blobs@),
{
    let mut i: usize = 0;
    while i < blobs.len()
        invariant
            i <= blobs.len(),
            forall|j: int| 0 <= j < i ==> (#[trigger] blobs@[j]).file@.len() > 0,
        decreases blobs.len() - i,
    {
        if blobs[i].file.as_str().is_empty() {
            return true;
        }
        i += 1;
    }
    false
}

/// The size of an artifact's download, or why it cannot be downloaded.
pub fn download_size(remote: &RemoteModel) -> (r: Result<u64, String>)
    requires
        expected_upto(remote.blobs@, remote.blobs@.len()) <= u64::MAX,
    ensures
        match r {
            Ok(n) => download_obstacle(*remote) is None && n == expected_upto(
                remote.blobs@,
                remote.blobs@.len(),
            ),
            Err(e) => download_obstacle(*remote) == Some(e@),
        },
{
    if remote.file.is_none() {
        return Err(text::copy("Hub artifact has no filename"));
    }
    if remote.blobs.len() == 0 {
        return Err(
            text::copy("Hub artifact has no downloadable blob metadata; refresh its repository"),
        );
    }
    if nameless(&remote.blobs) {
        return Err(
            text::copy("Hub artifact has incomplete shard metadata; refresh its repository"),
        );
    }
    let total: u64 = match expected_bytes(&remote.blobs) {
        Some(n) => n,
        None => 0,
    };
    if total == 0 {
        return Err(text::copy("Hub artifact reports an unknown download size"));
    }
    Ok(total)
}

/// What to do next in a download.
#[derive(Debug, Clone, Copy, PartialEq, Eq, Structural)]
pub enum BlobStep {
    /// The user cancelled.
    Stop,
    /// The cache has no place for the blob.
    NoPlace,
    /// The blob is complete: link the file to it.
    Link,
    /// The partial file is complete: rename it, then link.
    Promote,
    /// Fetch the blob into its partial file, then rename and link.
    Fetch,
}

/// What to do with a blob of the expected size, given what the cache holds of it
/// (nothing where it has no place in the cache).
pub open spec fn blob_step(cancelled: bool, expected: u64, sizes: Option<BlobSizes>) -> BlobStep {
    if cancelled {
        BlobStep::Stop
    } else {
        match sizes {
            None => BlobStep::NoPlace,
            Some(s) => if s.complete == Some(expected) {
                BlobStep::Link
            } else if s.incomplete == Some(expected) {
                BlobStep::Promote
            } else {
                BlobStep::Fetch
            },
        }
    }
}

fn is_size(size: Option<u64>, expected: u64) -> (r: bool)
    ensures
        r == (size == Some(expected)),
{
    match size {
        Some(n) => n == expected,
        None => false,
    }
}

/// What to do with a blob in a download.
pub fn next_blob_step(cancelled: bool, expected: u64, sizes: Option<BlobSizes>) -> (r: BlobStep)
    ensures
        r == blob_step(cancelled, expected, sizes),
{
    if cancelled {
        return BlobStep::Stop;
    }
    match sizes {
        None => BlobStep::NoPlace,
        Some(s) => if is_size(s.complete, expected) {
            BlobStep::Link
        } else if is_size(s.incomplete, expected) {
            BlobStep::Promote
        } else {
            BlobStep::Fetch
        },
    }
}

/// The last blob decides nothing of the others: a download that finds every
/// blob complete fetches none.
pub proof fn law_complete_blobs_are_not_fetched(expected: u64, sizes: BlobSizes)
    requires
        sizes.complete == Some(expected) || sizes.incomplete == Some(expected),
    ensures
        !(blob_step(false, expected, Some(sizes)) is Fetch),
{
}

/// Why a download cannot be finished without the network, from what the catalog
/// knows of the artifact.
pub fn finalize_obstacle(remote: &RemoteModel) -> (r: Option<String>)
    ensures
        opt(r) == if remote.file is None {
            Some("Hub artifact has no filename"@)
        } else if remote.blobs@.len() == 0 {
            Some("Hub artifact has no blob metadata"@)
        } else {
            None
        },
{
    if remote.file.is_none() {
        Some(text::copy("Hub artifact has no filename"))
    } else if remote.blobs.len() == 0 {
        Some(text::copy("Hub artifact has no blob metadata"))
    } else {
        None
    }
}

/// What to do with a blob when a download is finished without the network: link
/// it, or rename its partial file first, or say why it cannot be done.
pub fn finalize_step(expected: u64, sizes: Option<BlobSizes>) -> (r: Result<BlobStep, String>)
    ensures
        match (blob_step(false, expected, sizes), r) {
            (BlobStep::Link, Ok(s)) => s == BlobStep::Link,
            (BlobStep::Promote, Ok(s)) => s == BlobStep::Promote,
            (BlobStep::NoPlace, Err(e)) => e@ == "Hugging Face cache directory is unavailable"@,
            (BlobStep::Fetch, Err(e)) => e@ == "download is still incomplete"@,
            _ => false,
        },
{
    match next_blob_step(false, expected, sizes) {
        BlobStep::Link => Ok(BlobStep::Link),
        BlobStep::Promote => Ok(BlobStep::Promote),
        BlobStep::NoPlace => Err(text::copy("Hugging Face cache directory is unavailable")),
        _ => Err(text::copy("download is still incomplete")),
    }
}

/// A blob is linked where it is complete, renamed first where only its partial file is,
/// and fetched in every other case; nothing is done once the user has cancelled.
pub proof fn law_blobs_are_fetched_where_they_lack(expected: u64, sizes: BlobSizes)
    ensures
        (blob_step(false, expected, Some(sizes)) is Link) == (sizes.complete == Some(expected)),
        (blob_step(false, expected, Some(sizes)) is Promote) == (sizes.complete != Some(expected)
            && sizes.incomplete == Some(expected)),
        (blob_step(false, expected, Some(sizes)) is Fetch) == (sizes.complete != Some(expected)
            && sizes.incomplete != Some(expected)),
        blob_step(true, expected, Some(sizes)) is Stop,
{
}

/// An artifact can be downloaded exactly where its file, the files of all its blobs and
/// some size are known.
pub proof fn law_known_artifacts_can_be_downloaded(remote: RemoteModel)
    ensures
        download_obstacle(remote) is None <==> {
            &&& remote.file is Some
            &&& remote.blobs@.len() > 0
            &&& forall|i: int|
                0 <= i < remote.blobs@.len() ==> (#[trigger] remote.blobs@[i]).file@.len() > 0
            &&& expected_upto(remote.blobs@, remote.blobs@.len()) > 0
        },
{
}

} // verus!
