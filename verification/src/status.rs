//! The status-event model: one progress update for one image's pull.

use vstd::prelude::*;

use crate::text::contains_str;
use crate::text::has_substring;

verus! {

/// Structured progress of a layer download: current and total byte counts,
/// where the engine reported them.
#[derive(Debug, Clone, Copy, PartialEq, Eq)]
pub struct Progress {
    pub current: Option<u64>,
    pub total: Option<u64>,
}

/// One reply chunk of an image-pull stream, as the engine reports it. Only
/// `PullStatus` chunks are expected while pulling; the other kinds belong to
/// build or push streams and are a protocol error inside a pull.
#[derive(Debug, Clone)]
pub enum PullChunk {
    Update { stream: String },
    Error { message: String },
    Digest { digest: String },
    PullStatus {
        status: String,
        id: Option<String>,
        progress: Option<String>,
        progress_detail: Option<Progress>,
    },
}

/// Why a pull worker gave up on its stream.
#[derive(Debug, Clone, Copy, PartialEq, Eq, Structural)]
pub enum PullError {
    /// The engine sent a chunk kind that cannot occur in a pull stream.
    UnexpectedChunk,
}

impl PullError {
    /// A diagnostic line for this error.
    pub fn describe(&self) -> (r: String)
        ensures
            r@ == "expected pullstatus"@,
    {
        "expected pullstatus".to_owned()
    }
}

/// One reported state of an in-flight or completed pull.
#[derive(Debug, Clone)]
pub struct Status {
    pub image: String,
    pub status: String,
    pub id: Option<String>,
    pub progress: Option<String>,
    pub progress_detail: Option<Progress>,
    pub did_download: bool,
}

/// The mathematical value of a status event.
pub struct StatusModel {
    pub image: Seq<char>,
    pub status: Seq<char>,
    pub id: Option<Seq<char>>,
    pub progress: Option<Seq<char>>,
    pub progress_detail: Option<Progress>,
    pub did_download: bool,
}

impl View for Status {
    type V = StatusModel;

    open spec fn view(&self) -> StatusModel {
        StatusModel {
            image: self.image@,
            status: self.status@,
            id: self.id.deep_view(),
            progress: self.progress.deep_view(),
            progress_detail: self.progress_detail,
            did_download: self.did_download,
        }
    }
}

impl DeepView for Status {
    type V = StatusModel;

    open spec fn deep_view(&self) -> StatusModel {
        self.view()
    }
}

/// The phrase in a reported status line that signals that a newer image was
/// actually fetched rather than found locally.
pub open spec fn marker() -> Seq<char> {
    "Downloaded newer image"@
}

/// Whether a status line signals a fresh download.
pub open spec fn status_marks_download(status: Seq<char>) -> bool {
    has_substring(status, marker())
}

/// Whether this status line signals that a newer image was downloaded.
pub fn did_download(status: &str) -> (r: bool)
    ensures
        r == status_marks_download(status@),
{
    contains_str(status, "Downloaded newer image")
}

/// A copy of an optional string, equal to the original.
fn clone_opt_string(o: &Option<String>) -> (r: Option<String>)
    ensures
        r == *o,
{
    match o {
        Some(s) => Some(s.clone()),
        None => None,
    }
}

/// A copy of a chunk, equal to the original.
pub fn clone_chunk(c: &PullChunk) -> (r: PullChunk)
    ensures
        r == *c,
{
    match c {
        PullChunk::Update { stream } => PullChunk::Update { stream: stream.clone() },
        PullChunk::Error { message } => PullChunk::Error { message: message.clone() },
        PullChunk::Digest { digest } => PullChunk::Digest { digest: digest.clone() },
        PullChunk::PullStatus { status, id, progress, progress_detail } => PullChunk::PullStatus {
            status: status.clone(),
            id: clone_opt_string(id),
            progress: clone_opt_string(progress),
            progress_detail: *progress_detail,
        },
    }
}

/// Whether a chunk is a pull progress update.
pub open spec fn is_pull_status(chunk: PullChunk) -> bool {
    chunk matches PullChunk::PullStatus { .. }
}

/// The event a pull worker forwards for a progress chunk of `image`'s stream:
/// the chunk's own fields, and a download flag that is only set on the
/// terminal event.
pub open spec fn chunk_event(image: Seq<char>, chunk: PullChunk) -> StatusModel
    recommends
        is_pull_status(chunk),
{
    match chunk {
        PullChunk::PullStatus { status, id, progress, progress_detail } => StatusModel {
            image,
            status: status@,
            id: id.deep_view(),
            progress: progress.deep_view(),
            progress_detail,
            did_download: false,
        },
        _ => arbitrary(),
    }
}

/// The synthetic terminal event that closes `image`'s stream.
pub open spec fn finished_event(image: Seq<char>, did_download: bool) -> StatusModel {
    StatusModel {
        image,
        status: "Finished"@,
        id: None,
        progress: None,
        progress_detail: None,
        did_download,
    }
}

impl Status {
    /// Interprets one engine chunk as a progress event for `image`; any chunk
    /// kind other than a pull status is a protocol error.
    pub fn from_chunk(image: String, chunk: PullChunk) -> (r: Result<Status, PullError>)
        ensures
            is_pull_status(chunk) ==> (r matches Ok(s) && s@ == chunk_event(image@, chunk)),
            !is_pull_status(chunk) ==> r == Err::<Status, PullError>(PullError::UnexpectedChunk),
    {
        match chunk {
            PullChunk::Update { .. } => Err(PullError::UnexpectedChunk),
            PullChunk::Error { .. } => Err(PullError::UnexpectedChunk),
            PullChunk::Digest { .. } => Err(PullError::UnexpectedChunk),
            PullChunk::PullStatus { status, id, progress, progress_detail } => Ok(
                Status { image, status, id, progress, progress_detail, did_download: false },
            ),
        }
    }

    /// The terminal event for `image`, carrying the sticky download flag.
    pub fn finished(image: String, did_download: bool) -> (s: Status)
        ensures
            s@ == finished_event(image@, did_download),
    {
        Status {
            image,
            status: "Finished".to_owned(),
            id: None,
            progress: None,
            progress_detail: None,
            did_download,
        }
    }
}

} // verus!
