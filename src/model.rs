use vstd::prelude::*;

use crate::text::owned;



verus! {

/// File name of the acoustic model under the storage base.
pub const MODEL_FILENAME: &'static str = "ggml-small.bin";

/// Where the model is fetched from when no copy is at hand.
pub const MODEL_URL: &'static str =
    "https://huggingface.co/ggerganov/whisper.cpp/resolve/main/ggml-small.bin?download=1";

/// Event channel for download progress.
pub const MODEL_PROGRESS_EVENT: &'static str = "speech://model-progress";

/// Event channel for model status changes.
pub const MODEL_STATUS_EVENT: &'static str = "speech://model-status";

/// The outcome of provisioning the model.
#[derive(Debug)]
pub struct ModelStatusResponse {
    pub ready: bool,
    pub downloaded: bool,
    pub model_path: Option<String>,
}

impl ModelStatusResponse {
    /// The model is in place at `path`; `downloaded` tells whether it was
    /// fetched just now.
    pub fn ready(path: &str, downloaded: bool) -> (r: Self)
        ensures
            r.ready,
            r.downloaded == downloaded,
            r.model_path is Some && r.model_path->Some_0@ == path@,
    {
        ModelStatusResponse { ready: true, downloaded, model_path: Some(owned(path)) }
    }
}

/// Bytes received so far, and the announced total where known.
#[derive(Debug, Clone, Copy, PartialEq, Eq, Structural)]
pub struct ModelDownloadProgress {
    pub downloaded_bytes: u64,
    pub total_bytes: Option<u64>,
}

#[derive(Debug, Clone, Copy, PartialEq, Eq, Structural)]
pub enum ModelStatusKind {
    Exists,
    Downloading,
    Finished,
    Failed,
}

/// A status change reported to observers.
#[derive(Debug)]
pub struct ModelStatusEvent {
    pub status: ModelStatusKind,
    pub model_path: Option<String>,
    pub message: Option<String>,
}

/// The status event and the reply for each way provisioning can end.
pub open spec fn status_event_is(
    e: ModelStatusEvent,
    status: ModelStatusKind,
    path: Seq<char>,
    message: Option<Seq<char>>,
) -> bool {
    &&& e.status == status
    &&& e.model_path is Some && e.model_path->Some_0@ == path
    &&& match message {
        Some(m) => e.message is Some && e.message->Some_0@ == m,
        None => e.message is None,
    }
}

fn status_event(status: ModelStatusKind, path: &str, message: Option<String>) -> (r:
    ModelStatusEvent)
    ensures
        r.status == status,
        r.model_path is Some && r.model_path->Some_0@ == path@,
        r.message == message,
{
    ModelStatusEvent { status, model_path: Some(owned(path)), message }
}

/// The model file is already there: report it, nothing was downloaded.
fn model_already_present(path: &str) -> (r: (ModelStatusEvent, ModelStatusResponse))
    ensures
        status_event_is(r.0, ModelStatusKind::Exists, path@, None),
        r.1.ready && !r.1.downloaded && r.1.model_path is Some && r.1.model_path->Some_0@ == path@,
{
    (status_event(ModelStatusKind::Exists, path, None), ModelStatusResponse::ready(path, false))
}

/// A bundled copy was put in place: finished, not downloaded.
fn model_copied_from_bundle(path: &str) -> (r: (ModelStatusEvent, ModelStatusResponse))
    ensures
        status_event_is(r.0, ModelStatusKind::Finished, path@, Some("使用内置模型"@)),
        r.1.ready && !r.1.downloaded && r.1.model_path is Some && r.1.model_path->Some_0@ == path@,
{
    (
        status_event(ModelStatusKind::Finished, path, Some(String::from_str("使用内置模型"))),
        ModelStatusResponse::ready(path, false),
    )
}

/// A download is about to start.
fn model_download_started(path: &str) -> (r: ModelStatusEvent)
    ensures
        status_event_is(r, ModelStatusKind::Downloading, path@, None),
{
    status_event(ModelStatusKind::Downloading, path, None)
}

/// The download completed: finished, freshly downloaded.
fn model_download_finished(path: &str) -> (r: (ModelStatusEvent, ModelStatusResponse))
    ensures
        status_event_is(r.0, ModelStatusKind::Finished, path@, None),
        r.1.ready && r.1.downloaded && r.1.model_path is Some && r.1.model_path->Some_0@ == path@,
{
    (status_event(ModelStatusKind::Finished, path, None), ModelStatusResponse::ready(path, true))
}

/// The download failed with the given message.
fn model_download_failed(path: &str, message: String) -> (r: ModelStatusEvent)
    ensures
        status_event_is(r, ModelStatusKind::Failed, path@, Some(message@)),
{
    status_event(ModelStatusKind::Failed, path, Some(message))
}

/// The first candidate that exists, in search order.
pub fn first_present(exists: &Vec<bool>) -> (r: Option<usize>)
    ensures
        match r {
            Some(i) => i < exists@.len() && exists@[i as int] && forall|j: int|
                0 <= j < i ==> !exists@[j],
            None => forall|j: int| 0 <= j < exists@.len() ==> !exists@[j],
        },
{
    let mut i: usize = 0;
    while i < exists.len()
        invariant
            i <= exists@.len(),
            forall|j: int| 0 <= j < i ==> !exists@[j],
        decreases exists@.len() - i,
    {
        if exists[i] {
            return Some(i);
        }
        i = i + 1;
    }
    None
}

/// Running count of a streamed download.
#[derive(Debug, Clone, Copy, PartialEq, Eq, Structural)]
pub struct DownloadTracker {
    pub downloaded: u64,
    pub total: Option<u64>,
}

impl DownloadTracker {
    /// Nothing received yet; `total` is the announced content length.
    pub fn new(total: Option<u64>) -> (r: Self)
        ensures
            r.downloaded == 0,
            r.total == total,
    {
        DownloadTracker { downloaded: 0, total }
    }

    /// Counts a received chunk and reports progress so far.
    pub fn on_chunk(&mut self, len: u64) -> (r: ModelDownloadProgress)
        requires
            old(self).downloaded + len <= u64::MAX,
        ensures
            final(self).downloaded == old(self).downloaded + len,
            final(self).total == old(self).total,
            r == (ModelDownloadProgress {
                downloaded_bytes: final(self).downloaded,
                total_bytes: old(self).total,
            }),
    {
        self.downloaded = self.downloaded + len;
        ModelDownloadProgress { downloaded_bytes: self.downloaded, total_bytes: self.total }
    }
}

/// Where a bundled copy of the model may be found, relative to a search
/// directory.
pub const BUNDLED_MODEL_RELATIVE_PATH: &'static str = "models/ggml-small.bin";

/// The places searched for a bundled model, in order: under the resource
/// directory itself, its `resources`/`Resources` subdirectories and their
/// siblings one level up; then under the build directory's `resources`;
/// then the working directory's `resources` and `src-tauri/resources`.
pub open spec fn bundled_locations(
    resource_dir: Option<Seq<char>>,
    build_dir: Option<Seq<char>>,
) -> Seq<Seq<char>> {
    let rel = "models/ggml-small.bin"@;
    let under_resources = match resource_dir {
        Some(d) => seq![
            d + "/"@ + rel,
            d + "/resources/"@ + rel,
            d + "/Resources/"@ + rel,
            d + "/../resources/"@ + rel,
            d + "/../Resources/"@ + rel,
        ],
        None => Seq::empty(),
    };
    let under_build = match build_dir {
        Some(d) => seq![d + "/resources/"@ + rel],
        None => Seq::empty(),
    };
    under_resources + under_build + seq!["resources/"@ + rel, "src-tauri/resources/"@ + rel]
}

fn joined(dir: &str, sub: &str) -> (r: String)
    ensures
        r@ == dir@ + sub@ + "models/ggml-small.bin"@,
{
    let mut t = String::from_str(dir);
    t.append(sub);
    t.append(BUNDLED_MODEL_RELATIVE_PATH);
    t
}

/// The bundled-model candidates, in search order.
pub fn bundled_model_locations(resource_dir: Option<&str>, build_dir: Option<&str>) -> (r: Vec<
    String,
>)
    ensures
        r@.len() == bundled_locations(opt_view(resource_dir), opt_view(build_dir)).len(),
        forall|i: int|
            0 <= i < r@.len() ==> (#[trigger] r@[i])@ == bundled_locations(
                opt_view(resource_dir),
                opt_view(build_dir),
            )[i],
{
    let mut out: Vec<String> = Vec::new();
    match resource_dir {
        Some(d) => {
            out.push(joined(d, "/"));
            out.push(joined(d, "/resources/"));
            out.push(joined(d, "/Resources/"));
            out.push(joined(d, "/../resources/"));
            out.push(joined(d, "/../Resources/"));
        },
        None => {},
    }
    match build_dir {
        Some(d) => {
            out.push(joined(d, "/resources/"));
        },
        None => {},
    }
    out.push(joined("", "resources/"));
    out.push(joined("", "src-tauri/resources/"));
    proof {
        reveal_strlit("");
        assert(""@ =~= Seq::<char>::empty());
        let spec_list = bundled_locations(opt_view(resource_dir), opt_view(build_dir));
        assert(out@.len() == spec_list.len());
        assert forall|i: int| 0 <= i < out@.len() implies (#[trigger] out@[i])@ == spec_list[i] by {
            assert(""@ + "resources/"@ + "models/ggml-small.bin"@ =~= "resources/"@
                + "models/ggml-small.bin"@);
            assert(""@ + "src-tauri/resources/"@ + "models/ggml-small.bin"@ =~= "src-tauri/resources/"@
                + "models/ggml-small.bin"@);
        }
    }
    out
}

/// The view of an optional string.
pub open spec fn opt_view(s: Option<&str>) -> Option<Seq<char>> {
    match s {
        Some(t) => Some(t@),
        None => None,
    }
}

/// Whether an HTTP status counts as a successful download.
pub fn download_status_ok(code: u16) -> (r: bool)
    ensures
        r == (200 <= code && code < 300),
{
    200 <= code && code < 300
}

/// What has happened so far while provisioning the model.
#[derive(Debug)]
pub enum ProvisionStep {
    /// Provisioning begins; whether the model file is already in place.
    Start { model_exists: bool },
    /// The bundled locations were searched; the first one present, if any.
    BundleSearched { found: Option<usize> },
    /// The bundled copy was put in place.
    BundleCopied,
    /// The download ended, with the error message where it failed.
    DownloadDone { result: Result<(), String> },
}

/// What to do next while provisioning the model.
#[derive(Debug)]
pub enum ProvisionAction {
    /// Report the event and return the reply.
    Finish { event: ModelStatusEvent, response: ModelStatusResponse },
    /// Search the bundled locations in order.
    SearchBundles,
    /// Copy the bundled model found at this position of the search list.
    CopyBundle { index: usize },
    /// Report the event, then download the model.
    Download { event: ModelStatusEvent },
    /// Report the event, remove a partially written file where asked, and
    /// pass the error on.
    Fail { event: ModelStatusEvent, remove_partial: bool },
}

/// The reply says the model is ready at `path`.
pub open spec fn ready_at(r: ModelStatusResponse, path: Seq<char>, downloaded: bool) -> bool {
    r.ready && r.downloaded == downloaded && r.model_path is Some && r.model_path->Some_0@ == path
}

/// The provisioning decisions: an existing model wins, then a bundled
/// copy, then a download; a failed download is reported and its partial
/// file removed.
pub fn provision_next(path: &str, step: ProvisionStep) -> (r: ProvisionAction)
    ensures
        match step {
            ProvisionStep::Start { model_exists: true } => match r {
                ProvisionAction::Finish { event, response } => status_event_is(
                    event,
                    ModelStatusKind::Exists,
                    path@,
                    None,
                ) && ready_at(response, path@, false),
                _ => false,
            },
            ProvisionStep::Start { model_exists: false } => r is SearchBundles,
            ProvisionStep::BundleSearched { found: Some(i) } => r == (ProvisionAction::CopyBundle {
                index: i,
            }),
            ProvisionStep::BundleSearched { found: None } => match r {
                ProvisionAction::Download { event } => status_event_is(
                    event,
                    ModelStatusKind::Downloading,
                    path@,
                    None,
                ),
                _ => false,
            },
            ProvisionStep::BundleCopied => match r {
                ProvisionAction::Finish { event, response } => status_event_is(
                    event,
                    ModelStatusKind::Finished,
                    path@,
                    Some("使用内置模型"@),
                ) && ready_at(response, path@, false),
                _ => false,
            },
            ProvisionStep::DownloadDone { result: Ok(()) } => match r {
                ProvisionAction::Finish { event, response } => status_event_is(
                    event,
                    ModelStatusKind::Finished,
                    path@,
                    None,
                ) && ready_at(response, path@, true),
                _ => false,
            },
            ProvisionStep::DownloadDone { result: Err(m) } => match r {
                ProvisionAction::Fail { event, remove_partial } => status_event_is(
                    event,
                    ModelStatusKind::Failed,
                    path@,
                    Some(m@),
                ) && remove_partial,
                _ => false,
            },
        },
{
    match step {
        ProvisionStep::Start { model_exists } => {
            if model_exists {
                let (event, response) = model_already_present(path);
                ProvisionAction::Finish { event, response }
            } else {
                ProvisionAction::SearchBundles
            }
        },
        ProvisionStep::BundleSearched { found } => match found {
            Some(index) => ProvisionAction::CopyBundle { index },
            None => ProvisionAction::Download { event: model_download_started(path) },
        },
        ProvisionStep::BundleCopied => {
            let (event, response) = model_copied_from_bundle(path);
            ProvisionAction::Finish { event, response }
        },
        ProvisionStep::DownloadDone { result } => match result {
            Ok(()) => {
                let (event, response) = model_download_finished(path);
                ProvisionAction::Finish { event, response }
            },
            Err(message) => ProvisionAction::Fail {
                event: model_download_failed(path, message),
                remove_partial: true,
            },
        },
    }
}

} // verus!
