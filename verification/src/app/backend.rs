//! Runs of a backend: their start, their cancellation, their results, and the repomix download.

use vstd::prelude::*;
use vstd::string::*;

use crate::app;
use crate::app::tokens;
use crate::app::{App, AppView};
use crate::file_utils;
use crate::path;
use crate::path::{FilePath, PathView};
use crate::repomix_integration;
use crate::repomix_integration::{DownloadStatus, RepomixView, StatusView};
use crate::text;
use crate::types::{Backend, BackendRequest, BackendResult, RepomixOptions, TreeView};
use crate::yek_integration;

verus! {

/// The mathematical value of a [`BackendRequest`].
pub struct RequestView {
    pub backend: Backend,
    pub options: RepomixOptions,
    pub files: Seq<PathView>,
    pub root: PathView,
    pub tree: TreeView,
    pub order: Seq<PathView>,
    pub request_id: u64,
}

impl View for BackendRequest {
    type V = RequestView;

    open spec fn view(&self) -> RequestView {
        RequestView {
            backend: self.backend,
            options: self.repomix_options,
            files: path::paths(self.selected_files@),
            root: self.root_path@,
            tree: self.file_tree@,
            order: self.file_tree.keys(),
            request_id: self.request_id,
        }
    }
}

/// What is to be done to run a backend.
#[derive(Debug)]
pub struct BackendRun {
    /// Whether the run before it is to be cancelled
    pub cancel_previous: bool,
    /// The request for the new run, where there is one
    pub request: Option<BackendRequest>,
}

/// The mathematical value of a [`BackendRun`].
pub struct RunView {
    pub cancel_previous: bool,
    pub request: Option<RequestView>,
}

impl View for BackendRun {
    type V = RunView;

    open spec fn view(&self) -> RunView {
        RunView {
            cancel_previous: self.cancel_previous,
            request: match self.request {
                Some(r) => Some(r@),
                None => None,
            },
        }
    }
}

/// The app without a run under way.
pub open spec fn with_run_cancelled(v: AppView) -> AppView {
    if v.is_processing {
        AppView { is_processing: false, current_request_id: None, ..v }
    } else {
        v
    }
}

/// The app with a new run under way.
pub open spec fn with_run_started(v: AppView, now: u64) -> AppView {
    app::with_status(
        AppView {
            next_request_id: (v.next_request_id + 1) as u64,
            current_request_id: Some(v.next_request_id),
            is_processing: true,
            ..v
        },
        "Running "@ + v.state.options.backend.name() + " on "@ + text::decimal(
            tokens::chosen(v).len(),
        ) + " files..."@,
        now,
    )
}

/// The request for a new run on the selected files.
pub open spec fn new_request(v: AppView) -> RequestView {
    RequestView {
        backend: v.state.options.backend,
        options: v.state.options,
        files: tokens::chosen(v),
        root: v.state.root,
        tree: v.state.tree,
        order: v.state.order,
        request_id: v.next_request_id,
    }
}

/// Whether a run can start now: there are selected files, and repomix, where it is the backend, is
/// ready.
pub open spec fn can_start(v: AppView) -> bool {
    &&& tokens::chosen(v).len() > 0
    &&& v.state.options.backend is Repomix ==> v.repomix->0.status is Ready
}

/// The app after the user has asked for a run, and what is to be done. Nothing runs without
/// selected files, and nothing with repomix before its download is ready.
pub open spec fn run_requested(v: AppView, now: u64) -> (AppView, RunView) {
    if tokens::chosen(v).len() == 0 {
        (
            app::with_status(v, "No files selected for processing"@, now),
            RunView { cancel_previous: false, request: None },
        )
    } else {
        let free = with_run_cancelled(v);
        let waiting = RunView { cancel_previous: v.is_processing, request: None };
        let ready = (
            with_run_started(free, now),
            RunView { cancel_previous: v.is_processing, request: Some(new_request(v)) },
        );
        match v.state.options.backend {
            Backend::Yek => ready,
            Backend::Repomix => match v.repomix->0.status {
                StatusView::Ready => ready,
                StatusView::Downloading(msg) => (
                    app::with_status(free, "Downloading: "@ + msg, now),
                    waiting,
                ),
                StatusView::Failed(err) => (
                    app::with_status(
                        AppView { repomix: Some(repomix_integration::download_started(v.repomix->0)), ..free },
                        "Repomix download failed: "@ + err,
                        now,
                    ),
                    waiting,
                ),
                StatusView::NotStarted => (
                    app::with_status(
                        AppView { repomix: Some(repomix_integration::download_started(v.repomix->0)), ..free },
                        "Starting repomix download..."@,
                        now,
                    ),
                    waiting,
                ),
            },
        }
    }
}

/// The app after the request for a run could not be handed over.
pub open spec fn run_dropped(v: AppView, now: u64) -> AppView {
    app::with_status(
        AppView { is_processing: false, ..v },
        "Failed to start backend execution"@,
        now,
    )
}

/// The first result that answers the request `id`.
pub open spec fn first_answer(results: Seq<BackendResult>, id: u64) -> Option<int>
    decreases results.len(),
{
    if results.len() == 0 {
        None
    } else if first_answer(results.drop_last(), id) is Some {
        first_answer(results.drop_last(), id)
    } else if results.last().request_id == id {
        Some(results.len() - 1)
    } else {
        None
    }
}

/// The result that counts: the first answer to the current request, where there is one. All others
/// are from cancelled requests.
pub open spec fn counting_result(results: Seq<BackendResult>, current: Option<u64>) -> Option<
    BackendResult,
> {
    match current {
        Some(id) => match first_answer(results, id) {
            Some(i) => Some(results[i]),
            None => None,
        },
        None => None,
    }
}

/// The encoding of a text.
pub open spec fn bytes(message: Seq<char>) -> Seq<u8> {
    vstd::utf8::encode_utf8(message)
}

/// A message of at most a hundred bytes, or the first hundred bytes with dots.
pub open spec fn shortened(message: Seq<char>) -> Seq<char> {
    if bytes(message).len() > 100 {
        vstd::utf8::decode_utf8(bytes(message).subrange(0, 100)) + "..."@
    } else {
        message
    }
}

/// The message can be shortened: its hundredth byte ends a character, or there is nothing to cut.
pub open spec fn can_be_shortened(message: Seq<char>) -> bool {
    bytes(message).len() > 100 ==> vstd::utf8::is_char_boundary(bytes(message), 100)
}

/// The status message of a result.
pub open spec fn result_message(result: BackendResult) -> Seq<char> {
    if result.success {
        match result.output_file {
            Some(file) => result.message@ + " | Output: "@ + file@,
            None => shortened(result.message@),
        }
    } else {
        match result.error {
            Some(error) => error@,
            None => "Error: Backend execution failed"@,
        }
    }
}

/// The app after results of runs have come in.
pub open spec fn backend_results_processed(
    v: AppView,
    results: Seq<BackendResult>,
    now: u64,
) -> AppView {
    match counting_result(results, v.current_request_id) {
        Some(result) => app::with_status(
            AppView { is_processing: false, current_request_id: None, ..v },
            result_message(result),
            now,
        ),
        None => v,
    }
}

/// The app after the repomix download has ended, with an error where there was one.
pub open spec fn download_ended(v: AppView, error: Option<Seq<char>>, now: u64) -> AppView {
    if v.repomix->0.status is Downloading {
        let status = match error {
            None => StatusView::Ready,
            Some(e) => StatusView::Failed(e),
        };
        app::with_status(
            AppView { repomix: Some(RepomixView { status, ..v.repomix->0 }), ..v },
            match error {
                None => "Repomix ready!"@,
                Some(e) => "Repomix download failed: "@ + e,
            },
            now,
        )
    } else {
        v
    }
}

/// The view of an error that may be missing.
pub open spec fn error_view(error: Option<String>) -> Option<Seq<char>> {
    match error {
        Some(e) => Some(e@),
        None => None,
    }
}

/// Only the answer to the current request counts: with no request under way, or with none of the
/// results answering it, nothing changes.
pub proof fn lemma_other_results_ignored(v: AppView, results: Seq<BackendResult>, now: u64)
    requires
        v.current_request_id matches Some(id) ==> forall|i: int|
            0 <= i < results.len() ==> (#[trigger] results[i]).request_id != id,
    ensures
        backend_results_processed(v, results, now) == v,
    decreases results.len(),
{
    if results.len() > 0 && v.current_request_id is Some {
        let rest = results.drop_last();
        assert forall|i: int| 0 <= i < rest.len() implies (#[trigger] rest[i]).request_id
            != v.current_request_id->0 by {
            assert(rest[i] == results[i]);
        }
        lemma_other_results_ignored(v, rest, now);
        assert(results[results.len() - 1] == results.last());
    }
}

/// A run that can start does: one request goes out, with the next number and exactly the selected
/// files; it becomes the current one, and a run that was under way is cancelled. A run that cannot
/// start sends no request.
pub proof fn lemma_run_starts(v: AppView, now: u64)
    requires
        can_start(v) ==> v.next_request_id < u64::MAX,
    ensures
        ({
            let (w, run) = run_requested(v, now);
            &&& run.request is Some <==> can_start(v)
            &&& can_start(v) ==> {
                &&& run.request->0.request_id == v.next_request_id
                &&& run.request->0.files == tokens::chosen(v)
                &&& run.request->0.backend == v.state.options.backend
                &&& run.cancel_previous == v.is_processing
                &&& w.next_request_id == v.next_request_id + 1
                &&& w.current_request_id == Some(v.next_request_id)
                &&& w.is_processing
            }
            &&& !can_start(v) ==> w.next_request_id == v.next_request_id
        }),
{
}

/// Of two runs that start one after the other, the second has the next number and cancels the
/// first; then the answer to the first no longer counts, and the answer to the second does,
/// whether the other comes before it or not.
pub proof fn lemma_second_run_counts(
    v: AppView,
    first: BackendResult,
    second: BackendResult,
    now: u64,
    later: u64,
    end: u64,
)
    requires
        can_start(v),
        v.next_request_id + 1 < u64::MAX,
        first.request_id == run_requested(v, now).1.request->0.request_id,
        second.request_id == run_requested(
            run_requested(v, now).0,
            later,
        ).1.request->0.request_id,
    ensures
        ({
            let (w, run1) = run_requested(v, now);
            let (u, run2) = run_requested(w, later);
            &&& run2.request is Some
            &&& run2.request->0.request_id == run1.request->0.request_id + 1
            &&& run2.cancel_previous
            &&& backend_results_processed(u, seq![first], end) == u
            &&& counting_result(seq![first, second], u.current_request_id) == Some(second)
            &&& counting_result(seq![second], u.current_request_id) == Some(second)
            &&& !backend_results_processed(u, seq![first, second], end).is_processing
        }),
{
    let (w, run1) = run_requested(v, now);
    let (u, run2) = run_requested(w, later);
    lemma_other_results_ignored(u, seq![first], end);
    let id = second.request_id;
    assert(seq![first, second].drop_last() =~= seq![first]);
    assert(seq![first].drop_last() =~= Seq::empty());
    assert(seq![second].drop_last() =~= Seq::empty());
    assert(first_answer(Seq::empty(), id) is None);
    assert(first_answer(seq![first], id) is None);
    assert(seq![first, second].last() == second);
    assert(first_answer(seq![first, second], id) == Some(1int));
    assert(seq![second].last() == second);
    assert(first_answer(seq![second], id) == Some(0int));
}

/// A run that is started while another is under way cancels that one, and the answer of the
/// cancelled run no longer counts.
pub proof fn lemma_restart_drops_previous(
    v: AppView,
    result: BackendResult,
    now: u64,
    later: u64,
)
    requires
        app::consistent(v),
        v.is_processing,
        v.current_request_id == Some(result.request_id),
        tokens::chosen(v).len() > 0,
    ensures
        ({
            let (w, run) = run_requested(v, now);
            &&& run.cancel_previous
            &&& backend_results_processed(w, seq![result], later) == w
        }),
{
    let (w, run) = run_requested(v, now);
    lemma_other_results_ignored(w, seq![result], later);
}

/// The position of the first result that answers the request `id`.
fn find_answer(results: &Vec<BackendResult>, id: u64) -> (r: Option<usize>)
    ensures
        match r {
            Some(i) => i < results@.len() && first_answer(results@, id) == Some(i as int),
            None => first_answer(results@, id) is None,
        },
{
    let mut i: usize = 0;
    while i < results.len()
        invariant
            i <= results@.len(),
            first_answer(results@.take(i as int), id) is None,
        decreases results.len() - i,
    {
        assert(results@.take(i + 1).drop_last() =~= results@.take(i as int));
        if results[i].request_id == id {
            proof {
                lemma_first_answer_stays(results@, id, i + 1);
            }
            return Some(i);
        }
        i = i + 1;
    }
    assert(results@.take(i as int) =~= results@);
    None
}

proof fn lemma_first_answer_stays(results: Seq<BackendResult>, id: u64, n: int)
    requires
        0 <= n <= results.len(),
        first_answer(results.take(n), id) is Some,
    ensures
        first_answer(results, id) == first_answer(results.take(n), id),
    decreases results.len() - n,
{
    if n == results.len() {
        assert(results.take(n) =~= results);
    } else {
        assert(results.take(n + 1).drop_last() =~= results.take(n));
        lemma_first_answer_stays(results, id, n + 1);
    }
}

/// A message of at most a hundred bytes, or the first hundred bytes with dots.
fn shorten(message: &str) -> (r: String)
    requires
        can_be_shortened(message@),
    ensures
        r@ == shortened(message@),
{
    if message.as_bytes().len() > 100 {
        let (head, _) = message.split_at(100);
        proof {
            vstd::utf8::encode_utf8_decode_utf8(head@);
        }
        text::concat2(head, "...")
    } else {
        message.to_string()
    }
}

impl App {
    /// Shows the warnings for the selected files, and ends the run that is under way, where there
    /// is one. Returns whether there was one.
    fn cancel_run(&mut self, selected_files: &Vec<FilePath>, now: u64) -> (r: bool)
        requires
            old(self).wf(),
        ensures
            final(self).wf(),
            final(self).state == old(self).state,
            final(self).pending_token_calculations == old(self).pending_token_calculations,
            r == old(self).is_processing,
            exists|message: Seq<char>, at: u64| #[trigger]
                app::with_status(with_run_cancelled(old(self)@), message, at) == final(self)@,
    {
        let warnings = match self.state.repomix_options.backend {
            Backend::Repomix => repomix_integration::validate_isolated_repomix_options(
                &self.state.repomix_options,
                selected_files,
            ),
            Backend::Yek => yek_integration::validate_yek_options(selected_files),
        };
        if warnings.len() > 0 {
            let listed = text::join_texts(&warnings, ", ");
            self.set_status_message(text::concat2("Warning: ", listed.as_str()), now);
        }
        let running = self.is_processing;
        if running {
            self.set_status_message(
                "Cancelling previous run and restarting...".to_string(),
                now,
            );
            self.is_processing = false;
            self.current_request_id = None;
        }
        proof {
            assert(app::with_status(
                with_run_cancelled(old(self)@),
                self@.status_message,
                self@.status_updated_at,
            ) == self@);
        }
        running
    }

    /// Starts a run on the selected files.
    fn start_run(&mut self, selected_files: Vec<FilePath>, now: u64) -> (r: BackendRequest)
        requires
            old(self).wf(),
            old(self).next_request_id < u64::MAX,
            path::paths(selected_files@) == tokens::chosen(old(self)@),
        ensures
            final(self).wf(),
            final(self)@ == with_run_started(old(self)@, now),
            r@ == new_request(old(self)@),
            r.file_tree.wf(),
    {
        assert(path::paths(selected_files@).len() == selected_files@.len());
        let request_id = self.next_request_id;
        self.next_request_id = request_id + 1;
        self.current_request_id = Some(request_id);
        self.is_processing = true;
        let n = text::decimal_text(selected_files.len() as u128);
        let mut message = text::concat3(
            "Running ",
            self.state.repomix_options.backend.display_name(),
            " on ",
        );
        message.append(n.as_str());
        message.append(" files...");
        self.set_status_message(message, now);
        BackendRequest {
            backend: self.state.repomix_options.backend,
            repomix_options: self.state.repomix_options.clone(),
            selected_files,
            root_path: self.state.root_path.clone(),
            file_tree: file_utils::copy_tree(&self.state.file_tree),
            request_id,
        }
    }

    /// Runs the selected backend with the currently selected files and options: returns what is to
    /// be done for it.
    pub fn run_backend(&mut self, now: u64) -> (r: BackendRun)
        requires
            old(self).wf(),
            can_start(old(self)@) ==> old(self).next_request_id < u64::MAX,
        ensures
            final(self).wf(),
            (final(self)@, r@) == run_requested(old(self)@, now),
            r.request matches Some(request) ==> request.file_tree.wf(),
    {
        let selected_files = file_utils::get_selected_files(&self.state.file_tree);
        assert(path::paths(selected_files@).len() == selected_files@.len());
        if selected_files.len() == 0 {
            self.set_status_message("No files selected for processing".to_string(), now);
            return BackendRun { cancel_previous: false, request: None };
        }
        let cancel_previous = self.cancel_run(&selected_files, now);
        if !self.repomix_ready(now) {
            return BackendRun { cancel_previous, request: None };
        }
        let request = self.start_run(selected_files, now);
        BackendRun { cancel_previous, request: Some(request) }
    }

    /// Whether the backend can run. Where it is repomix and its download is not ready, says so,
    /// and starts a download that is not under way.
    fn repomix_ready(&mut self, now: u64) -> (r: bool)
        requires
            old(self).wf(),
        ensures
            final(self).wf(),
            final(self).state == old(self).state,
            final(self).pending_token_calculations == old(self).pending_token_calculations,
            r <==> old(self)@.state.options.backend is Repomix ==> old(self)@.repomix->0.status
                is Ready,
            r ==> final(self)@ == old(self)@,
            !r ==> final(self)@ == (match old(self)@.repomix->0.status {
                StatusView::Downloading(msg) => app::with_status(
                    old(self)@,
                    "Downloading: "@ + msg,
                    now,
                ),
                StatusView::Failed(err) => app::with_status(
                    AppView {
                        repomix: Some(repomix_integration::download_started(old(self)@.repomix->0)),
                        ..old(self)@
                    },
                    "Repomix download failed: "@ + err,
                    now,
                ),
                _ => app::with_status(
                    AppView {
                        repomix: Some(repomix_integration::download_started(old(self)@.repomix->0)),
                        ..old(self)@
                    },
                    "Starting repomix download..."@,
                    now,
                ),
            }),
    {
        match self.state.repomix_options.backend {
            Backend::Yek => {
                return true;
            },
            Backend::Repomix => {},
        }
        let status = match &self.repomix {
            Some(manager) => manager.download_status().clone(),
            None => DownloadStatus::Ready,
        };
        match status {
            DownloadStatus::Ready => true,
            DownloadStatus::Downloading(msg) => {
                self.set_status_message(text::concat2("Downloading: ", msg.as_str()), now);
                false
            },
            DownloadStatus::Failed(err) => {
                self.start_repomix_download();
                self.set_status_message(
                    text::concat2("Repomix download failed: ", err.as_str()),
                    now,
                );
                false
            },
            DownloadStatus::NotStarted => {
                self.start_repomix_download();
                self.set_status_message("Starting repomix download...".to_string(), now);
                false
            },
        }
    }

    /// Starts the repomix download.
    fn start_repomix_download(&mut self)
        requires
            old(self).wf(),
            old(self)@.repomix is Some,
            old(self)@.repomix->0.status is Failed || old(self)@.repomix->0.status is NotStarted,
        ensures
            final(self).wf(),
            final(self).state == old(self).state,
            final(self).pending_token_calculations == old(self).pending_token_calculations,
            final(self)@ == (AppView {
                repomix: Some(repomix_integration::download_started(old(self)@.repomix->0)),
                ..old(self)@
            }),
    {
        if let Some(manager) = &mut self.repomix {
            let _ = manager.start_background_download();
        }
    }

    /// Whether a run can start now.
    pub fn can_start_run(&self) -> (r: bool)
        requires
            self.wf(),
        ensures
            r == can_start(self@),
    {
        let selected_files = file_utils::get_selected_files(&self.state.file_tree);
        assert(path::paths(selected_files@).len() == selected_files@.len());
        if selected_files.len() == 0 {
            return false;
        }
        match self.state.repomix_options.backend {
            Backend::Yek => true,
            Backend::Repomix => match &self.repomix {
                Some(manager) => matches!(manager.download_status(), DownloadStatus::Ready),
                None => false,
            },
        }
    }

    /// Takes note that the request for a run could not be handed over.
    pub fn run_not_started(&mut self, now: u64)
        requires
            old(self).wf(),
        ensures
            final(self).wf(),
            final(self)@ == run_dropped(old(self)@, now),
    {
        self.is_processing = false;
        self.set_status_message("Failed to start backend execution".to_string(), now);
    }

    /// Processes backend execution results from the background task (non-blocking).
    /// Returns whether one of them was the answer to the current request.
    pub fn process_backend_results(&mut self, results: &Vec<BackendResult>, now: u64) -> (r: bool)
        requires
            old(self).wf(),
            counting_result(results@, old(self).current_request_id) matches Some(result)
                ==> result.success ==> can_be_shortened(result.message@),
        ensures
            final(self).wf(),
            r <==> counting_result(results@, old(self).current_request_id) is Some,
            final(self)@ == backend_results_processed(old(self)@, results@, now),
    {
        let id = match self.current_request_id {
            Some(id) => id,
            None => {
                return false;
            },
        };
        let at: usize = match find_answer(results, id) {
            Some(i) => i,
            None => {
                return false;
            },
        };
        let result = &results[at];
        self.is_processing = false;
        self.current_request_id = None;
        if result.success {
            let message = shorten(result.message.as_str());
            self.set_status_message(message, now);
            if let Some(output_file) = &result.output_file {
                self.set_status_message(
                    text::concat3(result.message.as_str(), " | Output: ", output_file.as_str()),
                    now,
                );
            }
        } else {
            match &result.error {
                Some(error) => {
                    self.set_status_message(error.clone(), now);
                },
                None => {
                    self.set_status_message("Error: Backend execution failed".to_string(), now);
                },
            }
        }
        true
    }

    /// Whether the results can be processed: a message that is to be shortened can be cut.
    pub fn backend_results_fit(&self, results: &Vec<BackendResult>) -> (r: bool)
        ensures
            r <==> (counting_result(results@, self.current_request_id) matches Some(result)
                ==> result.success ==> can_be_shortened(result.message@)),
    {
        let id = match self.current_request_id {
            Some(id) => id,
            None => {
                return true;
            },
        };
        match find_answer(results, id) {
            Some(i) => {
                let message = results[i].message.as_str();
                !results[i].success || message.as_bytes().len() <= 100 || message.is_char_boundary(
                    100,
                )
            },
            None => true,
        }
    }

    /// Ends the repomix background download and returns true if status changed.
    pub fn update_repomix_download(&mut self, error: Option<String>, now: u64) -> (r: bool)
        requires
            old(self).wf(),
            old(self)@.repomix is Some,
        ensures
            final(self).wf(),
            r <==> old(self)@.repomix->0.status is Downloading,
            final(self)@ == download_ended(old(self)@, error_view(error), now),
    {
        let message = match &error {
            None => "Repomix ready!".to_string(),
            Some(e) => text::concat2("Repomix download failed: ", e.as_str()),
        };
        let mut status_changed = false;
        if let Some(manager) = &mut self.repomix {
            status_changed = manager.update_background_download(error);
        }
        if status_changed {
            self.set_status_message(message, now);
        }
        status_changed
    }
}

} // verus!
