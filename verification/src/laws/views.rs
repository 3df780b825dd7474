//! What the mathematical values keep of the values that the library works on: everything.

use vstd::prelude::*;

use crate::app::backend;
use crate::app::backend::BackendRun;
use crate::app::input::{ConfigOption, KeyOutcome, OutcomeView};
use crate::app::run::{TurnEvent, TurnView};
use crate::app::tokens;
use crate::app::App;
use crate::backend_task::{Execution, ExecutionView};
use crate::path;
use crate::path::{Component, ComponentView, FilePath};
use crate::repomix_integration;
use crate::repomix_integration::{
    DownloadAction,
    DownloadEvent,
    DownloadStatus,
    Ensured,
    EnsuredView,
    EventView,
    PreparedView,
    RepomixCommand,
    RepomixRun,
    StatusView,
};
use crate::text;
use crate::token_counter;
use crate::token_counter::TokenError;
use crate::types;
use crate::types::{AppState, BackendRequest, BackendResult, FileNode};
use crate::ui::file_tree;
use crate::ui::file_tree::{FileTreeSection, Screen, Span};
use crate::yek_integration;
use crate::yek_integration::InstallAction;

verus! {

/// A component of a path is told by its sort and by all that it holds.
pub proof fn lemma_component_view(s: String, units: Vec<u16>)
    ensures
        Component::Prefix(s)@ == ComponentView::Prefix(s@),
        Component::RootDir@ == ComponentView::RootDir,
        Component::CurDir@ == ComponentView::CurDir,
        Component::ParentDir@ == ComponentView::ParentDir,
        Component::Normal(s)@ == ComponentView::Normal(s@),
        Component::Foreign(units, s)@ == ComponentView::Foreign(units@, s@),
        Component::ForeignPrefix(units, s)@ == ComponentView::ForeignPrefix(units@, s@),
{
}

/// Lists are viewed item by item, in order.
pub proof fn lemma_list_views(
    p: FilePath,
    list: Seq<FilePath>,
    words: Seq<String>,
    slices: Seq<&'static str>,
    results: Seq<(FilePath, usize)>,
    pairs: Seq<(String, String)>,
    line: Seq<Span>,
    i: int,
)
    ensures
        p@.len() == p.components@.len(),
        0 <= i < p@.len() ==> p@[i] == p.components@[i]@,
        path::paths(list).len() == list.len(),
        0 <= i < list.len() ==> path::paths(list)[i] == list[i]@,
        text::texts(words).len() == words.len(),
        0 <= i < words.len() ==> text::texts(words)[i] == words[i]@,
        text::slices(slices).len() == slices.len(),
        0 <= i < slices.len() ==> text::slices(slices)[i] == slices[i]@,
        tokens::results_view(results).len() == results.len(),
        0 <= i < results.len() ==> tokens::results_view(results)[i] == (
            results[i].0@,
            results[i].1,
        ),
        repomix_integration::pairs(pairs).len() == pairs.len(),
        0 <= i < pairs.len() ==> repomix_integration::pairs(pairs)[i] == (
            pairs[i].0@,
            pairs[i].1@,
        ),
        file_tree::spans(line).len() == line.len(),
        0 <= i < line.len() ==> file_tree::spans(line)[i].text == line[i].text@
            && file_tree::spans(line)[i].color == line[i].color,
{
}

/// Lines are viewed one by one, in order.
pub proof fn lemma_lines_view(list: Seq<Vec<Span>>, i: int)
    ensures
        file_tree::lines(list).len() == list.len(),
        0 <= i < list.len() ==> file_tree::lines(list)[i] == file_tree::spans(list[i]@),
{
}

/// Values that may be missing are missing in the view exactly where they are missing.
pub proof fn lemma_optional_views(
    p: Option<&FilePath>,
    s: Option<String>,
    content: Option<&str>,
    r: Result<usize, TokenError>,
)
    ensures
        path::optional(p) is Some <==> p is Some,
        p matches Some(q) ==> path::optional(p) == Some(q@),
        types::optional_text(s) is Some <==> s is Some,
        s matches Some(t) ==> types::optional_text(s) == Some(t@),
        backend::error_view(s) is Some <==> s is Some,
        s matches Some(t) ==> backend::error_view(s) == Some(t@),
        token_counter::content_view(content) is Some <==> content is Some,
        content matches Some(t) ==> token_counter::content_view(content) == Some(t@),
        token_counter::result_nat(r) is Ok <==> r is Ok,
        r matches Ok(n) ==> token_counter::result_nat(r) == Ok::<nat, TokenError>(n as nat),
        r matches Err(e) ==> token_counter::result_nat(r) == Err::<nat, TokenError>(e),
{
}

/// A node is told by all its fields.
pub proof fn lemma_node_view(n: FileNode)
    ensures
        n@.path == n.path@,
        n@.name == n.name@,
        n@.is_directory == n.is_directory,
        n@.is_selected == n.is_selected,
        n@.is_expanded == n.is_expanded,
        n@.children == path::paths(n.children@),
        n@.depth == n.depth,
{
}

/// The state is told by all its fields.
pub proof fn lemma_state_view(s: AppState)
    ensures
        s@.root == s.root_path@,
        s@.tree == s.file_tree@,
        s@.order == s.file_tree.keys(),
        s@.visible == path::paths(s.visible_paths@),
        s@.selected_index == s.selected_index,
        s@.options == s.repomix_options,
        s@.counts == s.individual_token_counts@,
        s@.descendants == s.dir_descendants_map@,
        s@.descendants_dirty == s.dir_descendants_dirty,
        s@.status_message == s.status_message@,
        s@.is_processing == s.is_processing,
        s@.token_count == s.token_count,
        s@.focus == s.focus,
{
}

/// The app is told by all its fields.
pub proof fn lemma_app_view(a: App)
    ensures
        a@.state == a.state@,
        a@.ui_state == a.ui_state,
        a@.should_quit == a.should_quit,
        a@.last_update == a.last_update,
        a@.status_message == a.status_message@,
        a@.status_updated_at == a.status_updated_at,
        a@.is_processing == a.is_processing,
        a@.token_count == a.token_count,
        a@.config == a.config,
        a@.repomix is Some <==> a.repomix is Some,
        a.repomix matches Some(m) ==> a@.repomix == Some(m@),
        a@.next_request_id == a.next_request_id,
        a@.current_request_id == a.current_request_id,
        a@.last_token_update == a.last_token_update,
        a@.pending == a.pending_token_calculations@,
        a@.bulk == a.is_bulk_token_calculation,
        a@.suppress == a.suppress_status_messages,
{
}

/// Requests and results of runs are told by all their fields.
pub proof fn lemma_run_views(q: BackendRequest, r: BackendResult, run: BackendRun)
    ensures
        q@.backend == q.backend,
        q@.options == q.repomix_options,
        q@.files == path::paths(q.selected_files@),
        q@.root == q.root_path@,
        q@.tree == q.file_tree@,
        q@.order == q.file_tree.keys(),
        q@.request_id == q.request_id,
        r@.success == r.success,
        r@.message == r.message@,
        r@.output_file == types::optional_text(r.output_file),
        r@.error == types::optional_text(r.error),
        r@.request_id == r.request_id,
        run@.cancel_previous == run.cancel_previous,
        run@.request is Some <==> run.request is Some,
        run.request matches Some(x) ==> run@.request == Some(x@),
{
}

/// What follows a key, and what happens in a turn, is told by its sort and by all that it holds.
pub proof fn lemma_event_views(
    files: Vec<FilePath>,
    run: BackendRun,
    option: ConfigOption,
    go_on: bool,
    error: Option<String>,
    counted: Vec<(FilePath, usize)>,
    results: Vec<BackendResult>,
)
    ensures
        KeyOutcome::Quit@ == OutcomeView::Quit,
        KeyOutcome::Continue(files)@ == OutcomeView::Continue(path::paths(files@)),
        KeyOutcome::Run(run)@ == OutcomeView::Run(run@),
        KeyOutcome::Save(option)@ == OutcomeView::Save(option),
        TurnEvent::InputHandled(go_on)@ == TurnView::InputHandled(go_on),
        TurnEvent::Downloaded(error)@ == TurnView::Downloaded(backend::error_view(error)),
        TurnEvent::TokenResults(counted)@ == TurnView::TokenResults(
            tokens::results_view(counted@),
        ),
        TurnEvent::BackendResults(results)@ == TurnView::BackendResults(results@),
{
}

/// What the download of repomix asks for, hears and is at is told by its sort and by all that it
/// holds.
pub proof fn lemma_download_views(
    p: FilePath,
    s: String,
    t: String,
    list: Vec<FilePath>,
    found: Vec<bool>,
    ok: bool,
)
    ensures
        DownloadStatus::Ready@ == StatusView::Ready,
        DownloadStatus::Downloading(s)@ == StatusView::Downloading(s@),
        DownloadStatus::Failed(s)@ == StatusView::Failed(s@),
        DownloadStatus::NotStarted@ == StatusView::NotStarted,
        Ensured::Entry(p)@ == EnsuredView::Entry(p@),
        Ensured::Download@ == EnsuredView::Download,
        DownloadAction::CreateDirectory(p)@ == repomix_integration::ActionView::CreateDirectory(p@),
        DownloadAction::WriteFile(p, s)@ == repomix_integration::ActionView::WriteFile(p@, s@),
        DownloadAction::NpmInstall(p)@ == repomix_integration::ActionView::NpmInstall(p@),
        DownloadAction::CheckEntry(p)@ == repomix_integration::ActionView::CheckEntry(p@),
        DownloadAction::CheckAlternatives(list)@
            == repomix_integration::ActionView::CheckAlternatives(path::paths(list@)),
        DownloadAction::Done@ == repomix_integration::ActionView::Done,
        DownloadAction::Abort(None, s)@ == repomix_integration::ActionView::Abort(None, s@),
        DownloadAction::Abort(Some(p), s)@ == repomix_integration::ActionView::Abort(Some(p@), s@),
        DownloadEvent::Start@ == EventView::Start,
        DownloadEvent::DirectoryCreated(ok)@ == EventView::DirectoryCreated(ok),
        DownloadEvent::FileWritten(None)@ == EventView::FileWritten(None),
        DownloadEvent::FileWritten(Some(s))@ == EventView::FileWritten(Some(s@)),
        DownloadEvent::NpmMissing@ == EventView::NpmMissing,
        DownloadEvent::NpmFinished(ok, s, t)@ == EventView::NpmFinished(ok, s@, t@),
        DownloadEvent::EntryChecked(ok)@ == EventView::EntryChecked(ok),
        DownloadEvent::AlternativesChecked(found)@ == EventView::AlternativesChecked(found@),
{
}

/// A prepared run is told by its command, whole, or by its error.
pub proof fn lemma_prepared_view(c: RepomixCommand, e: String, n: Ensured)
    ensures
        repomix_integration::prepared_view(Ok(RepomixRun::Command(c))) == Ok::<
            PreparedView,
            Seq<char>,
        >(
            PreparedView::Command {
                entry: c.entry@,
                args: text::texts(c.args@),
                environment: repomix_integration::pairs(c.environment@),
                output_file: c.output_file@,
            },
        ),
        repomix_integration::prepared_view(Ok(RepomixRun::Download)) == Ok::<
            PreparedView,
            Seq<char>,
        >(PreparedView::Download),
        repomix_integration::prepared_view(Err(e)) == Err::<PreparedView, Seq<char>>(e@),
        repomix_integration::ensured_view(Ok(n)) == Ok::<EnsuredView, Seq<char>>(n@),
        repomix_integration::ensured_view(Err(e)) == Err::<EnsuredView, Seq<char>>(e@),
{
}

/// What the installation of yek asks for is told by its sort and by all that it holds.
pub proof fn lemma_install_view(p: FilePath, q: FilePath, args: Vec<String>, e: String)
    ensures
        InstallAction::CreateDirectory(p)@ == yek_integration::ActionView::CreateDirectory(p@),
        InstallAction::CheckBinary(p)@ == yek_integration::ActionView::CheckBinary(p@),
        InstallAction::CreateTempDirectory@ == yek_integration::ActionView::CreateTempDirectory,
        InstallAction::CreateTempBin(p)@ == yek_integration::ActionView::CreateTempBin(p@),
        InstallAction::RunCargo(args)@ == yek_integration::ActionView::RunCargo(text::texts(args@)),
        InstallAction::CheckInstalled(p)@ == yek_integration::ActionView::CheckInstalled(p@),
        InstallAction::Copy(p, q)@ == yek_integration::ActionView::Copy(p@, q@),
        InstallAction::MakeExecutable(p)@ == yek_integration::ActionView::MakeExecutable(p@),
        InstallAction::Done@ == yek_integration::ActionView::Done,
        InstallAction::Fail(e)@ == yek_integration::ActionView::Fail(e@),
{
}

/// What came of an execution is told by its sort and its text.
pub proof fn lemma_execution_view(s: String)
    ensures
        Execution::Finished(Ok(s))@ == ExecutionView::Finished(Ok(s@)),
        Execution::Finished(Err(s))@ == ExecutionView::Finished(Err(s@)),
        Execution::Cancelled@ == ExecutionView::Cancelled,
        Execution::NotInitialized@ == ExecutionView::NotInitialized,
{
}

/// What is drawn is told by all its parts.
pub proof fn lemma_screen_views(s: Screen, b: FileTreeSection, p: Span)
    ensures
        p@.text == p.text@,
        p@.color == p.color,
        b@.title == b.title@,
        b@.info == b.info@,
        b@.tokens == b.tokens@,
        b@.rows == file_tree::lines(b.rows@),
        b@.status is Some <==> b.status is Some,
        b.status matches Some(x) ==> b@.status == Some(x@),
        b@.hints == b.hints@,
        b@.layout == b.layout@,
        b@.hints_index == b.hints_index,
        s@.configuration is Some <==> s.configuration is Some,
        s.configuration matches Some(x) ==> s@.configuration == Some(file_tree::spans(x@)),
        s@.layout == s.layout@,
        s@.section == s.section@,
{
}

} // verus!
