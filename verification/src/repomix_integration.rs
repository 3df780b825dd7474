//! The repomix backend: its download, its command line and its output.

use vstd::prelude::*;
use vstd::string::*;

use crate::file_utils;
use crate::laws::packing;
use crate::path;
use crate::path::{FilePath, PathView};
use crate::platform::Platform;
use crate::process;
use crate::process::ProcessRun;
use crate::text;
use crate::types::{FileTree, OutputFormat, RepomixOptions, TreeView};

verus! {

/// Download status for repomix.
#[derive(Debug, PartialEq, Eq)]
pub enum DownloadStatus {
    /// Repomix is ready to use
    Ready,
    /// Currently downloading repomix
    Downloading(String),
    /// Download failed
    Failed(String),
    /// Not started yet
    NotStarted,
}

/// The mathematical value of a [`DownloadStatus`].
pub enum StatusView {
    Ready,
    Downloading(Seq<char>),
    Failed(Seq<char>),
    NotStarted,
}

impl View for DownloadStatus {
    type V = StatusView;

    open spec fn view(&self) -> StatusView {
        match self {
            DownloadStatus::Ready => StatusView::Ready,
            DownloadStatus::Downloading(s) => StatusView::Downloading(s@),
            DownloadStatus::Failed(s) => StatusView::Failed(s@),
            DownloadStatus::NotStarted => StatusView::NotStarted,
        }
    }
}

impl Clone for DownloadStatus {
    fn clone(&self) -> (r: Self)
        ensures
            r@ == self@,
    {
        match self {
            DownloadStatus::Ready => DownloadStatus::Ready,
            DownloadStatus::Downloading(s) => DownloadStatus::Downloading(s.clone()),
            DownloadStatus::Failed(s) => DownloadStatus::Failed(s.clone()),
            DownloadStatus::NotStarted => DownloadStatus::NotStarted,
        }
    }
}

/// Repomix manager that downloads, caches, and runs repomix in complete isolation.
/// Makes sure siff has full control over repomix behavior without config interference.
#[derive(Debug)]
pub struct Repomix {
    /// Path to cached repomix installation
    cache_dir: FilePath,
    /// Specific repomix version to use (pinned)
    version: String,
    /// Path to the cached repomix entry point
    repomix_entry: FilePath,
    /// Current download status
    download_status: DownloadStatus,
}

/// The mathematical value of a [`Repomix`].
pub struct RepomixView {
    pub cache_dir: PathView,
    pub version: Seq<char>,
    pub entry: PathView,
    pub status: StatusView,
}

impl View for Repomix {
    type V = RepomixView;

    closed spec fn view(&self) -> RepomixView {
        RepomixView {
            cache_dir: self.cache_dir@,
            version: self.version@,
            entry: self.repomix_entry@,
            status: self.download_status@,
        }
    }
}

/// The directory that holds the pinned repomix, below the user's cache directory, or below the
/// current one where the user has none.
pub open spec fn repomix_dir(cache_root: Option<PathView>) -> PathView {
    let root = match cache_root {
        Some(p) => p,
        None => seq![path::ComponentView::CurDir],
    };
    path::child_of(path::child_of(path::child_of(root, "siff"@), "repomix"@), "1.11.1"@)
}

/// A file of the installed repomix package.
pub open spec fn package_file(dir: PathView, folder: Seq<char>, file: Seq<char>) -> PathView {
    path::child_of(
        path::child_of(path::child_of(path::child_of(dir, "node_modules"@), "repomix"@), folder),
        file,
    )
}

/// The entry point that an installation is expected to have.
pub open spec fn main_entry(dir: PathView) -> PathView {
    package_file(dir, "bin"@, "repomix.cjs"@)
}

/// The entry points that other versions have, in the order in which they are tried.
pub open spec fn alternative_entries(dir: PathView) -> Seq<PathView> {
    seq![
        package_file(dir, "bin"@, "repomix.js"@),
        package_file(dir, "bin"@, "repomix.cjs"@),
        package_file(dir, "dist"@, "cli.js"@),
        package_file(dir, "lib"@, "cli.js"@),
        path::child_of(path::child_of(path::child_of(dir, "node_modules"@), "repomix"@), "index.js"@),
    ]
}

/// The contents of the package file that asks npm for the pinned version.
pub open spec fn package_json(version: Seq<char>) -> Seq<char> {
    "{\n            \"name\": \"siff-repomix-cache\",\n            \"version\": \"1.0.0\",\n            \"dependencies\": {\n                \"repomix\": \""@
        + version + "\"\n            }\n        }"@
}

/// The arguments with which npm installs what the package file asks for.
pub fn npm_arguments() -> (r: Vec<&'static str>)
    ensures
        text::slices(r@) == seq!["install"@, "--no-audit"@, "--no-fund"@, "--silent"@],
{
    let mut r: Vec<&'static str> = Vec::new();
    r.push("install");
    r.push("--no-audit");
    r.push("--no-fund");
    r.push("--silent");
    assert(text::slices(r@) =~= seq!["install"@, "--no-audit"@, "--no-fund"@, "--silent"@]);
    r
}

/// A file of the installed package.
fn package_path(dir: &FilePath, folder: &str, file: &str) -> (r: FilePath)
    ensures
        r@ == package_file(dir@, folder@, file@),
{
    dir.child("node_modules").child("repomix").child(folder).child(file)
}

/// What the download asks for next.
#[derive(Debug, PartialEq, Eq)]
pub enum DownloadAction {
    /// Create the cache directory
    CreateDirectory(FilePath),
    /// Write a file
    WriteFile(FilePath, String),
    /// Run `npm install` in a directory
    NpmInstall(FilePath),
    /// Look whether a file exists
    CheckEntry(FilePath),
    /// Look which of the files exist
    CheckAlternatives(Vec<FilePath>),
    /// The download is complete
    Done,
    /// The download failed; remove the directory, where there is one, and report the error
    Abort(Option<FilePath>, String),
}

/// What came of the last action of the download.
#[derive(Debug, PartialEq, Eq)]
pub enum DownloadEvent {
    /// The download starts
    Start,
    /// Whether the directory could be created
    DirectoryCreated(bool),
    /// The error, where the file could not be written
    FileWritten(Option<String>),
    /// npm could not be run
    NpmMissing,
    /// npm ran: whether it succeeded, its output and its error output
    NpmFinished(bool, String, String),
    /// Whether the entry point exists
    EntryChecked(bool),
    /// Which of the alternative entry points exist
    AlternativesChecked(Vec<bool>),
}

/// The position of the first true value.
pub open spec fn first_true(found: Seq<bool>) -> Option<int>
    decreases found.len(),
{
    if found.len() == 0 {
        None
    } else if first_true(found.drop_last()) is Some {
        first_true(found.drop_last())
    } else if found.last() {
        Some(found.len() - 1)
    } else {
        None
    }
}

/// The error for an installation without an entry point.
pub open spec fn no_entry_message(dir: PathView, sep: Seq<char>) -> Seq<char> {
    "Repomix installation failed, no valid entry point found. Searched: "@ + text::joined(
        alternative_entries(dir).map_values(|p: PathView| path::path_text(p, sep)),
        ", "@,
    )
}

impl Repomix {
    /// The directory that holds the pinned repomix.
    pub fn cache_directory(cache_root: Option<&FilePath>) -> (r: FilePath)
        ensures
            r@ == repomix_dir(path::optional(cache_root)),
    {
        let root = match cache_root {
            Some(p) => p.clone(),
            None => FilePath::current_dir(),
        };
        root.child("siff").child("repomix").child("1.11.1")
    }

    /// The entry point that an installation in `cache_dir` is expected to have.
    pub fn entry_point(cache_dir: &FilePath) -> (r: FilePath)
        ensures
            r@ == main_entry(cache_dir@),
    {
        package_path(cache_dir, "bin", "repomix.cjs")
    }

    /// Creates a new repomix manager instance, from the user's cache directory and from whether
    /// the entry point is there already.
    pub fn new(cache_root: Option<&FilePath>, entry_exists: bool) -> (r: Self)
        ensures
            r@ == (RepomixView {
                cache_dir: repomix_dir(path::optional(cache_root)),
                version: "1.11.1"@,
                entry: main_entry(repomix_dir(path::optional(cache_root))),
                status: if entry_exists {
                    StatusView::Ready
                } else {
                    StatusView::NotStarted
                },
            }),
    {
        let cache_dir = Repomix::cache_directory(cache_root);
        let repomix_entry = Repomix::entry_point(&cache_dir);
        let download_status = if entry_exists {
            DownloadStatus::Ready
        } else {
            DownloadStatus::NotStarted
        };
        Repomix { cache_dir, version: "1.11.1".to_string(), repomix_entry, download_status }
    }

    /// Gets the current download status.
    pub fn download_status(&self) -> (r: &DownloadStatus)
        ensures
            r@ == self@.status,
    {
        &self.download_status
    }

    /// The path of the entry point that runs repomix.
    pub fn entry(&self) -> (r: &FilePath)
        ensures
            r@ == self@.entry,
    {
        &self.repomix_entry
    }

    /// Starts background download if needed.
    /// Returns true if download was started, false if already ready/downloading.
    pub fn start_background_download(&mut self) -> (r: bool)
        ensures
            r <==> old(self)@.status is NotStarted || old(self)@.status is Failed,
            final(self)@ == (if r {
                download_started(old(self)@)
            } else {
                old(self)@
            }),
    {
        match &self.download_status {
            DownloadStatus::NotStarted | DownloadStatus::Failed(_) => {
                self.download_status = DownloadStatus::Downloading("Initializing...".to_string());
                true
            },
            _ => false,
        }
    }

    /// Whether a download is under way, which `update_background_download` is to be called for.
    pub fn is_downloading(&self) -> (r: bool)
        ensures
            r <==> self@.status is Downloading,
    {
        match &self.download_status {
            DownloadStatus::Downloading(_) => true,
            _ => false,
        }
    }

    /// Ends the background download with what came of it: the error, where there was one.
    /// Returns true if status changed, false if no change.
    pub fn update_background_download(&mut self, error: Option<String>) -> (r: bool)
        ensures
            r <==> old(self)@.status is Downloading,
            final(self)@ == download_noted(
                old(self)@,
                match error {
                    None => None,
                    Some(e) => Some(e@),
                },
            ),
    {
        if !self.is_downloading() {
            return false;
        }
        match error {
            None => {
                self.download_status = DownloadStatus::Ready;
            },
            Some(e) => {
                self.download_status = DownloadStatus::Failed(e);
            },
        }
        true
    }

    /// Make sure repomix is available in cache, download if needed; `entry_exists` says whether the
    /// entry point is still there. Called before every repomix execution. A download that has not
    /// started is started here: it is to be carried through with `download_step`, its end is to be
    /// noted with `update_background_download`, and repomix is to be ensured again.
    pub fn ensure_repomix(&mut self, entry_exists: bool) -> (r: Result<Ensured, String>)
        ensures
            (final(self)@, ensured_view(r)) == ensured(old(self)@, entry_exists),
    {
        match &self.download_status {
            DownloadStatus::Ready => {
                if entry_exists {
                    Ok(Ensured::Entry(self.repomix_entry.clone()))
                } else {
                    self.download_status = DownloadStatus::NotStarted;
                    Err("Repomix cache was deleted, restarting download...".to_string())
                }
            },
            DownloadStatus::Downloading(msg) => Err(
                text::concat2("Repomix is still downloading: ", msg.as_str()),
            ),
            DownloadStatus::Failed(err) => Err(
                text::concat2("Repomix download failed: ", err.as_str()),
            ),
            DownloadStatus::NotStarted => {
                let _ = self.start_background_download();
                Ok(Ensured::Download)
            },
        }
    }
}

/// What ensuring repomix gives.
#[derive(Debug, PartialEq, Eq)]
pub enum Ensured {
    /// The entry point that runs repomix
    Entry(FilePath),
    /// A download has been started and is to be carried through
    Download,
}

/// The mathematical value of an [`Ensured`].
pub enum EnsuredView {
    Entry(PathView),
    Download,
}

impl View for Ensured {
    type V = EnsuredView;

    open spec fn view(&self) -> EnsuredView {
        match self {
            Ensured::Entry(p) => EnsuredView::Entry(p@),
            Ensured::Download => EnsuredView::Download,
        }
    }
}

/// The view of what ensuring repomix gives, or of its error.
pub open spec fn ensured_view(r: Result<Ensured, String>) -> Result<EnsuredView, Seq<char>> {
    match r {
        Ok(e) => Ok(e@),
        Err(e) => Err(e@),
    }
}

/// The manager with its download started.
pub open spec fn download_started(v: RepomixView) -> RepomixView {
    RepomixView { status: StatusView::Downloading("Initializing..."@), ..v }
}

/// The manager after a download has ended, with an error where there was one.
pub open spec fn download_noted(v: RepomixView, error: Option<Seq<char>>) -> RepomixView {
    RepomixView {
        status: if v.status is Downloading {
            match error {
                None => StatusView::Ready,
                Some(e) => StatusView::Failed(e),
            }
        } else {
            v.status
        },
        ..v
    }
}

/// What ensuring repomix does: the manager afterwards, and what it gives.
pub open spec fn ensured(v: RepomixView, entry_exists: bool) -> (
    RepomixView,
    Result<EnsuredView, Seq<char>>,
) {
    match v.status {
        StatusView::Ready => if entry_exists {
            (v, Ok(EnsuredView::Entry(v.entry)))
        } else {
            (
                RepomixView { status: StatusView::NotStarted, ..v },
                Err("Repomix cache was deleted, restarting download..."@),
            )
        },
        StatusView::NotStarted => (download_started(v), Ok(EnsuredView::Download)),
        StatusView::Downloading(msg) => (v, Err("Repomix is still downloading: "@ + msg)),
        StatusView::Failed(err) => (v, Err("Repomix download failed: "@ + err)),
    }
}

/// The mathematical value of a [`DownloadAction`].
#[verifier::ext_equal]
pub enum ActionView {
    CreateDirectory(PathView),
    WriteFile(PathView, Seq<char>),
    NpmInstall(PathView),
    CheckEntry(PathView),
    CheckAlternatives(Seq<PathView>),
    Done,
    Abort(Option<PathView>, Seq<char>),
}

impl View for DownloadAction {
    type V = ActionView;

    open spec fn view(&self) -> ActionView {
        match self {
            DownloadAction::CreateDirectory(p) => ActionView::CreateDirectory(p@),
            DownloadAction::WriteFile(p, s) => ActionView::WriteFile(p@, s@),
            DownloadAction::NpmInstall(p) => ActionView::NpmInstall(p@),
            DownloadAction::CheckEntry(p) => ActionView::CheckEntry(p@),
            DownloadAction::CheckAlternatives(list) => ActionView::CheckAlternatives(
                path::paths(list@),
            ),
            DownloadAction::Done => ActionView::Done,
            DownloadAction::Abort(p, s) => ActionView::Abort(
                match p {
                    Some(q) => Some(q@),
                    None => None,
                },
                s@,
            ),
        }
    }
}

/// The mathematical value of a [`DownloadEvent`].
pub enum EventView {
    Start,
    DirectoryCreated(bool),
    FileWritten(Option<Seq<char>>),
    NpmMissing,
    NpmFinished(bool, Seq<char>, Seq<char>),
    EntryChecked(bool),
    AlternativesChecked(Seq<bool>),
}

impl View for DownloadEvent {
    type V = EventView;

    open spec fn view(&self) -> EventView {
        match self {
            DownloadEvent::Start => EventView::Start,
            DownloadEvent::DirectoryCreated(ok) => EventView::DirectoryCreated(*ok),
            DownloadEvent::FileWritten(e) => EventView::FileWritten(
                match e {
                    Some(s) => Some(s@),
                    None => None,
                },
            ),
            DownloadEvent::NpmMissing => EventView::NpmMissing,
            DownloadEvent::NpmFinished(ok, out, err) => EventView::NpmFinished(*ok, out@, err@),
            DownloadEvent::EntryChecked(found) => EventView::EntryChecked(*found),
            DownloadEvent::AlternativesChecked(found) => EventView::AlternativesChecked(found@),
        }
    }
}

/// The manager with another note on the progress of the download.
pub open spec fn downloading(v: RepomixView, note: Seq<char>) -> RepomixView {
    RepomixView { status: StatusView::Downloading(note), ..v }
}

/// The step that the download takes on an event: the manager afterwards, and the action.
pub open spec fn download_next(v: RepomixView, event: EventView, sep: Seq<char>) -> (
    RepomixView,
    ActionView,
) {
    match event {
        EventView::Start => (
            downloading(v, "Creating cache directory..."@),
            ActionView::CreateDirectory(v.cache_dir),
        ),
        EventView::DirectoryCreated(true) => (
            downloading(v, "Creating package.json..."@),
            ActionView::WriteFile(
                path::child_of(v.cache_dir, "package.json"@),
                package_json(v.version),
            ),
        ),
        EventView::DirectoryCreated(false) => (
            v,
            ActionView::Abort(None, "Failed to create repomix cache directory"@),
        ),
        EventView::FileWritten(None) => (
            downloading(v, "Installing repomix "@ + v.version + "..."@),
            ActionView::NpmInstall(v.cache_dir),
        ),
        EventView::FileWritten(Some(e)) => (v, ActionView::Abort(None, e)),
        EventView::NpmMissing => (v, ActionView::Abort(None, "Failed to run npm install"@)),
        EventView::NpmFinished(true, _, _) => (
            downloading(v, "Verifying installation..."@),
            ActionView::CheckEntry(v.entry),
        ),
        EventView::NpmFinished(false, out, err) => (
            v,
            ActionView::Abort(
                Some(v.cache_dir),
                "npm install failed:\nstdout: "@ + out + "\nstderr: "@ + err,
            ),
        ),
        EventView::EntryChecked(true) => (v, ActionView::Done),
        EventView::EntryChecked(false) => (
            v,
            ActionView::CheckAlternatives(alternative_entries(v.cache_dir)),
        ),
        EventView::AlternativesChecked(found) => match first_true(found) {
            Some(i) if i < 5 => (
                RepomixView { entry: alternative_entries(v.cache_dir)[i], ..v },
                ActionView::Done,
            ),
            _ => (v, ActionView::Abort(Some(v.cache_dir), no_entry_message(v.cache_dir, sep))),
        },
    }
}

/// A download all of whose actions succeed creates the directory, writes the package file, runs
/// npm and checks the entry point, in this order, and is then done; the manager keeps its
/// directory, its version and its entry point.
pub proof fn lemma_download_succeeds(v: RepomixView, out: Seq<char>, err: Seq<char>, sep: Seq<char>)
    ensures
        ({
            let (v1, a1) = download_next(v, EventView::Start, sep);
            let (v2, a2) = download_next(v1, EventView::DirectoryCreated(true), sep);
            let (v3, a3) = download_next(v2, EventView::FileWritten(None), sep);
            let (v4, a4) = download_next(v3, EventView::NpmFinished(true, out, err), sep);
            let (v5, a5) = download_next(v4, EventView::EntryChecked(true), sep);
            &&& a1 == ActionView::CreateDirectory(v.cache_dir)
            &&& a2 == ActionView::WriteFile(
                path::child_of(v.cache_dir, "package.json"@),
                package_json(v.version),
            )
            &&& a3 == ActionView::NpmInstall(v.cache_dir)
            &&& a4 == ActionView::CheckEntry(v.entry)
            &&& a5 is Done
            &&& v5 == downloading(v, "Verifying installation..."@)
        }),
{
}

/// No step of the download changes the directory or the version of the manager.
pub proof fn lemma_download_keeps_place(v: RepomixView, event: EventView, sep: Seq<char>)
    ensures
        download_next(v, event, sep).0.cache_dir == v.cache_dir,
        download_next(v, event, sep).0.version == v.version,
{
}

/// The entry points that other versions have.
fn list_alternatives(dir: &FilePath) -> (r: Vec<FilePath>)
    ensures
        r@.len() == 5,
        path::paths(r@) == alternative_entries(dir@),
{
    let mut r: Vec<FilePath> = Vec::new();
    r.push(package_path(dir, "bin", "repomix.js"));
    r.push(package_path(dir, "bin", "repomix.cjs"));
    r.push(package_path(dir, "dist", "cli.js"));
    r.push(package_path(dir, "lib", "cli.js"));
    r.push(dir.child("node_modules").child("repomix").child("index.js"));
    assert(path::paths(r@) =~= alternative_entries(dir@));
    r
}

/// The position of the first true value.
fn find_true(found: &Vec<bool>) -> (r: Option<usize>)
    ensures
        match r {
            Some(i) => i < found@.len() && first_true(found@) == Some(i as int),
            None => first_true(found@) is None,
        },
{
    let mut i: usize = 0;
    while i < found.len()
        invariant
            i <= found@.len(),
            first_true(found@.take(i as int)) is None,
        decreases found.len() - i,
    {
        assert(found@.take(i + 1).drop_last() =~= found@.take(i as int));
        if found[i] {
            proof {
                lemma_first_true_stays(found@, i + 1);
            }
            return Some(i);
        }
        i = i + 1;
    }
    assert(found@.take(i as int) =~= found@);
    None
}

proof fn lemma_first_true_stays(found: Seq<bool>, n: int)
    requires
        0 <= n <= found.len(),
        first_true(found.take(n)) is Some,
    ensures
        first_true(found) == first_true(found.take(n)),
    decreases found.len() - n,
{
    if n == found.len() {
        assert(found.take(n) =~= found);
    } else {
        assert(found.take(n + 1).drop_last() =~= found.take(n));
        lemma_first_true_stays(found, n + 1);
    }
}

/// The texts of a list of paths.
fn path_texts(list: &Vec<FilePath>, sep: &str) -> (r: Vec<String>)
    ensures
        text::texts(r@) == path::paths(list@).map_values(|p: PathView| path::path_text(p, sep@)),
{
    let mut r: Vec<String> = Vec::new();
    let mut i: usize = 0;
    while i < list.len()
        invariant
            i <= list@.len(),
            r@.len() == i,
            forall|k: int|
                0 <= k < i ==> (#[trigger] r@[k])@ == path::path_text(list@[k]@, sep@),
        decreases list.len() - i,
    {
        r.push(list[i].to_text(sep));
        i = i + 1;
    }
    assert(text::texts(r@) =~= path::paths(list@).map_values(
        |p: PathView| path::path_text(p, sep@),
    ));
    r
}

impl Repomix {
    /// Takes the next step of downloading the repomix package to the cache directory.
    pub fn download_step(&mut self, event: DownloadEvent, sep: &str) -> (r: DownloadAction)
        ensures
            (final(self)@, r@) == download_next(old(self)@, event@, sep@),
    {
        match event {
            DownloadEvent::Start => {
                self.download_status = DownloadStatus::Downloading(
                    "Creating cache directory...".to_string(),
                );
                DownloadAction::CreateDirectory(self.cache_dir.clone())
            },
            DownloadEvent::DirectoryCreated(created) => {
                if created {
                    self.download_status = DownloadStatus::Downloading(
                        "Creating package.json...".to_string(),
                    );
                    let contents = text::concat3(
                        "{\n            \"name\": \"siff-repomix-cache\",\n            \"version\": \"1.0.0\",\n            \"dependencies\": {\n                \"repomix\": \"",
                        self.version.as_str(),
                        "\"\n            }\n        }",
                    );
                    DownloadAction::WriteFile(self.cache_dir.child("package.json"), contents)
                } else {
                    DownloadAction::Abort(
                        None,
                        "Failed to create repomix cache directory".to_string(),
                    )
                }
            },
            DownloadEvent::FileWritten(error) => match error {
                None => {
                    self.download_status = DownloadStatus::Downloading(
                        text::concat3("Installing repomix ", self.version.as_str(), "..."),
                    );
                    DownloadAction::NpmInstall(self.cache_dir.clone())
                },
                Some(e) => DownloadAction::Abort(None, e),
            },
            DownloadEvent::NpmMissing => DownloadAction::Abort(
                None,
                "Failed to run npm install".to_string(),
            ),
            DownloadEvent::NpmFinished(success, out, err) => {
                if success {
                    self.download_status = DownloadStatus::Downloading(
                        "Verifying installation...".to_string(),
                    );
                    DownloadAction::CheckEntry(self.repomix_entry.clone())
                } else {
                    let mut message = text::concat3(
                        "npm install failed:\nstdout: ",
                        out.as_str(),
                        "\nstderr: ",
                    );
                    message.append(err.as_str());
                    DownloadAction::Abort(Some(self.cache_dir.clone()), message)
                }
            },
            DownloadEvent::EntryChecked(found) => {
                if found {
                    DownloadAction::Done
                } else {
                    DownloadAction::CheckAlternatives(list_alternatives(&self.cache_dir))
                }
            },
            DownloadEvent::AlternativesChecked(found) => {
                let entries = list_alternatives(&self.cache_dir);
                if let Some(i) = find_true(&found) {
                    if i < 5 {
                        assert(path::paths(entries@)[i as int] == entries@[i as int]@);
                        self.repomix_entry = entries[i].clone();
                        return DownloadAction::Done;
                    }
                }
                let searched = text::join_texts(&path_texts(&entries, sep), ", ");
                DownloadAction::Abort(
                    Some(self.cache_dir.clone()),
                    text::concat2(
                        "Repomix installation failed, no valid entry point found. Searched: ",
                        searched.as_str(),
                    ),
                )
            },
        }
    }
}

/// The file that repomix writes its output to, one for each process.
pub open spec fn output_path(dir: PathView, process_id: u32) -> PathView {
    path::child_of(dir, "siff-repomix-"@ + text::decimal(process_id as nat) + ".md"@)
}

/// What a file is called in the list of files to process. A name with a comma has no place there,
/// since commas separate the names.
pub open spec fn direct_argument(file: PathView, dir: PathView, sep: Seq<char>) -> Option<
    Seq<char>,
> {
    match file_utils::valid_argument(file, dir, sep) {
        Some(s) => if text::contains_seq(s, ","@) {
            None
        } else {
            Some(s)
        },
        None => None,
    }
}

/// The names of the files to process.
pub open spec fn direct_arguments(files: Seq<PathView>, dir: PathView, sep: Seq<char>) -> Seq<
    Seq<char>,
> {
    files.filter_map(|f: PathView| direct_argument(f, dir, sep))
}

/// The directory, relative to the working directory, and the name of a file that a directory
/// pattern may stand for.
pub open spec fn pattern_entry(file: PathView, dir: PathView, sep: Seq<char>) -> Option<
    (PathView, Seq<char>),
> {
    match path::relative_to(file, dir) {
        None => None,
        Some(rel) => if !file_utils::is_safe_argument(path::path_text(rel, sep)) {
            None
        } else {
            match path::file_name_of(rel) {
                None => None,
                Some(name) => if name.len() == 0 {
                    None
                } else {
                    Some(
                        (
                            match path::parent_of(rel) {
                                Some(p) => p,
                                None => Seq::empty(),
                            },
                            name,
                        ),
                    )
                },
            }
        },
    }
}

/// What stands before the names of the files of a directory.
pub open spec fn pattern_start(dir: PathView, sep: Seq<char>) -> Seq<char> {
    if dir.len() == 0 {
        Seq::empty()
    } else {
        path::path_text(dir, sep) + "/"@
    }
}

/// The patterns of the files `names` of one directory: a wildcard where there are more than ten,
/// and else one pattern for each file.
pub open spec fn directory_patterns(dir: PathView, names: Seq<Seq<char>>, sep: Seq<char>) -> Seq<
    Seq<char>,
> {
    if names.len() > 10 {
        seq![pattern_start(dir, sep) + "**"@]
    } else {
        names.map_values(|n: Seq<char>| pattern_start(dir, sep) + n)
    }
}

/// Whether an entry is in the directory.
pub open spec fn in_directory(dir: PathView) -> spec_fn((PathView, Seq<char>)) -> bool {
    |e: (PathView, Seq<char>)| e.0 == dir
}

/// Whether an entry is not in the directory.
pub open spec fn not_in_directory(dir: PathView) -> spec_fn((PathView, Seq<char>)) -> bool {
    |e: (PathView, Seq<char>)| e.0 != dir
}

/// The name of an entry.
pub open spec fn entry_name() -> spec_fn((PathView, Seq<char>)) -> Seq<char> {
    |e: (PathView, Seq<char>)| e.1
}

/// The patterns of all entries, directory by directory, in the order in which the directories
/// first occur.
pub open spec fn grouped_patterns(entries: Seq<(PathView, Seq<char>)>, sep: Seq<char>) -> Seq<
    Seq<char>,
>
    decreases entries.len(),
{
    if entries.len() == 0 {
        Seq::empty()
    } else {
        let dir = entries[0].0;
        proof {
            entries.drop_first().lemma_filter_len(not_in_directory(dir));
        }
        directory_patterns(
            dir,
            entries.filter(in_directory(dir)).map_values(entry_name()),
            sep,
        ) + grouped_patterns(entries.drop_first().filter(not_in_directory(dir)), sep)
    }
}

/// The directory patterns for a list of files.
pub open spec fn patterns(files: Seq<PathView>, dir: PathView, sep: Seq<char>) -> Seq<Seq<char>> {
    grouped_patterns(files.filter_map(|f: PathView| pattern_entry(f, dir, sep)), sep)
}

/// The names or patterns that repomix is told to process: patterns where there are more than a
/// thousand files, to stay within the limits of a command line.
pub open spec fn included(files: Seq<PathView>, dir: PathView, sep: Seq<char>) -> Seq<Seq<char>> {
    if files.len() > 1000 {
        patterns(files, dir, sep)
    } else {
        direct_arguments(files, dir, sep)
    }
}

/// The options of the command line, up to the files.
pub open spec fn option_arguments(
    options: RepomixOptions,
    dir: PathView,
    process_id: u32,
    sep: Seq<char>,
) -> Seq<Seq<char>> {
    seq![
        "--no-gitignore"@,
        "--no-default-patterns"@,
        "--no-directory-structure"@,
        "--output"@,
        path::path_text(output_path(dir, process_id), sep),
    ] + (if options.compress {
        seq!["--compress"@]
    } else {
        Seq::empty()
    }) + (if options.remove_comments {
        seq!["--remove-comments"@]
    } else {
        Seq::empty()
    }) + seq![options.output_format.flag()]
}

/// The arguments of the repomix command, where there is a file to process.
pub open spec fn isolated_arguments(
    files: Seq<PathView>,
    options: RepomixOptions,
    dir: PathView,
    process_id: u32,
    sep: Seq<char>,
) -> Seq<Seq<char>> {
    option_arguments(options, dir, process_id, sep) + seq![
        "--include"@,
        text::joined(included(files, dir, sep), ","@),
        "."@,
    ]
}

/// The view of a list of entries.
pub open spec fn entry_views(entries: Seq<(FilePath, String)>) -> Seq<(PathView, Seq<char>)> {
    entries.map_values(|e: (FilePath, String)| (e.0@, e.1@))
}

/// The name of the output file.
fn output_name(process_id: u32) -> (r: String)
    ensures
        r@ == "siff-repomix-"@ + text::decimal(process_id as nat) + ".md"@,
{
    let id = text::decimal_text(process_id as u128);
    text::concat3("siff-repomix-", id.as_str(), ".md")
}

/// The directory and the name of a file that a directory pattern may stand for.
fn find_pattern_entry(file: &FilePath, dir: &FilePath, sep: &str) -> (r: Option<(FilePath, String)>)
    ensures
        match r {
            Some(e) => pattern_entry(file@, dir@, sep@) == Some((e.0@, e.1@)),
            None => pattern_entry(file@, dir@, sep@) is None,
        },
{
    let rel = match file.strip_prefix(dir) {
        Some(rel) => rel,
        None => {
            return None;
        },
    };
    let shown = rel.to_text(sep);
    if !file_utils::safe_argument(shown.as_str()) {
        return None;
    }
    match rel.file_name() {
        None => None,
        Some(name) => {
            if name.as_str().is_empty() {
                None
            } else {
                let parent = match rel.parent() {
                    Some(p) => p,
                    None => FilePath::new(),
                };
                Some((parent, name))
            }
        },
    }
}

/// Adds the patterns of the files of one directory.
fn push_directory_patterns(dir: &FilePath, names: &Vec<String>, sep: &str, out: &mut Vec<String>)
    ensures
        text::texts(final(out)@) == text::texts(old(out)@) + directory_patterns(
            dir@,
            text::texts(names@),
            sep@,
        ),
{
    let mut start = String::new();
    if dir.components.len() > 0 {
        let place = dir.to_text(sep);
        start.append(place.as_str());
        start.append("/");
    }
    assert(start@ =~= pattern_start(dir@, sep@));
    let ghost before = text::texts(out@);
    if names.len() > 10 {
        out.push(text::concat2(start.as_str(), "**"));
        assert(text::texts(out@) =~= before + directory_patterns(
            dir@,
            text::texts(names@),
            sep@,
        ));
    } else {
        let ghost all = directory_patterns(dir@, text::texts(names@), sep@);
        let mut i: usize = 0;
        assert(text::texts(out@) =~= before + all.take(0));
        while i < names.len()
            invariant
                i <= names@.len() <= 10,
                start@ == pattern_start(dir@, sep@),
                all == directory_patterns(dir@, text::texts(names@), sep@),
                text::texts(out@) == before + all.take(i as int),
            decreases names.len() - i,
        {
            let ghost here = text::texts(out@);
            out.push(text::concat2(start.as_str(), names[i].as_str()));
            assert(text::texts(out@) =~= here.push(all[i as int]));
            assert(text::texts(out@) =~= before + all.take(i + 1));
            i = i + 1;
        }
        assert(all.take(i as int) =~= all);
    }
}

/// Adds the patterns of all entries, directory by directory.
fn push_grouped_patterns(entries: Vec<(FilePath, String)>, sep: &str, out: &mut Vec<String>)
    ensures
        text::texts(final(out)@) == text::texts(old(out)@) + grouped_patterns(
            entry_views(entries@),
            sep@,
        ),
    decreases entries@.len(),
{
    let ghost all = entry_views(entries@);
    if entries.len() == 0 {
        assert(text::texts(out@) + grouped_patterns(all, sep@) =~= text::texts(out@));
        return;
    }
    let dir = entries[0].0.clone();
    let ghost here = in_directory(dir@);
    let ghost elsewhere = not_in_directory(dir@);
    let mut names: Vec<String> = Vec::new();
    let mut rest: Vec<(FilePath, String)> = Vec::new();
    names.push(entries[0].1.clone());
    proof {
        file_utils::lemma_filter_step(all, here, 0);
        assert(all.take(0).filter(here) =~= Seq::empty()) by {
            reveal(Seq::filter);
        }
        assert(text::texts(names@) =~= all.take(1).filter(here).map_values(entry_name()));
        assert(all.drop_first().take(0).filter(elsewhere) =~= Seq::empty()) by {
            reveal(Seq::filter);
        }
        assert(entry_views(rest@) =~= all.drop_first().take(0).filter(elsewhere));
    }
    let mut i: usize = 1;
    while i < entries.len()
        invariant
            1 <= i <= entries@.len(),
            all == entry_views(entries@),
            here == in_directory(dir@),
            elsewhere == not_in_directory(dir@),
            text::texts(names@) == all.take(i as int).filter(here).map_values(entry_name()),
            entry_views(rest@) == all.drop_first().take(i - 1).filter(elsewhere),
            rest@.len() < i,
        decreases entries.len() - i,
    {
        let ghost names_before = text::texts(names@);
        let ghost rest_before = entry_views(rest@);
        proof {
            file_utils::lemma_filter_step(all, here, i as int);
            file_utils::lemma_filter_step(all.drop_first(), elsewhere, i - 1);
            assert(all.drop_first()[i - 1] == all[i as int]);
        }
        if entries[i].0.same(&dir) {
            names.push(entries[i].1.clone());
            assert(text::texts(names@) =~= names_before.push(all[i as int].1));
            assert(text::texts(names@) =~= all.take(i + 1).filter(here).map_values(entry_name()));
        } else {
            rest.push((entries[i].0.clone(), entries[i].1.clone()));
            assert(entry_views(rest@) =~= rest_before.push(all[i as int]));
        }
        i = i + 1;
    }
    proof {
        assert(all.take(i as int) =~= all);
        assert(all.drop_first().take(i - 1) =~= all.drop_first());
    }
    let ghost before = text::texts(out@);
    push_directory_patterns(&dir, &names, sep, out);
    push_grouped_patterns(rest, sep, out);
    assert(text::texts(out@) =~= before + grouped_patterns(all, sep@));
}

impl Repomix {
    /// Builds directory-based patterns for large file counts
    /// Groups files by directory and creates glob patterns.
    pub fn build_directory_patterns(
        &self,
        selected_files: &Vec<FilePath>,
        working_directory: &FilePath,
        sep: &str,
    ) -> (r: Vec<String>)
        ensures
            text::texts(r@) == patterns(
                path::paths(selected_files@),
                working_directory@,
                sep@,
            ),
    {
        let ghost files = path::paths(selected_files@);
        let ghost pick = |f: PathView| pattern_entry(f, working_directory@, sep@);
        let mut entries: Vec<(FilePath, String)> = Vec::new();
        let mut i: usize = 0;
        assert(entry_views(entries@) =~= files.take(0).filter_map(pick));
        while i < selected_files.len()
            invariant
                i <= selected_files@.len(),
                files == path::paths(selected_files@),
                pick == (|f: PathView| pattern_entry(f, working_directory@, sep@)),
                entry_views(entries@) == files.take(i as int).filter_map(pick),
            decreases selected_files.len() - i,
        {
            let ghost before = entry_views(entries@);
            proof {
                files.lemma_filter_map_take_succ(pick, i as int);
            }
            if let Some(e) = find_pattern_entry(&selected_files[i], working_directory, sep) {
                let ghost v = (e.0@, e.1@);
                entries.push(e);
                assert(entry_views(entries@) =~= before.push(v));
            }
            assert(entry_views(entries@) =~= files.take(i + 1).filter_map(pick));
            i = i + 1;
        }
        assert(files.take(i as int) =~= files);
        let mut r: Vec<String> = Vec::new();
        push_grouped_patterns(entries, sep, &mut r);
        assert(text::texts(r@) =~= patterns(files, working_directory@, sep@));
        r
    }

    /// The names of the files to process, without those that are not safe.
    fn list_direct_arguments(
        &self,
        selected_files: &Vec<FilePath>,
        working_directory: &FilePath,
        sep: &str,
    ) -> (r: Vec<String>)
        ensures
            text::texts(r@) == direct_arguments(
                path::paths(selected_files@),
                working_directory@,
                sep@,
            ),
    {
        let ghost files = path::paths(selected_files@);
        let ghost pick = |f: PathView| direct_argument(f, working_directory@, sep@);
        let mut r: Vec<String> = Vec::new();
        let mut i: usize = 0;
        assert(text::texts(r@) =~= files.take(0).filter_map(pick));
        while i < selected_files.len()
            invariant
                i <= selected_files@.len(),
                files == path::paths(selected_files@),
                pick == (|f: PathView| direct_argument(f, working_directory@, sep@)),
                text::texts(r@) == files.take(i as int).filter_map(pick),
            decreases selected_files.len() - i,
        {
            let ghost before = text::texts(r@);
            proof {
                files.lemma_filter_map_take_succ(pick, i as int);
            }
            if let Some(s) = file_utils::validate_file_path(
                &selected_files[i],
                working_directory,
                sep,
            ) {
                if !text::contains_text(s.as_str(), ",") {
                    let ghost v = s@;
                    r.push(s);
                    assert(text::texts(r@) =~= before.push(v));
                }
            }
            assert(text::texts(r@) =~= files.take(i + 1).filter_map(pick));
            i = i + 1;
        }
        assert(files.take(i as int) =~= files);
        r
    }

    /// Builds command arguments with complete siff control and no config interference.
    pub fn build_isolated_args(
        &self,
        selected_files: &Vec<FilePath>,
        options: &RepomixOptions,
        working_directory: &FilePath,
        process_id: u32,
        sep: &str,
    ) -> (r: Result<Vec<String>, String>)
        ensures
            r is Ok <==> included(
                path::paths(selected_files@),
                working_directory@,
                sep@,
            ).len() > 0,
            r is Ok ==> text::texts(r->Ok_0@) == isolated_arguments(
                path::paths(selected_files@),
                *options,
                working_directory@,
                process_id,
                sep@,
            ),
            r is Err ==> r->Err_0@ == (if selected_files@.len() > 1000 {
                "Error: No valid directory patterns could be created"@
            } else {
                "Error: No valid files to process after security validation"@
            }),
            r is Ok ==> r->Ok_0@.len() >= 9 && r->Ok_0@[r->Ok_0@.len() - 3]@ == "--include"@,
            r is Ok ==> (options.compress <==> text::texts(r->Ok_0@).take(
                r->Ok_0@.len() - 3,
            ).contains("--compress"@)),
            r is Ok ==> (options.remove_comments <==> text::texts(r->Ok_0@).take(
                r->Ok_0@.len() - 3,
            ).contains("--remove-comments"@)),
    {
        let mut args: Vec<String> = Vec::new();
        args.push("--no-gitignore".to_string());
        args.push("--no-default-patterns".to_string());
        args.push("--no-directory-structure".to_string());
        args.push("--output".to_string());
        args.push(working_directory.child(output_name(process_id).as_str()).to_text(sep));
        if options.compress {
            args.push("--compress".to_string());
        }
        if options.remove_comments {
            args.push("--remove-comments".to_string());
        }
        if let Some(flag) = options.output_format.repomix_flag() {
            args.push(flag.to_string());
        }
        let ghost start = text::texts(args@);
        assert(start =~= option_arguments(*options, working_directory@, process_id, sep@));
        let listed = if selected_files.len() > 1000 {
            self.build_directory_patterns(selected_files, working_directory, sep)
        } else {
            self.list_direct_arguments(selected_files, working_directory, sep)
        };
        assert(text::texts(listed@).len() == listed@.len());
        if listed.len() == 0 {
            return Err(
                if selected_files.len() > 1000 {
                    "Error: No valid directory patterns could be created".to_string()
                } else {
                    "Error: No valid files to process after security validation".to_string()
                },
            );
        }
        args.push("--include".to_string());
        args.push(text::join_texts(&listed, ","));
        args.push(".".to_string());
        assert(text::texts(args@) =~= start + seq![
            "--include"@,
            text::joined(
                included(path::paths(selected_files@), working_directory@, sep@),
                ","@,
            ),
            "."@,
        ]);
        proof {
            let files = path::paths(selected_files@);
            packing::lemma_options_reach_command_line(
                files,
                *options,
                working_directory@,
                process_id,
                sep@,
            );
            let list = text::texts(args@);
            assert(list =~= isolated_arguments(
                files,
                *options,
                working_directory@,
                process_id,
                sep@,
            ));
            assert(args@[args@.len() - 3]@ == list[list.len() - 3]);
        }
        Ok(args)
    }
}

/// The environment that repomix runs in: nothing of the user's own, so that no other
/// configuration is found.
pub open spec fn environment(temp_dir: PathView, platform: Platform) -> Seq<
    (Seq<char>, Seq<char>),
> {
    let home = path::path_text(path::child_of(temp_dir, "siff-fake-home"@), platform.sep());
    seq![
        ("NODE_ENV"@, "production"@),
        ("NO_UPDATE_NOTIFIER"@, "1"@),
        ("NO_COLOR"@, "1"@),
        ("HOME"@, home),
        ("USERPROFILE"@, home),
        ("XDG_CONFIG_HOME"@, home),
        ("APPDATA"@, home),
        ("PATH"@, node_path(platform)),
    ]
}

/// The directories that node is looked for in.
pub open spec fn node_path(platform: Platform) -> Seq<char> {
    if platform is Windows {
        "C:\\Program Files\\nodejs;C:\\Program Files (x86)\\nodejs;C:\\Windows\\System32"@
    } else {
        "/usr/local/bin:/usr/bin:/bin:/opt/homebrew/bin"@
    }
}

/// The view of a list of variables with their values.
pub open spec fn pairs(list: Seq<(String, String)>) -> Seq<(Seq<char>, Seq<char>)> {
    list.map_values(|e: (String, String)| (e.0@, e.1@))
}

/// A repomix run that is ready to start: `node` with an entry point, arguments and environment.
#[derive(Debug, PartialEq, Eq)]
pub struct RepomixCommand {
    /// The script that node runs
    pub entry: FilePath,
    /// The arguments of the script
    pub args: Vec<String>,
    /// The whole environment
    pub environment: Vec<(String, String)>,
    /// The file that holds the output afterwards
    pub output_file: FilePath,
}

/// What preparing a run gives.
#[derive(Debug, PartialEq, Eq)]
pub enum RepomixRun {
    /// The run is ready to start
    Command(RepomixCommand),
    /// A download has been started and is to be carried through first
    Download,
}

/// The mathematical value of a [`RepomixRun`].
pub enum PreparedView {
    Command {
        entry: PathView,
        args: Seq<Seq<char>>,
        environment: Seq<(Seq<char>, Seq<char>)>,
        output_file: PathView,
    },
    Download,
}

/// The view of what preparing a run gives, or of its error.
pub open spec fn prepared_view(r: Result<RepomixRun, String>) -> Result<PreparedView, Seq<char>> {
    match r {
        Ok(RepomixRun::Command(c)) => Ok(
            PreparedView::Command {
                entry: c.entry@,
                args: text::texts(c.args@),
                environment: pairs(c.environment@),
                output_file: c.output_file@,
            },
        ),
        Ok(RepomixRun::Download) => Ok(PreparedView::Download),
        Err(e) => Err(e@),
    }
}

/// What preparing a run does: the manager afterwards, and what it gives.
pub open spec fn prepared(
    v: RepomixView,
    files: Seq<PathView>,
    options: RepomixOptions,
    dir: PathView,
    temp_dir: PathView,
    process_id: u32,
    entry_exists: bool,
    platform: Platform,
) -> (RepomixView, Result<PreparedView, Seq<char>>) {
    if files.len() == 0 {
        (v, Err("No files selected for processing"@))
    } else {
        let (w, found) = ensured(v, entry_exists);
        (
            w,
            match found {
                Err(e) => Err(e),
                Ok(EnsuredView::Download) => Ok(PreparedView::Download),
                Ok(EnsuredView::Entry(entry)) => if included(files, dir, platform.sep()).len()
                    == 0 {
                    Err(
                        if files.len() > 1000 {
                            "Error: No valid directory patterns could be created"@
                        } else {
                            "Error: No valid files to process after security validation"@
                        },
                    )
                } else {
                    Ok(
                        PreparedView::Command {
                            entry,
                            args: isolated_arguments(
                                files,
                                options,
                                dir,
                                process_id,
                                platform.sep(),
                            ),
                            environment: environment(temp_dir, platform),
                            output_file: output_path(dir, process_id),
                        },
                    )
                },
            },
        )
    }
}

/// The warning on a file that is left out of a run. Among `many` files these are the files outside
/// of the working directory and those with an unsafe path, and else those with a comma in their
/// path.
pub open spec fn file_warning(
    file: PathView,
    dir: PathView,
    sep: Seq<char>,
    many: bool,
) -> Option<Seq<char>> {
    if many {
        match path::relative_to(file, dir) {
            None => Some(
                "Warning: Skipping file outside working directory: "@ + path::path_text(file, sep),
            ),
            Some(rel) => if file_utils::is_safe_argument(path::path_text(rel, sep)) {
                None
            } else {
                Some("Warning: Skipping invalid file path: "@ + path::path_text(rel, sep))
            },
        }
    } else {
        match file_utils::valid_argument(file, dir, sep) {
            Some(s) => if text::contains_seq(s, ","@) {
                Some("Warning: Skipping file with comma in filename (security): "@ + s)
            } else {
                None
            },
            None => None,
        }
    }
}

/// The warnings on the files that are left out of the arguments of a run.
pub open spec fn argument_warnings(files: Seq<PathView>, dir: PathView, sep: Seq<char>) -> Seq<
    Seq<char>,
> {
    files.filter_map(|f: PathView| file_warning(f, dir, sep, files.len() > 1000))
}

/// The warning on a file that is left out of a run.
fn warn_of_file(file: &FilePath, dir: &FilePath, sep: &str, many: bool) -> (r: Option<String>)
    ensures
        match r {
            Some(warning) => file_warning(file@, dir@, sep@, many) == Some(warning@),
            None => file_warning(file@, dir@, sep@, many) is None,
        },
{
    if many {
        match file.strip_prefix(dir) {
            None => {
                let shown = file.to_text(sep);
                Some(
                    text::concat2(
                        "Warning: Skipping file outside working directory: ",
                        shown.as_str(),
                    ),
                )
            },
            Some(rel) => {
                let shown = rel.to_text(sep);
                if file_utils::safe_argument(shown.as_str()) {
                    None
                } else {
                    Some(text::concat2("Warning: Skipping invalid file path: ", shown.as_str()))
                }
            },
        }
    } else {
        match file_utils::validate_file_path(file, dir, sep) {
            Some(s) => {
                if text::contains_text(s.as_str(), ",") {
                    Some(
                        text::concat2(
                            "Warning: Skipping file with comma in filename (security): ",
                            s.as_str(),
                        ),
                    )
                } else {
                    None
                }
            },
            None => None,
        }
    }
}

/// What is found of the output file after a run.
#[derive(Debug, PartialEq, Eq)]
pub enum RepomixOutput {
    /// There is no output file
    Missing,
    /// The output file cannot be read
    Unreadable,
    /// The contents of the output file
    Found(String),
}

/// What a failed run wrote, on both of its outputs.
pub open spec fn run_error(stdout: Seq<char>, stderr: Seq<char>) -> Seq<char> {
    if stderr.len() > 0 && stdout.len() > 0 {
        "stderr: "@ + stderr + " | stdout: "@ + stdout
    } else if stderr.len() > 0 {
        stderr
    } else if stdout.len() > 0 {
        stdout
    } else {
        "Command failed with no error output"@
    }
}

/// The directory structure, laid out as the output format asks.
pub open spec fn tree_section(format: OutputFormat, tree_text: Seq<char>) -> Seq<char> {
    match format {
        OutputFormat::Xml => "<directory_structure>\n"@ + tree_text
            + "</directory_structure>\n\n"@,
        OutputFormat::Markdown => "## Directory Structure\n\n```\n"@ + tree_text + "\n```\n\n"@,
        OutputFormat::PlainText => "Directory Structure:\n"@ + tree_text + "\n"@,
    }
}

/// The text that a run puts on the clipboard.
pub open spec fn clipboard_text(
    content: Seq<char>,
    options: RepomixOptions,
    t: TreeView,
    root: PathView,
    size: nat,
) -> Seq<char> {
    if options.file_tree {
        tree_section(options.output_format, file_utils::tree_text(t, root, size)) + content
    } else {
        content
    }
}

/// Adds a variable and its value.
fn push_variable(list: &mut Vec<(String, String)>, name: &str, value: &str)
    ensures
        pairs(final(list)@) == pairs(old(list)@).push((name@, value@)),
{
    let ghost before = pairs(list@);
    list.push((name.to_string(), value.to_string()));
    assert(pairs(list@) =~= before.push((name@, value@)));
}

impl Repomix {
    /// Gets the path that includes node but is otherwise minimal.
    pub fn get_node_path(&self, platform: Platform) -> (r: &'static str)
        ensures
            r@ == node_path(platform),
    {
        match platform {
            Platform::Windows =>
                "C:\\Program Files\\nodejs;C:\\Program Files (x86)\\nodejs;C:\\Windows\\System32",
            _ => "/usr/local/bin:/usr/bin:/bin:/opt/homebrew/bin",
        }
    }

    /// Creates an isolated environment for repomix execution.
    pub fn create_isolated_environment(&self, temp_dir: &FilePath, platform: Platform) -> (r: Vec<
        (String, String),
    >)
        ensures
            pairs(r@) == environment(temp_dir@, platform),
    {
        let home = temp_dir.child("siff-fake-home").to_text(platform.separator());
        let mut env: Vec<(String, String)> = Vec::new();
        push_variable(&mut env, "NODE_ENV", "production");
        push_variable(&mut env, "NO_UPDATE_NOTIFIER", "1");
        push_variable(&mut env, "NO_COLOR", "1");
        push_variable(&mut env, "HOME", home.as_str());
        push_variable(&mut env, "USERPROFILE", home.as_str());
        push_variable(&mut env, "XDG_CONFIG_HOME", home.as_str());
        push_variable(&mut env, "APPDATA", home.as_str());
        push_variable(&mut env, "PATH", self.get_node_path(platform));
        assert(pairs(env@) =~= environment(temp_dir@, platform));
        env
    }

    /// Prepares a run of repomix with complete isolation and siff only configuration.
    /// `entry_exists` says whether the entry point is still there. Where repomix has to be
    /// downloaded first, the run is to be prepared again afterwards.
    pub fn run_isolated_repomix(
        &mut self,
        selected_files: &Vec<FilePath>,
        options: &RepomixOptions,
        working_directory: &FilePath,
        temp_dir: &FilePath,
        process_id: u32,
        entry_exists: bool,
        platform: Platform,
    ) -> (r: Result<RepomixRun, String>)
        ensures
            (final(self)@, prepared_view(r)) == prepared(
                old(self)@,
                path::paths(selected_files@),
                *options,
                working_directory@,
                temp_dir@,
                process_id,
                entry_exists,
                platform,
            ),
    {
        assert(path::paths(selected_files@).len() == selected_files@.len());
        if selected_files.len() == 0 {
            return Err("No files selected for processing".to_string());
        }
        let entry = match self.ensure_repomix(entry_exists) {
            Ok(Ensured::Entry(entry)) => entry,
            Ok(Ensured::Download) => {
                return Ok(RepomixRun::Download);
            },
            Err(e) => {
                return Err(e);
            },
        };
        let args = match self.build_isolated_args(
            selected_files,
            options,
            working_directory,
            process_id,
            platform.separator(),
        ) {
            Ok(args) => args,
            Err(e) => {
                return Err(e);
            },
        };
        let environment = self.create_isolated_environment(temp_dir, platform);
        let output_file = working_directory.child(output_name(process_id).as_str());
        Ok(RepomixRun::Command(RepomixCommand { entry, args, environment, output_file }))
    }

    /// The warnings on files that a run leaves out. A run that does not get as far as its arguments
    /// has none.
    pub fn run_warnings(
        &self,
        selected_files: &Vec<FilePath>,
        working_directory: &FilePath,
        entry_exists: bool,
        sep: &str,
    ) -> (r: Vec<String>)
        ensures
            text::texts(r@) == (if self@.status is Ready && entry_exists {
                argument_warnings(path::paths(selected_files@), working_directory@, sep@)
            } else {
                Seq::empty()
            }),
    {
        let ghost files = path::paths(selected_files@);
        let ghost many = files.len() > 1000;
        let ghost pick = |f: PathView| file_warning(f, working_directory@, sep@, many);
        let mut r: Vec<String> = Vec::new();
        assert(text::texts(r@) =~= Seq::empty());
        match &self.download_status {
            DownloadStatus::Ready => {},
            _ => {
                return r;
            },
        }
        if !entry_exists {
            return r;
        }
        let mut i: usize = 0;
        assert(text::texts(r@) =~= files.take(0).filter_map(pick));
        while i < selected_files.len()
            invariant
                i <= selected_files@.len(),
                files == path::paths(selected_files@),
                files.len() == selected_files@.len(),
                many == (files.len() > 1000),
                pick == (|f: PathView| file_warning(f, working_directory@, sep@, many)),
                text::texts(r@) == files.take(i as int).filter_map(pick),
            decreases selected_files.len() - i,
        {
            let ghost before = text::texts(r@);
            proof {
                files.lemma_filter_map_take_succ(pick, i as int);
            }
            if let Some(warning) = warn_of_file(
                &selected_files[i],
                working_directory,
                sep,
                selected_files.len() > 1000,
            ) {
                let ghost v = warning@;
                r.push(warning);
                assert(text::texts(r@) =~= before.push(v));
            }
            assert(text::texts(r@) =~= files.take(i + 1).filter_map(pick));
            i = i + 1;
        }
        assert(files.take(i as int) =~= files);
        r
    }

    /// What came of a run: nothing where it succeeded, and else the error with the exit code and
    /// what the run wrote.
    pub fn run_outcome(&self, run: &ProcessRun) -> (r: Result<(), String>)
        ensures
            match *run {
                ProcessRun::NotStarted => r is Err && r->Err_0@
                    == "Failed to execute isolated repomix"@,
                ProcessRun::Finished { success, code, stdout, stderr } => {
                    &&& r is Ok <==> success
                    &&& r matches Err(e) ==> e@ == "Repomix failed with exit code "@
                        + text::signed_decimal(process::exit_code(code)) + ": "@ + run_error(
                        stdout@,
                        stderr@,
                    )
                },
            },
    {
        match run {
            ProcessRun::NotStarted => Err("Failed to execute isolated repomix".to_string()),
            ProcessRun::Finished { success, code, stdout, stderr } => {
                if *success {
                    return Ok(());
                }
                let shown = text::signed_decimal_text(process::exit_code_of(*code));
                let mut e = text::concat3("Repomix failed with exit code ", shown.as_str(), ": ");
                let out = stdout.as_str();
                let err = stderr.as_str();
                if !err.is_empty() && !out.is_empty() {
                    e.append("stderr: ");
                    e.append(err);
                    e.append(" | stdout: ");
                    e.append(out);
                } else if !err.is_empty() {
                    e.append(err);
                } else if !out.is_empty() {
                    e.append(out);
                } else {
                    e.append("Command failed with no error output");
                }
                assert(e@ =~= "Repomix failed with exit code "@ + text::signed_decimal(
                    process::exit_code(*code),
                ) + ": "@ + run_error(stdout@, stderr@));
                Err(e)
            },
        }
    }

    /// The text for the clipboard, from the output file of a run: its contents, with the
    /// directory structure before them where the options ask for it.
    pub fn compose_output(
        &self,
        output: RepomixOutput,
        options: &RepomixOptions,
        file_tree: &FileTree,
        working_directory: &FilePath,
    ) -> (r: Result<String, String>)
        requires
            file_tree.wf(),
        ensures
            match output {
                RepomixOutput::Missing => r is Err && r->Err_0@
                    == "Repomix did not create the expected output file"@,
                RepomixOutput::Unreadable => r is Err && r->Err_0@
                    == "Failed to read repomix output file"@,
                RepomixOutput::Found(content) => r is Ok && r->Ok_0@ == clipboard_text(
                    content@,
                    *options,
                    file_tree@,
                    working_directory@,
                    file_tree.keys().len(),
                ),
            },
            output matches RepomixOutput::Found(content) ==> {
                let tree = file_utils::tree_text(
                    file_tree@,
                    working_directory@,
                    file_tree.keys().len(),
                );
                &&& !options.file_tree ==> r->Ok_0@ == content@
                &&& options.file_tree ==> r->Ok_0@ == packing::opening(options.output_format)
                    + tree + packing::closing(options.output_format) + content@
            },
    {
        let content = match output {
            RepomixOutput::Missing => {
                return Err("Repomix did not create the expected output file".to_string());
            },
            RepomixOutput::Unreadable => {
                return Err("Failed to read repomix output file".to_string());
            },
            RepomixOutput::Found(content) => content,
        };
        if !options.file_tree {
            return Ok(content);
        }
        let tree_text = file_utils::generate_file_tree_text(file_tree, working_directory);
        let section = match options.output_format {
            OutputFormat::Xml => text::concat3(
                "<directory_structure>\n",
                tree_text.as_str(),
                "</directory_structure>\n\n",
            ),
            OutputFormat::Markdown => text::concat3(
                "## Directory Structure\n\n```\n",
                tree_text.as_str(),
                "\n```\n\n",
            ),
            OutputFormat::PlainText => text::concat3(
                "Directory Structure:\n",
                tree_text.as_str(),
                "\n",
            ),
        };
        Ok(text::concat2(section.as_str(), content.as_str()))
    }

    /// The message of a run that ended with the text on the clipboard.
    pub fn run_message(&self, selected_files: &Vec<FilePath>) -> (r: String)
        ensures
            r@ == process::success_message(selected_files@.len()),
    {
        process::processed_message(selected_files.len())
    }

    /// Checks if node and npm are available for downloading and running repomix.
    pub fn check_build_dependencies(node_found: bool, npm_found: bool) -> (r: Result<(), String>)
        ensures
            r is Ok <==> node_found && npm_found,
            r matches Err(e) ==> e@ == (if !node_found {
                "Node.js not found. Please install Node.js to use repomix integration."@
            } else {
                "Npm not found. Please install Node.js and npm to use repomix integration."@
            }),
    {
        if !node_found {
            return Err(
                "Node.js not found. Please install Node.js to use repomix integration.".to_string(),
            );
        }
        if !npm_found {
            return Err(
                "Npm not found. Please install Node.js and npm to use repomix integration.".to_string(),
            );
        }
        Ok(())
    }
}

/// The warnings for a selection of `n` files.
pub open spec fn selection_warnings(n: nat) -> Seq<Seq<char>> {
    if n == 0 {
        seq!["No files selected for processing"@]
    } else if n > 100 {
        seq![
            "Large number of files selected ("@ + text::decimal(n)
                + "). May take a moment to process."@,
        ]
    } else {
        Seq::empty()
    }
}

/// Validates repomix options for the isolated execution.
pub fn validate_isolated_repomix_options(
    _options: &RepomixOptions,
    selected_files: &Vec<FilePath>,
) -> (r: Vec<String>)
    ensures
        text::texts(r@) == selection_warnings(selected_files@.len()),
{
    let mut warnings: Vec<String> = Vec::new();
    if selected_files.len() == 0 {
        warnings.push("No files selected for processing".to_string());
    }
    if selected_files.len() > 100 {
        let n = text::decimal_text(selected_files.len() as u128);
        warnings.push(
            text::concat3(
                "Large number of files selected (",
                n.as_str(),
                "). May take a moment to process.",
            ),
        );
    }
    assert(text::texts(warnings@) =~= selection_warnings(selected_files@.len()));
    warnings
}

/// Every name that is handed over for processing is relative to the working directory, and neither
/// climbs out of it nor looks like an option, nor holds the comma that separates the names.
pub proof fn lemma_direct_arguments_safe(
    files: Seq<PathView>,
    dir: PathView,
    sep: Seq<char>,
    name: Seq<char>,
)
    requires
        direct_arguments(files, dir, sep).contains(name),
    ensures
        file_utils::is_safe_argument(name),
        !text::contains_seq(name, ","@),
        exists|f: PathView|
            #[trigger] files.contains(f) && dir.is_prefix_of(f) && name == path::path_text(
                f.skip(dir.len() as int),
                sep,
            ),
{
    let pick = |f: PathView| direct_argument(f, dir, sep);
    files.lemma_filter_map_contains(pick, name);
    let f = choose|f: PathView| #[trigger] files.contains(f) && pick(f) == Some(name);
    assert(direct_argument(f, dir, sep) == Some(name));
}

/// No file is lost in the directory patterns: each one that has a place in them is covered by a
/// pattern with its own name, or by the wildcard of its directory.
pub proof fn lemma_patterns_cover(
    entries: Seq<(PathView, Seq<char>)>,
    sep: Seq<char>,
    e: (PathView, Seq<char>),
)
    requires
        entries.contains(e),
    ensures
        grouped_patterns(entries, sep).contains(pattern_start(e.0, sep) + e.1)
            || grouped_patterns(entries, sep).contains(pattern_start(e.0, sep) + "**"@),
    decreases entries.len(),
{
    let dir = entries[0].0;
    let group = entries.filter(in_directory(dir));
    let names = group.map_values(entry_name());
    let first = directory_patterns(dir, names, sep);
    let rest_entries = entries.drop_first().filter(not_in_directory(dir));
    let rest = grouped_patterns(rest_entries, sep);
    let all = grouped_patterns(entries, sep);
    assert(all == first + rest);
    broadcast use vstd::seq_lib::group_filter_ensures;

    if e.0 == dir {
        assert(group.contains(e));
        let k = choose|k: int| 0 <= k < group.len() && group[k] == e;
        assert(names[k] == e.1);
        if names.len() > 10 {
            assert(first[0] == pattern_start(dir, sep) + "**"@);
            assert(all[0] == first[0]);
        } else {
            assert(first[k] == pattern_start(dir, sep) + e.1);
            assert(all[k] == first[k]);
        }
    } else {
        let k = choose|k: int| 0 <= k < entries.len() && entries[k] == e;
        assert(entries.drop_first()[k - 1] == e);
        assert(rest_entries.contains(e));
        entries.drop_first().lemma_filter_len(not_in_directory(dir));
        lemma_patterns_cover(rest_entries, sep, e);
        if rest.contains(pattern_start(e.0, sep) + e.1) {
            let j = choose|j: int|
                0 <= j < rest.len() && rest[j] == pattern_start(e.0, sep) + e.1;
            assert(all[first.len() + j] == rest[j]);
        } else {
            let j = choose|j: int|
                0 <= j < rest.len() && rest[j] == pattern_start(e.0, sep) + "**"@;
            assert(all[first.len() + j] == rest[j]);
        }
    }
}

/// Every directory pattern comes from a file that has a place in the patterns.
pub proof fn lemma_patterns_come_from_files(
    entries: Seq<(PathView, Seq<char>)>,
    sep: Seq<char>,
    pattern: Seq<char>,
)
    requires
        grouped_patterns(entries, sep).contains(pattern),
    ensures
        exists|e: (PathView, Seq<char>)| #[trigger]
            entries.contains(e) && (pattern == pattern_start(e.0, sep) + e.1 || pattern
                == pattern_start(e.0, sep) + "**"@),
    decreases entries.len(),
{
    if entries.len() > 0 {
        let dir = entries[0].0;
        let group = entries.filter(in_directory(dir));
        let names = group.map_values(entry_name());
        let first = directory_patterns(dir, names, sep);
        let tail = entries.drop_first();
        let rest_entries = tail.filter(not_in_directory(dir));
        let rest = grouped_patterns(rest_entries, sep);
        tail.lemma_filter_len(not_in_directory(dir));
        assert(grouped_patterns(entries, sep) == first + rest);
        let k = choose|k: int| 0 <= k < (first + rest).len() && (first + rest)[k] == pattern;
        if k < first.len() {
            assert(pattern == first[k]);
            if names.len() > 10 {
                assert(entries.contains(entries[0]));
                assert(pattern == pattern_start(entries[0].0, sep) + "**"@);
            } else {
                assert(group.contains(group[k]));
                assert(pattern == pattern_start(dir, sep) + group[k].1);
                entries.lemma_filter_contains_rev(in_directory(dir), group[k]);
                entries.lemma_filter_pred(in_directory(dir), k);
                assert(group[k].0 == dir);
            }
        } else {
            assert(rest[k - first.len()] == pattern);
            lemma_patterns_come_from_files(rest_entries, sep, pattern);
            let e = choose|e: (PathView, Seq<char>)| #[trigger]
                rest_entries.contains(e) && (pattern == pattern_start(e.0, sep) + e.1 || pattern
                    == pattern_start(e.0, sep) + "**"@);
            tail.lemma_filter_contains_rev(not_in_directory(dir), e);
            let j = choose|j: int| 0 <= j < tail.len() && tail[j] == e;
            assert(entries[j + 1] == e);
            assert(entries.contains(e));
        }
    }
}

/// A download from its start up to the last event: the manager then, and the action that is asked
/// for, where there is one yet.
pub open spec fn download_run(v: RepomixView, events: Seq<EventView>, sep: Seq<char>) -> (
    RepomixView,
    Option<ActionView>,
)
    decreases events.len(),
{
    if events.len() == 0 {
        (v, None)
    } else {
        let (w, action) = download_next(
            download_run(v, events.drop_last(), sep).0,
            events.last(),
            sep,
        );
        (w, Some(action))
    }
}

/// Whether an event is a true report of what came of an action, where `exists_at` says which
/// files there are. After the last action of a download nothing more is reported.
pub open spec fn reports(
    action: Option<ActionView>,
    event: EventView,
    exists_at: spec_fn(PathView) -> bool,
) -> bool {
    match action {
        None => event is Start,
        Some(ActionView::CreateDirectory(_)) => event is DirectoryCreated,
        Some(ActionView::WriteFile(_, _)) => event is FileWritten,
        Some(ActionView::NpmInstall(_)) => event is NpmMissing || event is NpmFinished,
        Some(ActionView::CheckEntry(p)) => event == EventView::EntryChecked(exists_at(p)),
        Some(ActionView::CheckAlternatives(list)) => event == EventView::AlternativesChecked(
            list.map_values(exists_at),
        ),
        Some(ActionView::Done) => false,
        Some(ActionView::Abort(_, _)) => false,
    }
}

/// Whether each event of a download is a true report on the action before it.
pub open spec fn carried_out(
    v: RepomixView,
    events: Seq<EventView>,
    sep: Seq<char>,
    exists_at: spec_fn(PathView) -> bool,
) -> bool {
    forall|i: int|
        0 <= i < events.len() ==> reports(
            #[trigger] download_run(v, events.take(i), sep).1,
            events[i],
            exists_at,
        )
}

proof fn lemma_first_true_found(found: Seq<bool>)
    ensures
        first_true(found) matches Some(i) ==> 0 <= i < found.len() && found[i],
    decreases found.len(),
{
    if found.len() > 0 {
        lemma_first_true_found(found.drop_last());
    }
}

proof fn lemma_download_run(
    v: RepomixView,
    events: Seq<EventView>,
    sep: Seq<char>,
    exists_at: spec_fn(PathView) -> bool,
)
    requires
        v.status is Downloading,
        carried_out(v, events, sep, exists_at),
    ensures
        ({
            let (w, action) = download_run(v, events, sep);
            &&& w.status is Downloading
            &&& w.cache_dir == v.cache_dir
            &&& action matches Some(ActionView::CheckEntry(p)) ==> p == w.entry
            &&& action matches Some(ActionView::CheckAlternatives(list)) ==> list
                == alternative_entries(w.cache_dir)
            &&& action matches Some(ActionView::Done) ==> exists_at(w.entry)
        }),
    decreases events.len(),
{
    if events.len() > 0 {
        let rest = events.drop_last();
        let n = events.len() - 1;
        assert(events.take(n) =~= rest);
        assert(reports(download_run(v, events.take(n), sep).1, events[n], exists_at));
        assert forall|i: int| 0 <= i < rest.len() implies reports(
            #[trigger] download_run(v, rest.take(i), sep).1,
            rest[i],
            exists_at,
        ) by {
            assert(rest.take(i) =~= events.take(i));
        }
        lemma_download_run(v, rest, sep, exists_at);
        if let EventView::AlternativesChecked(found) = events.last() {
            lemma_first_true_found(found);
        }
    }
}

/// Repomix is downloaded where it is needed: where the download has not started, ensuring repomix
/// asks for it, and once it has been carried through to its end and noted, ensuring repomix gives
/// an entry point that is there.
pub proof fn lemma_ensured_by_download(
    v: RepomixView,
    entry_exists: bool,
    events: Seq<EventView>,
    sep: Seq<char>,
    exists_at: spec_fn(PathView) -> bool,
)
    requires
        v.status is NotStarted,
        carried_out(ensured(v, entry_exists).0, events, sep, exists_at),
        download_run(ensured(v, entry_exists).0, events, sep).1 == Some(ActionView::Done),
    ensures
        ensured(v, entry_exists).1 == Ok::<EnsuredView, Seq<char>>(EnsuredView::Download),
        ({
            let done = download_noted(download_run(ensured(v, entry_exists).0, events, sep).0, None);
            &&& exists_at(done.entry)
            &&& ensured(done, exists_at(done.entry)) == (
                done,
                Ok::<EnsuredView, Seq<char>>(EnsuredView::Entry(done.entry)),
            )
        }),
{
    lemma_download_run(ensured(v, entry_exists).0, events, sep, exists_at);
}

/// A cache that was deleted heals: the run that finds it missing fails, and the next one downloads
/// repomix again.
pub proof fn lemma_deleted_cache_heals(v: RepomixView, entry_exists: bool)
    requires
        v.status is Ready,
    ensures
        ensured(v, false).1 is Err,
        ensured(ensured(v, false).0, entry_exists) == (
            download_started(v),
            Ok::<EnsuredView, Seq<char>>(EnsuredView::Download),
        ),
{
}

} // verus!
