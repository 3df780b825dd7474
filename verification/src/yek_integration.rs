//! The yek backend: its installation, its command line and its output.

use vstd::prelude::*;
use vstd::string::*;

use crate::file_utils;
use crate::laws::packing;
use crate::laws::texts;
use crate::path;
use crate::path::{FilePath, PathView};
use crate::platform::Platform;
use crate::process;
use crate::process::ProcessRun;
use crate::text;

verus! {

/// The name of the yek binary.
pub open spec fn binary_name(platform: Platform) -> Seq<char> {
    if platform is Windows {
        "yek.exe"@
    } else {
        "yek"@
    }
}

/// The directory that holds the yek binary, below the user's cache directory, or below the
/// current one where the user has none.
pub open spec fn runtime_dir(cache_root: Option<PathView>) -> PathView {
    let root = match cache_root {
        Some(p) => p,
        None => seq![path::ComponentView::CurDir],
    };
    path::child_of(path::child_of(root, "siff"@), "bin"@)
}

/// The name of the yek binary.
fn binary_file(platform: Platform) -> (r: &'static str)
    ensures
        r@ == binary_name(platform),
{
    match platform {
        Platform::Windows => "yek.exe",
        _ => "yek",
    }
}

/// What the installation of yek asks for next.
#[derive(Debug, PartialEq, Eq)]
pub enum InstallAction {
    /// Create a directory with all its parents
    CreateDirectory(FilePath),
    /// Look whether the binary is in place
    CheckBinary(FilePath),
    /// Create a temporary directory
    CreateTempDirectory,
    /// Create the directory for binaries in the temporary directory
    CreateTempBin(FilePath),
    /// Run cargo with arguments
    RunCargo(Vec<String>),
    /// Look whether cargo left a binary
    CheckInstalled(FilePath),
    /// Copy a file to another place
    Copy(FilePath, FilePath),
    /// Let every user run the file
    MakeExecutable(FilePath),
    /// The binary is in place
    Done,
    /// The installation failed with an error
    Fail(String),
}

/// What came of the last action of the installation.
#[derive(Debug, PartialEq, Eq)]
pub enum InstallEvent {
    /// The installation starts
    Start,
    /// Whether the directory could be created
    DirectoryCreated(bool),
    /// Whether the binary is in place
    BinaryChecked(bool),
    /// The temporary directory, where it could be created
    TempDirectoryCreated(Option<FilePath>),
    /// Whether the directory for binaries could be created
    TempBinCreated(bool),
    /// What came of cargo
    CargoFinished(ProcessRun),
    /// Whether cargo left a binary
    InstalledChecked(bool),
    /// Whether the file could be copied
    Copied(bool),
    /// The error, where the file could not be made executable
    MadeExecutable(Option<String>),
}

/// The mathematical value of an [`InstallAction`].
#[verifier::ext_equal]
pub enum ActionView {
    CreateDirectory(PathView),
    CheckBinary(PathView),
    CreateTempDirectory,
    CreateTempBin(PathView),
    RunCargo(Seq<Seq<char>>),
    CheckInstalled(PathView),
    Copy(PathView, PathView),
    MakeExecutable(PathView),
    Done,
    Fail(Seq<char>),
}

impl View for InstallAction {
    type V = ActionView;

    open spec fn view(&self) -> ActionView {
        match self {
            InstallAction::CreateDirectory(p) => ActionView::CreateDirectory(p@),
            InstallAction::CheckBinary(p) => ActionView::CheckBinary(p@),
            InstallAction::CreateTempDirectory => ActionView::CreateTempDirectory,
            InstallAction::CreateTempBin(p) => ActionView::CreateTempBin(p@),
            InstallAction::RunCargo(args) => ActionView::RunCargo(text::texts(args@)),
            InstallAction::CheckInstalled(p) => ActionView::CheckInstalled(p@),
            InstallAction::Copy(from, to) => ActionView::Copy(from@, to@),
            InstallAction::MakeExecutable(p) => ActionView::MakeExecutable(p@),
            InstallAction::Done => ActionView::Done,
            InstallAction::Fail(e) => ActionView::Fail(e@),
        }
    }
}

/// The arguments with which cargo installs the pinned yek below `temp`.
pub open spec fn cargo_arguments(temp: PathView, sep: Seq<char>) -> Seq<Seq<char>> {
    seq![
        "install"@,
        "yek"@,
        "--version"@,
        "0.22.1"@,
        "--locked"@,
        "--root"@,
        path::path_text(temp, sep),
        "--quiet"@,
    ]
}

/// An installation of yek under way.
#[derive(Debug, PartialEq, Eq)]
pub struct YekInstall {
    /// The directory that holds the binary
    pub runtime_dir: FilePath,
    /// The temporary directory, once there is one
    pub temp_dir: FilePath,
    /// The operating system
    pub platform: Platform,
}

/// The step that an installation takes on an event, where it keeps the binary in `runtime` and
/// works in the temporary directory `temp`: the temporary directory afterwards, and the action.
pub open spec fn install_next(
    runtime: PathView,
    temp: PathView,
    platform: Platform,
    event: InstallEvent,
) -> (PathView, ActionView) {
    let binary = path::child_of(runtime, binary_name(platform));
    let temp_bin = path::child_of(temp, "bin"@);
    let installed = path::child_of(temp_bin, binary_name(platform));
    match event {
        InstallEvent::Start => (temp, ActionView::CreateDirectory(runtime)),
        InstallEvent::DirectoryCreated(true) => (temp, ActionView::CheckBinary(binary)),
        InstallEvent::DirectoryCreated(false) => (
            temp,
            ActionView::Fail("Failed to create runtime directory"@),
        ),
        InstallEvent::BinaryChecked(true) => (temp, ActionView::Done),
        InstallEvent::BinaryChecked(false) => (temp, ActionView::CreateTempDirectory),
        InstallEvent::TempDirectoryCreated(Some(p)) => (
            p@,
            ActionView::CreateTempBin(path::child_of(p@, "bin"@)),
        ),
        InstallEvent::TempDirectoryCreated(None) => (
            temp,
            ActionView::Fail("Failed to create temporary directory"@),
        ),
        InstallEvent::TempBinCreated(true) => (
            temp,
            ActionView::RunCargo(cargo_arguments(temp, platform.sep())),
        ),
        InstallEvent::TempBinCreated(false) => (
            temp,
            ActionView::Fail("Failed to create temporary bin directory"@),
        ),
        InstallEvent::CargoFinished(ProcessRun::NotStarted) => (
            temp,
            ActionView::Fail("Failed to execute cargo install yek"@),
        ),
        InstallEvent::CargoFinished(ProcessRun::Finished { success, stderr, .. }) => (
            temp,
            if success {
                ActionView::CheckInstalled(installed)
            } else {
                ActionView::Fail("Failed to install yek: "@ + stderr@)
            },
        ),
        InstallEvent::InstalledChecked(true) => (temp, ActionView::Copy(installed, binary)),
        InstallEvent::InstalledChecked(false) => (
            temp,
            ActionView::Fail("Yek binary not found after installation"@),
        ),
        InstallEvent::Copied(true) => (
            temp,
            if platform is Windows {
                ActionView::Done
            } else {
                ActionView::MakeExecutable(binary)
            },
        ),
        InstallEvent::Copied(false) => (
            temp,
            ActionView::Fail("Failed to copy yek binary to final location"@),
        ),
        InstallEvent::MadeExecutable(None) => (temp, ActionView::Done),
        InstallEvent::MadeExecutable(Some(e)) => (temp, ActionView::Fail(e@)),
    }
}

/// The arguments with which cargo installs the pinned yek below `temp`.
fn list_cargo_arguments(temp: &FilePath, sep: &str) -> (r: Vec<String>)
    ensures
        text::texts(r@) == cargo_arguments(temp@, sep@),
{
    let mut r: Vec<String> = Vec::new();
    r.push("install".to_string());
    r.push("yek".to_string());
    r.push("--version".to_string());
    r.push("0.22.1".to_string());
    r.push("--locked".to_string());
    r.push("--root".to_string());
    r.push(temp.to_text(sep));
    r.push("--quiet".to_string());
    assert(text::texts(r@) =~= cargo_arguments(temp@, sep@));
    r
}

impl YekInstall {
    /// An installation that has not begun, from the user's cache directory.
    pub fn new(cache_root: Option<&FilePath>, platform: Platform) -> (r: Self)
        ensures
            r.runtime_dir@ == runtime_dir(path::optional(cache_root)),
            r.temp_dir@ == Seq::<path::ComponentView>::empty(),
            r.platform == platform,
    {
        let root = match cache_root {
            Some(p) => p.clone(),
            None => FilePath::current_dir(),
        };
        YekInstall {
            runtime_dir: root.child("siff").child("bin"),
            temp_dir: FilePath::new(),
            platform,
        }
    }

    /// Takes the next step of the installation.
    pub fn step(&mut self, event: InstallEvent) -> (r: InstallAction)
        ensures
            final(self).runtime_dir == old(self).runtime_dir,
            final(self).platform == old(self).platform,
            (final(self).temp_dir@, r@) == install_next(
                old(self).runtime_dir@,
                old(self).temp_dir@,
                old(self).platform,
                event,
            ),
    {
        let name = binary_file(self.platform);
        let binary = self.runtime_dir.child(name);
        match event {
            InstallEvent::Start => InstallAction::CreateDirectory(self.runtime_dir.clone()),
            InstallEvent::DirectoryCreated(created) => {
                if created {
                    InstallAction::CheckBinary(binary)
                } else {
                    InstallAction::Fail("Failed to create runtime directory".to_string())
                }
            },
            InstallEvent::BinaryChecked(found) => {
                if found {
                    InstallAction::Done
                } else {
                    InstallAction::CreateTempDirectory
                }
            },
            InstallEvent::TempDirectoryCreated(dir) => {
                match dir {
                    Some(p) => {
                        let bin = p.child("bin");
                        self.temp_dir = p;
                        InstallAction::CreateTempBin(bin)
                    },
                    None => InstallAction::Fail("Failed to create temporary directory".to_string()),
                }
            },
            InstallEvent::TempBinCreated(created) => {
                if created {
                    InstallAction::RunCargo(
                        list_cargo_arguments(&self.temp_dir, self.platform.separator()),
                    )
                } else {
                    InstallAction::Fail("Failed to create temporary bin directory".to_string())
                }
            },
            InstallEvent::CargoFinished(run) => {
                match run {
                    ProcessRun::NotStarted => InstallAction::Fail(
                        "Failed to execute cargo install yek".to_string(),
                    ),
                    ProcessRun::Finished { success, stderr, .. } => {
                        if success {
                            InstallAction::CheckInstalled(self.temp_dir.child("bin").child(name))
                        } else {
                            InstallAction::Fail(
                                text::concat2("Failed to install yek: ", stderr.as_str()),
                            )
                        }
                    },
                }
            },
            InstallEvent::InstalledChecked(found) => {
                if found {
                    InstallAction::Copy(self.temp_dir.child("bin").child(name), binary)
                } else {
                    InstallAction::Fail("Yek binary not found after installation".to_string())
                }
            },
            InstallEvent::Copied(copied) => {
                if !copied {
                    InstallAction::Fail("Failed to copy yek binary to final location".to_string())
                } else if matches!(self.platform, Platform::Windows) {
                    InstallAction::Done
                } else {
                    InstallAction::MakeExecutable(binary)
                }
            },
            InstallEvent::MadeExecutable(error) => {
                match error {
                    None => InstallAction::Done,
                    Some(e) => InstallAction::Fail(e),
                }
            },
        }
    }
}

/// Yek integration module with runtime download.
#[derive(Debug, PartialEq, Eq)]
pub struct Yek {
    /// Path to the yek binary (downloaded on first use).
    pub yek_binary_path: FilePath,
}

/// The arguments of yek: the files that are safe to hand over.
pub open spec fn yek_arguments(files: Seq<PathView>, dir: PathView, sep: Seq<char>) -> Seq<
    Seq<char>,
> {
    files.filter_map(|f: PathView| file_utils::valid_argument(f, dir, sep))
}

/// The warnings on a run: that it takes time, with more than a thousand arguments.
pub open spec fn run_warnings(files: Seq<PathView>, dir: PathView, sep: Seq<char>) -> Seq<
    Seq<char>,
> {
    let n = yek_arguments(files, dir, sep).len();
    if files.len() <= 10000 && n > 1000 {
        seq!["Warning: Large file count ("@ + text::decimal(n)
            + "), processing may take some time"@]
    } else {
        Seq::empty()
    }
}

impl Yek {
    /// Creates a new yek instance, from the user's cache directory and from what came of the
    /// installation: the error, where it failed.
    pub fn new(cache_root: Option<&FilePath>, platform: Platform, failure: Option<String>) -> (r:
        Result<Self, String>)
        ensures
            match failure {
                Some(e) => r is Err && r->Err_0 == e,
                None => r is Ok && r->Ok_0.yek_binary_path@ == path::child_of(
                    runtime_dir(path::optional(cache_root)),
                    binary_name(platform),
                ),
            },
    {
        match failure {
            Some(e) => Err(e),
            None => {
                let install = YekInstall::new(cache_root, platform);
                Ok(Yek { yek_binary_path: install.runtime_dir.child(binary_file(platform)) })
            },
        }
    }

    /// The arguments with which yek processes the selected files.
    pub fn process_files(
        &self,
        selected_files: &Vec<FilePath>,
        root_path: &FilePath,
        sep: &str,
    ) -> (r: Result<Vec<String>, String>)
        ensures
            r is Ok <==> selected_files@.len() <= 10000 && yek_arguments(
                path::paths(selected_files@),
                root_path@,
                sep@,
            ).len() > 0,
            r matches Ok(args) ==> text::texts(args@) == yek_arguments(
                path::paths(selected_files@),
                root_path@,
                sep@,
            ),
            r matches Ok(args) ==> forall|i: int|
                0 <= i < selected_files@.len() && texts::file_argument(
                    (#[trigger] selected_files@[i])@,
                    root_path@,
                    sep@,
                ) is Some ==> text::texts(args@).contains(
                    texts::file_argument(selected_files@[i]@, root_path@, sep@)->0,
                ),
            r is Ok <==> selected_files@.len() <= 10000 && exists|i: int|
                0 <= i < selected_files@.len() && texts::file_argument(
                    (#[trigger] selected_files@[i])@,
                    root_path@,
                    sep@,
                ) is Some,
            r matches Err(e) ==> e@ == (if selected_files@.len() == 0 {
                "Error: No files selected for processing"@
            } else if selected_files@.len() > 10000 {
                "Error: Too many files selected ("@ + text::decimal(selected_files@.len())
                    + "). Yek may fail with large file counts. Please select fewer files."@
            } else {
                "Error: No valid files to process after security validation"@
            }),
    {
        let ghost files = path::paths(selected_files@);
        let ghost pick = |f: PathView| file_utils::valid_argument(f, root_path@, sep@);
        proof {
            let places = packing::lemma_yek_gets_every_file(files, root_path@, sep@);
            let all = yek_arguments(files, root_path@, sep@);
            assert forall|i: int|
                0 <= i < selected_files@.len() && texts::file_argument(
                    (#[trigger] selected_files@[i])@,
                    root_path@,
                    sep@,
                ) is Some implies all.contains(
                texts::file_argument(selected_files@[i]@, root_path@, sep@)->0,
            ) by {
                assert(files[i] == selected_files@[i]@);
                let k = places.index_of(i);
                assert(all[k] == texts::file_argument(files[places[k]], root_path@, sep@)->0);
            }
            if all.len() > 0 {
                assert(files[places[0]] == selected_files@[places[0]]@);
            }
        }
        if selected_files.len() == 0 {
            assert(files.filter_map(pick) =~= Seq::empty());
            return Err("Error: No files selected for processing".to_string());
        }
        if selected_files.len() > 10000 {
            let n = text::decimal_text(selected_files.len() as u128);
            return Err(
                text::concat3(
                    "Error: Too many files selected (",
                    n.as_str(),
                    "). Yek may fail with large file counts. Please select fewer files.",
                ),
            );
        }
        let mut args: Vec<String> = Vec::new();
        let mut i: usize = 0;
        assert(text::texts(args@) =~= files.take(0).filter_map(pick));
        while i < selected_files.len()
            invariant
                i <= selected_files@.len(),
                files == path::paths(selected_files@),
                pick == (|f: PathView| file_utils::valid_argument(f, root_path@, sep@)),
                text::texts(args@) == files.take(i as int).filter_map(pick),
            decreases selected_files.len() - i,
        {
            let ghost before = text::texts(args@);
            proof {
                files.lemma_filter_map_take_succ(pick, i as int);
            }
            if let Some(s) = file_utils::validate_file_path(&selected_files[i], root_path, sep) {
                let ghost v = s@;
                args.push(s);
                assert(text::texts(args@) =~= before.push(v));
            }
            assert(text::texts(args@) =~= files.take(i + 1).filter_map(pick));
            i = i + 1;
        }
        assert(files.take(i as int) =~= files);
        assert(text::texts(args@).len() == args@.len());
        if args.len() == 0 {
            return Err("Error: No valid files to process after security validation".to_string());
        }
        Ok(args)
    }

    /// The warning on a run with many files, where yek is run at all.
    pub fn process_warnings(
        &self,
        selected_files: &Vec<FilePath>,
        root_path: &FilePath,
        sep: &str,
    ) -> (r: Vec<String>)
        ensures
            text::texts(r@) == run_warnings(path::paths(selected_files@), root_path@, sep@),
    {
        let mut r: Vec<String> = Vec::new();
        assert(path::paths(selected_files@).len() == selected_files@.len());
        if let Ok(args) = self.process_files(selected_files, root_path, sep) {
            assert(text::texts(args@).len() == args@.len());
            if args.len() > 1000 {
                let n = text::decimal_text(args.len() as u128);
                r.push(
                    text::concat3(
                        "Warning: Large file count (",
                        n.as_str(),
                        "), processing may take some time",
                    ),
                );
            }
        }
        assert(text::texts(r@) =~= run_warnings(path::paths(selected_files@), root_path@, sep@));
        r
    }

    /// The serialized content that a run of yek gave, or its error.
    pub fn process_outcome(&self, run: ProcessRun) -> (r: Result<String, String>)
        ensures
            match run {
                ProcessRun::NotStarted => r is Err && r->Err_0@ == "Failed to execute yek binary"@,
                ProcessRun::Finished { success, code, stdout, stderr } => {
                    &&& r is Ok <==> success
                    &&& r matches Ok(content) ==> content@ == stdout@
                    &&& r matches Err(e) ==> e@ == "Error: Yek failed with exit code "@
                        + text::signed_decimal(process::exit_code(code)) + ": "@ + stderr@
                },
            },
    {
        match run {
            ProcessRun::NotStarted => Err("Failed to execute yek binary".to_string()),
            ProcessRun::Finished { success, code, stdout, stderr } => {
                if success {
                    Ok(stdout)
                } else {
                    let shown = text::signed_decimal_text(process::exit_code_of(code));
                    let mut e = text::concat3(
                        "Error: Yek failed with exit code ",
                        shown.as_str(),
                        ": ",
                    );
                    e.append(stderr.as_str());
                    Err(e)
                }
            },
        }
    }

    /// The message of a run whose output was put on the clipboard.
    pub fn run_message(&self, selected_files: &Vec<FilePath>) -> (r: String)
        ensures
            r@ == process::success_message(selected_files@.len()),
    {
        process::processed_message(selected_files.len())
    }
}

/// The warnings for a selection of `n` files.
pub open spec fn selection_warnings(n: nat) -> Seq<Seq<char>> {
    if n == 0 {
        seq!["No files selected"@]
    } else if n > 1000 {
        seq!["Large number of files selected, May take a moment to process"@]
    } else {
        Seq::empty()
    }
}

/// Validates yek options and selected files.
/// Returns a list of warnings if any issues are found.
pub fn validate_yek_options(selected_files: &Vec<FilePath>) -> (r: Vec<String>)
    ensures
        text::texts(r@) == selection_warnings(selected_files@.len()),
{
    let mut warnings: Vec<String> = Vec::new();
    if selected_files.len() == 0 {
        warnings.push("No files selected".to_string());
    }
    if selected_files.len() > 1000 {
        warnings.push("Large number of files selected, May take a moment to process".to_string());
    }
    assert(text::texts(warnings@) =~= selection_warnings(selected_files@.len()));
    warnings
}

/// An installation none of whose actions fails, on a system where the binary is missing and where
/// files are marked as executable, goes through all steps in order and ends with the binary in its
/// place.
pub proof fn lemma_install_succeeds(
    runtime: PathView,
    temp: FilePath,
    platform: Platform,
    code: Option<i32>,
    stdout: String,
    stderr: String,
)
    requires
        platform !is Windows,
    ensures
        ({
            let none = Seq::<path::ComponentView>::empty();
            let binary = path::child_of(runtime, binary_name(platform));
            let installed = path::child_of(
                path::child_of(temp@, "bin"@),
                binary_name(platform),
            );
            let run = ProcessRun::Finished { success: true, code, stdout, stderr };
            let (t1, a1) = install_next(runtime, none, platform, InstallEvent::Start);
            let (t2, a2) = install_next(
                runtime,
                t1,
                platform,
                InstallEvent::DirectoryCreated(true),
            );
            let (t3, a3) = install_next(runtime, t2, platform, InstallEvent::BinaryChecked(false));
            let (t4, a4) = install_next(
                runtime,
                t3,
                platform,
                InstallEvent::TempDirectoryCreated(Some(temp)),
            );
            let (t5, a5) = install_next(runtime, t4, platform, InstallEvent::TempBinCreated(true));
            let (t6, a6) = install_next(runtime, t5, platform, InstallEvent::CargoFinished(run));
            let (t7, a7) = install_next(
                runtime,
                t6,
                platform,
                InstallEvent::InstalledChecked(true),
            );
            let (t8, a8) = install_next(runtime, t7, platform, InstallEvent::Copied(true));
            let (t9, a9) = install_next(runtime, t8, platform, InstallEvent::MadeExecutable(None));
            &&& a1 == ActionView::CreateDirectory(runtime)
            &&& a2 == ActionView::CheckBinary(binary)
            &&& a3 is CreateTempDirectory
            &&& a4 == ActionView::CreateTempBin(path::child_of(temp@, "bin"@))
            &&& a5 == ActionView::RunCargo(cargo_arguments(temp@, platform.sep()))
            &&& a6 == ActionView::CheckInstalled(installed)
            &&& a7 == ActionView::Copy(installed, binary)
            &&& a8 == ActionView::MakeExecutable(binary)
            &&& a9 is Done
        }),
{
}

/// Every argument of yek is one of the files, relative to the root directory, and neither climbs
/// out of it nor looks like an option.
pub proof fn lemma_arguments_safe(
    files: Seq<PathView>,
    dir: PathView,
    sep: Seq<char>,
    argument: Seq<char>,
)
    requires
        yek_arguments(files, dir, sep).contains(argument),
    ensures
        file_utils::is_safe_argument(argument),
        exists|f: PathView| #[trigger]
            files.contains(f) && dir.is_prefix_of(f) && argument == path::path_text(
                f.skip(dir.len() as int),
                sep,
            ),
{
    let pick = |f: PathView| file_utils::valid_argument(f, dir, sep);
    files.lemma_filter_map_contains(pick, argument);
    let f = choose|f: PathView| #[trigger] files.contains(f) && pick(f) == Some(argument);
    assert(file_utils::valid_argument(f, dir, sep) == Some(argument));
}

} // verus!
