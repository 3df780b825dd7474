//! What is kept between sessions, and how the backends are installed and answered for.

use vstd::prelude::*;

use crate::backend_task;
use crate::backend_task::{BackendTask, ExecutionView};
use crate::cli;
use crate::config;
use crate::config::{LoadedConfig, SaveFailure, SifConfig, StoredConfig};
use crate::path;
use crate::path::{ComponentView, FilePath, PathView};
use crate::platform::Platform;
use crate::process::ProcessRun;
use crate::repomix_integration;
use crate::repomix_integration::{ActionView, EnsuredView, EventView, RepomixView, StatusView};
use crate::text;
use crate::types::{Backend, OutputFormat, RepomixOptions};
use crate::yek_integration;
use crate::yek_integration::InstallEvent;

verus! {

/// A first-time user gets a configuration with every switch off, XML and repomix, which is new; a
/// file that is there is loaded as it is; one that cannot be read or understood is an error.
pub proof fn lemma_config_is_loaded(found: SifConfig, place: PathView, sep: Seq<char>)
    ensures
        ({
            let first = config::loaded(StoredConfig::Missing, place, sep);
            &&& first is Ok
            &&& first->Ok_0.is_new
            &&& !first->Ok_0.config.compress && !first->Ok_0.config.remove_comments
                && !first->Ok_0.config.include_file_tree && first->Ok_0.config.output_format
                == OutputFormat::Xml && first->Ok_0.config.default_backend == Backend::Repomix
        }),
        config::loaded(StoredConfig::Found(found), place, sep) == Ok::<LoadedConfig, Seq<char>>(
            LoadedConfig { config: found, is_new: false },
        ),
        config::loaded(StoredConfig::Unreadable, place, sep) == Err::<LoadedConfig, Seq<char>>(
            "Error: failed to read config file: "@ + path::path_text(place, sep),
        ),
        config::loaded(StoredConfig::Corrupt, place, sep) == Err::<LoadedConfig, Seq<char>>(
            "Error: failed to parse config file"@,
        ),
{
}

/// A configuration that was saved is what the file holds, whole; one that could not be saved is an
/// error that says where it failed.
pub proof fn lemma_config_is_saved(c: SifConfig, dir: PathView, name: Seq<char>, sep: Seq<char>)
    ensures
        ({
            let place = dir.push(ComponentView::Normal(name));
            &&& config::saved(c, None, place, sep) == Ok::<StoredConfig, Seq<char>>(
                StoredConfig::Found(c),
            )
            &&& config::saved(c, Some(SaveFailure::Directory), place, sep) == Err::<
                StoredConfig,
                Seq<char>,
            >("Error: failed to create config directory: "@ + path::path_text(dir, sep))
            &&& config::saved(c, Some(SaveFailure::Serialization), place, sep) == Err::<
                StoredConfig,
                Seq<char>,
            >("Error: failed to serialize config"@)
            &&& config::saved(c, Some(SaveFailure::Write), place, sep) == Err::<
                StoredConfig,
                Seq<char>,
            >("Error: failed to write config file: "@ + path::path_text(place, sep))
        }),
{
    assert(dir.push(ComponentView::Normal(name)).drop_last() =~= dir);
}

/// Each setting of the configuration is one option, and each option that is kept is one setting; the
/// backend of the configuration stays.
pub proof fn lemma_settings_are_options(c: SifConfig, o: RepomixOptions, backend: Backend)
    ensures
        ({
            let r = c.options(backend);
            &&& r.compress == c.compress && r.remove_comments == c.remove_comments && r.file_tree
                == c.include_file_tree && r.output_format == c.output_format && r.backend
                == backend && r.output_file is None
        }),
        ({
            let r = c.with_options(o);
            &&& r.compress == o.compress && r.remove_comments == o.remove_comments
                && r.include_file_tree == o.file_tree && r.output_format == o.output_format
                && r.default_backend == c.default_backend
        }),
{
}

/// Repomix is kept in a directory of its own for the pinned version, below the user's cache
/// directory; its entry point lies in the package that npm installs there.
pub proof fn lemma_repomix_has_its_place(cache: PathView)
    ensures
        repomix_integration::repomix_dir(Some(cache)) == cache + seq![
            ComponentView::Normal("siff"@),
            ComponentView::Normal("repomix"@),
            ComponentView::Normal("1.11.1"@),
        ],
        repomix_integration::repomix_dir(None) == seq![
            ComponentView::CurDir,
            ComponentView::Normal("siff"@),
            ComponentView::Normal("repomix"@),
            ComponentView::Normal("1.11.1"@),
        ],
        repomix_integration::main_entry(cache) == cache + seq![
            ComponentView::Normal("node_modules"@),
            ComponentView::Normal("repomix"@),
            ComponentView::Normal("bin"@),
            ComponentView::Normal("repomix.cjs"@),
        ],
        repomix_integration::alternative_entries(cache).len() == 5,
        repomix_integration::alternative_entries(cache)[1] == repomix_integration::main_entry(cache),
        forall|i: int|
            0 <= i < 5 ==> (cache + seq![
                ComponentView::Normal("node_modules"@),
                ComponentView::Normal("repomix"@),
            ]).is_prefix_of(#[trigger] repomix_integration::alternative_entries(cache)[i]),
{
    let home = cache + seq![
        ComponentView::Normal("node_modules"@),
        ComponentView::Normal("repomix"@),
    ];
    assert(repomix_integration::repomix_dir(Some(cache)) =~= cache + seq![
        ComponentView::Normal("siff"@),
        ComponentView::Normal("repomix"@),
        ComponentView::Normal("1.11.1"@),
    ]);
    assert(repomix_integration::repomix_dir(None) =~= seq![
        ComponentView::CurDir,
        ComponentView::Normal("siff"@),
        ComponentView::Normal("repomix"@),
        ComponentView::Normal("1.11.1"@),
    ]);
    assert(repomix_integration::main_entry(cache) =~= cache + seq![
        ComponentView::Normal("node_modules"@),
        ComponentView::Normal("repomix"@),
        ComponentView::Normal("bin"@),
        ComponentView::Normal("repomix.cjs"@),
    ]);
    assert forall|i: int| 0 <= i < 5 implies home.is_prefix_of(
        #[trigger] repomix_integration::alternative_entries(cache)[i],
    ) by {
        let e = repomix_integration::alternative_entries(cache)[i];
        assert(e.subrange(0, home.len() as int) =~= home);
    }
}

/// The package file asks for one version: different versions have different files.
pub proof fn lemma_package_file_pins_version(one: Seq<char>, other: Seq<char>)
    requires
        repomix_integration::package_json(one) == repomix_integration::package_json(other),
    ensures
        one == other,
{
    let start = "{\n            \"name\": \"siff-repomix-cache\",\n            \"version\": \"1.0.0\",\n            \"dependencies\": {\n                \"repomix\": \""@;
    let a = repomix_integration::package_json(one);
    let b = repomix_integration::package_json(other);
    let n = start.len() as int;
    let end = "\"\n            }\n        }"@;
    assert(a.len() == n + one.len() + end.len());
    assert(b.len() == n + other.len() + end.len());
    assert(one =~= a.subrange(n, n + one.len()));
    assert(other =~= b.subrange(n, n + other.len()));
}

/// Repomix can be run where it is ready and its entry point is there. A missing entry point sends
/// the manager back to its start; a download that has not started is asked for; one that is under
/// way or has failed is an error that says so, and leaves the manager as it is.
pub proof fn lemma_repomix_is_ensured(v: RepomixView, entry_exists: bool)
    ensures
        ({
            let (w, r) = repomix_integration::ensured(v, entry_exists);
            &&& (r matches Ok(EnsuredView::Entry(p)) ==> p == v.entry && w == v)
            &&& (r matches Ok(EnsuredView::Entry(_))) <==> v.status is Ready && entry_exists
            &&& (r matches Ok(EnsuredView::Download)) <==> v.status is NotStarted
            &&& v.status is NotStarted ==> w == (RepomixView {
                status: StatusView::Downloading("Initializing..."@),
                ..v
            })
            &&& v.status is Ready && !entry_exists ==> w == (RepomixView {
                status: StatusView::NotStarted,
                ..v
            }) && r == Err::<EnsuredView, Seq<char>>(
                "Repomix cache was deleted, restarting download..."@,
            )
            &&& v.status matches StatusView::Downloading(m) ==> w == v && r == Err::<
                EnsuredView,
                Seq<char>,
            >("Repomix is still downloading: "@ + m)
            &&& v.status matches StatusView::Failed(e) ==> w == v && r == Err::<
                EnsuredView,
                Seq<char>,
            >("Repomix download failed: "@ + e)
        }),
{
}

/// The end of a download is noted where one is under way, and only then; the manager keeps its
/// place, its version and its entry point.
pub proof fn lemma_download_is_noted(v: RepomixView, error: Option<Seq<char>>)
    ensures
        ({
            let w = repomix_integration::download_noted(v, error);
            &&& !(v.status is Downloading) ==> w == v
            &&& v.status is Downloading && error is None ==> w.status is Ready
            &&& v.status is Downloading && error is Some ==> w.status == StatusView::Failed(
                error->0,
            )
            &&& w == (RepomixView { status: w.status, ..v })
        }),
{
}

/// The first of several checks that succeeded is found, and none where all failed.
pub proof fn lemma_first_true_is_first(found: Seq<bool>)
    ensures
        match repomix_integration::first_true(found) {
            Some(i) => 0 <= i < found.len() && found[i] && forall|j: int|
                0 <= j < i ==> !#[trigger] found[j],
            None => forall|j: int| 0 <= j < found.len() ==> !#[trigger] found[j],
        },
    decreases found.len(),
{
    if found.len() > 0 {
        let rest = found.drop_last();
        lemma_first_true_is_first(rest);
        assert forall|j: int| 0 <= j < rest.len() implies #[trigger] found[j] == rest[j] by {}
        assert(found[found.len() - 1] == found.last());
    }
}

/// A step of the download that fails ends it with an error. What npm has left is removed where npm
/// failed, or where it left no entry point, and the manager stays as it is.
pub proof fn lemma_failed_download_ends(
    v: RepomixView,
    error: Seq<char>,
    out: Seq<char>,
    err: Seq<char>,
    found: Seq<bool>,
    sep: Seq<char>,
)
    requires
        forall|j: int| 0 <= j < found.len() ==> !#[trigger] found[j],
    ensures
        repomix_integration::download_next(v, EventView::DirectoryCreated(false), sep) == (
            v,
            ActionView::Abort(None, "Failed to create repomix cache directory"@),
        ),
        repomix_integration::download_next(v, EventView::FileWritten(Some(error)), sep) == (
            v,
            ActionView::Abort(None, error),
        ),
        repomix_integration::download_next(v, EventView::NpmMissing, sep) == (
            v,
            ActionView::Abort(None, "Failed to run npm install"@),
        ),
        repomix_integration::download_next(v, EventView::NpmFinished(false, out, err), sep) == (
            v,
            ActionView::Abort(
                Some(v.cache_dir),
                "npm install failed:\nstdout: "@ + out + "\nstderr: "@ + err,
            ),
        ),
        repomix_integration::download_next(v, EventView::EntryChecked(false), sep) == (
            v,
            ActionView::CheckAlternatives(repomix_integration::alternative_entries(v.cache_dir)),
        ),
        ({
            let (w, a) = repomix_integration::download_next(
                v,
                EventView::AlternativesChecked(found),
                sep,
            );
            &&& w == v
            &&& a matches ActionView::Abort(Some(p), message) && p == v.cache_dir
                && "Repomix installation failed, no valid entry point found. Searched: "@
                .is_prefix_of(message)
        }),
{
    lemma_first_true_is_first(found);
    let start = "Repomix installation failed, no valid entry point found. Searched: "@;
    let message = repomix_integration::no_entry_message(v.cache_dir, sep);
    assert(message.subrange(0, start.len() as int) =~= start);
}

/// Where the expected entry point is missing, the first of the others that is there takes its place,
/// and the download is done.
pub proof fn lemma_other_entry_is_taken(v: RepomixView, found: Seq<bool>, i: int, sep: Seq<char>)
    requires
        found.len() == 5,
        0 <= i < 5,
        found[i],
        forall|j: int| 0 <= j < i ==> !#[trigger] found[j],
    ensures
        repomix_integration::download_next(v, EventView::AlternativesChecked(found), sep) == (
            RepomixView { entry: repomix_integration::alternative_entries(v.cache_dir)[i], ..v },
            ActionView::Done,
        ),
{
    lemma_first_true_is_first(found);
    assert(repomix_integration::first_true(found) == Some(i)) by {
        let k = repomix_integration::first_true(found);
        assert(k is Some);
        if k->0 < i {
            assert(!found[k->0]);
        }
        if i < k->0 {
            assert(!found[i]);
        }
    }
}

/// Yek is kept below the user's cache directory, and cargo installs the pinned version of it, with
/// its lock file, below a temporary directory.
pub proof fn lemma_yek_has_its_place(cache: PathView, temp: PathView, sep: Seq<char>)
    ensures
        yek_integration::runtime_dir(Some(cache)) == cache + seq![
            ComponentView::Normal("siff"@),
            ComponentView::Normal("bin"@),
        ],
        yek_integration::runtime_dir(None) == seq![
            ComponentView::CurDir,
            ComponentView::Normal("siff"@),
            ComponentView::Normal("bin"@),
        ],
        yek_integration::binary_name(Platform::Windows) == "yek.exe"@,
        yek_integration::binary_name(Platform::Linux) == "yek"@,
        yek_integration::binary_name(Platform::MacOs) == "yek"@,
        yek_integration::binary_name(Platform::Other) == "yek"@,
        ({
            let args = yek_integration::cargo_arguments(temp, sep);
            &&& args.len() == 8
            &&& args[0] == "install"@ && args[1] == "yek"@
            &&& args[2] == "--version"@ && args[3] == "0.22.1"@
            &&& args[4] == "--locked"@
            &&& args[5] == "--root"@ && args[6] == path::path_text(temp, sep)
            &&& args[7] == "--quiet"@
        }),
{
    assert(yek_integration::runtime_dir(Some(cache)) =~= cache + seq![
        ComponentView::Normal("siff"@),
        ComponentView::Normal("bin"@),
    ]);
    assert(yek_integration::runtime_dir(None) =~= seq![
        ComponentView::CurDir,
        ComponentView::Normal("siff"@),
        ComponentView::Normal("bin"@),
    ]);
}

/// A step of the installation of yek that fails ends it with an error that says which; a binary that
/// is there already ends it at once; and on Windows a copied binary needs nothing more.
pub proof fn lemma_yek_installation_ends(
    runtime: PathView,
    temp: PathView,
    platform: Platform,
    code: Option<i32>,
    stdout: String,
    stderr: String,
    error: String,
)
    ensures
        ({
            let next = |e: InstallEvent| yek_integration::install_next(runtime, temp, platform, e).1;
            let failed = ProcessRun::Finished { success: false, code, stdout, stderr };
            &&& next(InstallEvent::BinaryChecked(true)) is Done
            &&& next(InstallEvent::DirectoryCreated(false)) == yek_integration::ActionView::Fail(
                "Failed to create runtime directory"@,
            )
            &&& next(InstallEvent::TempDirectoryCreated(None))
                == yek_integration::ActionView::Fail("Failed to create temporary directory"@)
            &&& next(InstallEvent::TempBinCreated(false)) == yek_integration::ActionView::Fail(
                "Failed to create temporary bin directory"@,
            )
            &&& next(InstallEvent::CargoFinished(ProcessRun::NotStarted))
                == yek_integration::ActionView::Fail("Failed to execute cargo install yek"@)
            &&& next(InstallEvent::CargoFinished(failed)) == yek_integration::ActionView::Fail(
                "Failed to install yek: "@ + stderr@,
            )
            &&& next(InstallEvent::InstalledChecked(false)) == yek_integration::ActionView::Fail(
                "Yek binary not found after installation"@,
            )
            &&& next(InstallEvent::Copied(false)) == yek_integration::ActionView::Fail(
                "Failed to copy yek binary to final location"@,
            )
            &&& next(InstallEvent::MadeExecutable(Some(error)))
                == yek_integration::ActionView::Fail(error@)
            &&& platform is Windows ==> next(InstallEvent::Copied(true)) is Done
        }),
{
}

/// The answer to a request tells what came of it: the message of a run that succeeded, with the
/// output file of repomix; the error of one that failed, with the name of its backend; and that a
/// run was cancelled, or its backend not there.
pub proof fn lemma_answer_tells_outcome(
    backend: Backend,
    text: Seq<char>,
    output_file: Option<Seq<char>>,
    id: u64,
)
    ensures
        ({
            let name = match backend {
                Backend::Repomix => "repomix"@,
                Backend::Yek => "yek"@,
            };
            let good = backend_task::answered(
                backend,
                ExecutionView::Finished(Ok(text)),
                output_file,
                id,
            );
            let bad = backend_task::answered(
                backend,
                ExecutionView::Finished(Err(text)),
                output_file,
                id,
            );
            let cut = backend_task::answered(backend, ExecutionView::Cancelled, output_file, id);
            let gone = backend_task::answered(
                backend,
                ExecutionView::NotInitialized,
                output_file,
                id,
            );
            let never = backend_task::not_initialized(backend, text, id);
            &&& good.success && good.message == text && good.error is None && good.request_id == id
            &&& backend is Repomix ==> good.output_file == output_file
            &&& backend is Yek ==> good.output_file is None
            &&& !bad.success && bad.error == Some("Error: "@ + name + " error "@ + text)
                && bad.request_id == id
            &&& !cut.success && cut.error == Some("Operation cancelled"@) && cut.request_id == id
            &&& !gone.success && gone.error == Some(
                if backend is Repomix {
                    "Repomix not initialized"@
                } else {
                    "Yek not initialized"@
                },
            ) && gone.request_id == id
            &&& !never.success && never.error == Some(
                "Failed to initialize "@ + name + ": "@ + text,
            ) && never.request_id == id
            &&& bad.message.len() == 0 && bad.output_file is None
        }),
{
}

/// Initializing one backend says nothing of the other.
pub proof fn lemma_backends_are_apart(task: BackendTask, backend: Backend, other: Backend)
    ensures
        task.with(backend).has(backend),
        other != backend ==> task.with(backend).has(other) == task.has(other),
        task.has(Backend::Repomix) == task.repomix_initialized,
        task.has(Backend::Yek) == task.yek_initialized,
{
}

/// Paths are written with backslashes on Windows, and with slashes everywhere else.
pub proof fn lemma_separator(platform: Platform)
    ensures
        platform.sep() == (if platform is Windows {
            seq!['\\']
        } else {
            seq!['/']
        }),
{
    reveal_strlit("\\");
    reveal_strlit("/");
    assert("\\"@ =~= seq!['\\']);
    assert("/"@ =~= seq!['/']);
}

/// The formats follow each other in a circle, and each has a name and a flag of its own.
pub proof fn lemma_formats_are_told_apart(f: OutputFormat)
    ensures
        f.flag() == (match f {
            OutputFormat::PlainText => "--style=plain"@,
            OutputFormat::Markdown => "--style=markdown"@,
            OutputFormat::Xml => "--style=xml"@,
        }),
        f.name() == (match f {
            OutputFormat::PlainText => "Plain Text"@,
            OutputFormat::Markdown => "Markdown"@,
            OutputFormat::Xml => "XML"@,
        }),
        OutputFormat::PlainText.next() is Markdown,
        OutputFormat::Markdown.next() is Xml,
        OutputFormat::Xml.next() is PlainText,
{
}

/// While repomix is downloaded, the manager says how far it is.
pub proof fn lemma_download_says_how_far(
    v: RepomixView,
    out: Seq<char>,
    err: Seq<char>,
    sep: Seq<char>,
)
    ensures
        repomix_integration::download_next(v, EventView::Start, sep).0.status
            == StatusView::Downloading("Creating cache directory..."@),
        repomix_integration::download_next(v, EventView::DirectoryCreated(true), sep).0.status
            == StatusView::Downloading("Creating package.json..."@),
        repomix_integration::download_next(v, EventView::FileWritten(None), sep).0.status
            == StatusView::Downloading("Installing repomix "@ + v.version + "..."@),
        repomix_integration::download_next(
            v,
            EventView::NpmFinished(true, out, err),
            sep,
        ).0.status == StatusView::Downloading("Verifying installation..."@),
        repomix_integration::download_next(v, EventView::EntryChecked(true), sep) == (
            v,
            ActionView::Done,
        ),
{
}

/// The entry points that are tried where the expected one is missing, in order.
pub proof fn lemma_other_entries(dir: PathView)
    ensures
        ({
            let home = dir + seq![
                ComponentView::Normal("node_modules"@),
                ComponentView::Normal("repomix"@),
            ];
            let e = repomix_integration::alternative_entries(dir);
            &&& e[0] == home + seq![
                ComponentView::Normal("bin"@),
                ComponentView::Normal("repomix.js"@),
            ]
            &&& e[1] == home + seq![
                ComponentView::Normal("bin"@),
                ComponentView::Normal("repomix.cjs"@),
            ]
            &&& e[2] == home + seq![
                ComponentView::Normal("dist"@),
                ComponentView::Normal("cli.js"@),
            ]
            &&& e[3] == home + seq![
                ComponentView::Normal("lib"@),
                ComponentView::Normal("cli.js"@),
            ]
            &&& e[4] == home + seq![ComponentView::Normal("index.js"@)]
        }),
{
    let home = dir + seq![
        ComponentView::Normal("node_modules"@),
        ComponentView::Normal("repomix"@),
    ];
    let e = repomix_integration::alternative_entries(dir);
    assert(e[0] =~= home + seq![
        ComponentView::Normal("bin"@),
        ComponentView::Normal("repomix.js"@),
    ]);
    assert(e[1] =~= home + seq![
        ComponentView::Normal("bin"@),
        ComponentView::Normal("repomix.cjs"@),
    ]);
    assert(e[2] =~= home + seq![
        ComponentView::Normal("dist"@),
        ComponentView::Normal("cli.js"@),
    ]);
    assert(e[3] =~= home + seq![ComponentView::Normal("lib"@), ComponentView::Normal("cli.js"@)]);
    assert(e[4] =~= home + seq![ComponentView::Normal("index.js"@)]);
}

/// The error on an installation without an entry point names all the places that were tried.
pub proof fn lemma_missing_entry_names_places(dir: PathView, sep: Seq<char>, places: Seq<Seq<char>>)
    requires
        places.len() == 5,
        forall|i: int|
            0 <= i < 5 ==> #[trigger] places[i] == path::path_text(
                repomix_integration::alternative_entries(dir)[i],
                sep,
            ),
    ensures
        repomix_integration::no_entry_message(dir, sep)
            == "Repomix installation failed, no valid entry point found. Searched: "@
            + text::joined(places, ", "@),
{
    assert(repomix_integration::alternative_entries(dir).map_values(
        |p: PathView| path::path_text(p, sep),
    ) =~= places);
}

/// A download that is started says that it initializes, and changes nothing else of the manager.
pub proof fn lemma_download_starts(v: RepomixView)
    ensures
        repomix_integration::download_started(v).status == StatusView::Downloading(
            "Initializing..."@,
        ),
        repomix_integration::download_started(v).cache_dir == v.cache_dir,
        repomix_integration::download_started(v).version == v.version,
        repomix_integration::download_started(v).entry == v.entry,
{
}

/// Each step of the installation of yek that succeeds leads to the next one, on every system: the
/// directory, the look for the binary, a temporary directory with a place for binaries, cargo, the
/// look for what cargo left, and the copy of that to the place of the binary. Only the temporary
/// directory is noted on the way.
pub proof fn lemma_yek_installation_goes_on(
    runtime: PathView,
    temp: PathView,
    dir: FilePath,
    platform: Platform,
    code: Option<i32>,
    stdout: String,
    stderr: String,
)
    ensures
        ({
            let name = if platform is Windows {
                "yek.exe"@
            } else {
                "yek"@
            };
            let binary = runtime.push(ComponentView::Normal(name));
            let bin = temp.push(ComponentView::Normal("bin"@));
            let installed = bin.push(ComponentView::Normal(name));
            let next = |e: InstallEvent| yek_integration::install_next(runtime, temp, platform, e);
            let run = ProcessRun::Finished { success: true, code, stdout, stderr };
            &&& next(InstallEvent::Start) == (
                temp,
                yek_integration::ActionView::CreateDirectory(runtime),
            )
            &&& next(InstallEvent::DirectoryCreated(true)) == (
                temp,
                yek_integration::ActionView::CheckBinary(binary),
            )
            &&& next(InstallEvent::BinaryChecked(false)) == (
                temp,
                yek_integration::ActionView::CreateTempDirectory,
            )
            &&& next(InstallEvent::TempDirectoryCreated(Some(dir))) == (
                dir@,
                yek_integration::ActionView::CreateTempBin(
                    dir@.push(ComponentView::Normal("bin"@)),
                ),
            )
            &&& next(InstallEvent::TempBinCreated(true)) == (
                temp,
                yek_integration::ActionView::RunCargo(
                    yek_integration::cargo_arguments(
                        temp,
                        if platform is Windows {
                            "\\"@
                        } else {
                            "/"@
                        },
                    ),
                ),
            )
            &&& next(InstallEvent::CargoFinished(run)) == (
                temp,
                yek_integration::ActionView::CheckInstalled(installed),
            )
            &&& next(InstallEvent::InstalledChecked(true)) == (
                temp,
                yek_integration::ActionView::Copy(installed, binary),
            )
            &&& !(platform is Windows) ==> next(InstallEvent::Copied(true)) == (
                temp,
                yek_integration::ActionView::MakeExecutable(binary),
            )
            &&& next(InstallEvent::MadeExecutable(None)) == (
                temp,
                yek_integration::ActionView::Done,
            )
        }),
{
}

/// The advice for a backend that is missing tells how to get it.
pub proof fn lemma_advice_helps()
    ensures
        ({
            let r = cli::advice(Backend::Repomix);
            let y = cli::advice(Backend::Yek);
            &&& r.len() == 7
            &&& r[0] == "\nSif requires Node.js and npm to run repomix."@
            &&& r[1] == "Please install Node.js (which includes npm):"@
            &&& r[2] == "  macOS: brew install node"@
            &&& r[3] == "  Ubuntu/Debian: sudo apt-get install nodejs npm"@
            &&& r[4] == "  Windows: Download from https://nodejs.org/"@
            &&& r[5]
                == "\nAfter installing Node.js, Siff will automatically download and cache repomix."@
            &&& r[6] == "This is a one-time setup and subsequent runs will be fast."@
            &&& y.len() == 4
            &&& y[0] == "\nSiff includes yek integration but failed to initialize."@
            &&& y[1] == "This is likely a build or installation issue."@
            &&& y[2] == "Please try reinstalling Siff:"@
            &&& y[3] == "  cargo install --force siff"@
        }),
{
}

/// The error on a directory that could not be created names it, as far as there is one.
pub proof fn lemma_save_error(place: PathView, sep: Seq<char>)
    ensures
        path::parent_of(place) is None ==> config::save_error_text(
            SaveFailure::Directory,
            place,
            sep,
        ) == "Error: failed to create config directory: "@,
        path::parent_of(place) matches Some(dir) ==> config::save_error_text(
            SaveFailure::Directory,
            place,
            sep,
        ) == "Error: failed to create config directory: "@ + path::path_text(dir, sep),
        config::save_error_text(SaveFailure::Serialization, place, sep)
            == "Error: failed to serialize config"@,
        config::save_error_text(SaveFailure::Write, place, sep)
            == "Error: failed to write config file: "@ + path::path_text(place, sep),
{
    let start = "Error: failed to create config directory: "@;
    assert(start + Seq::<char>::empty() =~= start);
}

/// The backends are named with a capital where they stand alone.
pub proof fn lemma_backend_names()
    ensures
        Backend::Repomix.name() == "Repomix"@,
        Backend::Yek.name() == "Yek"@,
{
}

} // verus!
