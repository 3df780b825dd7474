use siff::backend_task::{answer, BackendTask, Execution};
use siff::cli::{
    check_backend_availability, check_directory, choose_backend, installation_advice, startup_info,
};
use siff::clipboard::{copy_outcome, get_clipboard_command, get_linux_clipboard_command};
use siff::file_utils::{add_entry, new_tree};
use siff::path::{Component, FilePath};
use siff::platform::Platform;
use siff::process::ProcessRun;
use siff::repomix_integration::{
    npm_arguments, validate_isolated_repomix_options, DownloadAction, DownloadEvent, DownloadStatus, Ensured,
    Repomix, RepomixOutput, RepomixRun,
};
use siff::types::{Backend, OutputFormat, RepomixOptions};
use siff::yek_integration::{validate_yek_options, InstallAction, InstallEvent, Yek, YekInstall};

fn rooted(names: &[&str]) -> FilePath {
    let mut components = vec![Component::RootDir];
    for name in names {
        components.push(Component::Normal(name.to_string()));
    }
    FilePath { components }
}

fn numbered(dir: &[&str], n: usize) -> Vec<FilePath> {
    (0..n).map(|i| rooted(dir).child(&format!("f{}.rs", i))).collect()
}

fn finished(success: bool, code: Option<i32>, stdout: &str, stderr: &str) -> ProcessRun {
    ProcessRun::Finished { success, code, stdout: stdout.to_string(), stderr: stderr.to_string() }
}

#[test]
fn backend_choice() {
    assert_eq!(
        choose_backend(true, true, None),
        Err("Error: Cannot specify both --yek and --repomix".to_string())
    );
    assert_eq!(choose_backend(true, false, Some(Backend::Repomix)), Ok(Backend::Yek));
    assert_eq!(choose_backend(false, true, Some(Backend::Yek)), Ok(Backend::Repomix));
    assert_eq!(choose_backend(false, false, Some(Backend::Yek)), Ok(Backend::Yek));
    assert_eq!(choose_backend(false, false, None), Ok(Backend::Repomix));
}

#[test]
fn directory_check() {
    assert_eq!(check_directory(true, true, "/tmp"), Ok(()));
    assert_eq!(check_directory(false, false, "/x"), Err("Directory does not exist: /x".to_string()));
    assert_eq!(check_directory(true, false, "/x"), Err("Path is not a directory: /x".to_string()));
}

#[test]
fn availability_check() {
    assert_eq!(check_backend_availability(Backend::Yek, None), Ok(()));
    assert_eq!(check_backend_availability(Backend::Repomix, Some("no npm")), Err("no npm".to_string()));
    assert_eq!(
        check_backend_availability(Backend::Yek, Some("no cargo")),
        Err("Yek backend failed: no cargo".to_string())
    );
    assert_eq!(installation_advice(Backend::Repomix).len(), 7);
    assert_eq!(installation_advice(Backend::Yek)[3], "  cargo install --force siff");
    assert_eq!(startup_info(Backend::Yek, "/tmp")[1], "Backend: Yek");
    assert_eq!(startup_info(Backend::Yek, "/tmp")[2], "Target directory: /tmp");
}

#[test]
fn clipboard_commands() {
    assert_eq!(get_clipboard_command(Platform::MacOs), Ok(vec!["pbcopy"]));
    assert_eq!(get_clipboard_command(Platform::Windows), Ok(vec!["clip"]));
    assert_eq!(
        get_clipboard_command(Platform::Other),
        Err("Unsupported platform for clipboard operations".to_string())
    );
    assert_eq!(get_linux_clipboard_command(true, true), Ok(vec!["xclip", "-selection", "clipboard"]));
    assert_eq!(get_linux_clipboard_command(false, true), Ok(vec!["xsel", "--clipboard", "--input"]));
    assert!(get_linux_clipboard_command(false, false).unwrap_err().starts_with("No clipboard utility found."));
    assert_eq!(copy_outcome(true, ""), Ok("Content copied to clipboard".to_string()));
    assert_eq!(copy_outcome(false, "bad"), Err("Clipboard command failed: bad".to_string()));
}

#[test]
fn repomix_starts_where_its_entry_is_missing() {
    let cache = rooted(&["cache"]);
    let mut ready = Repomix::new(Some(&cache), true);
    assert_eq!(ready.download_status(), &DownloadStatus::Ready);
    assert!(!ready.start_background_download());
    let mut fresh = Repomix::new(Some(&cache), false);
    assert_eq!(fresh.download_status(), &DownloadStatus::NotStarted);
    assert!(fresh.start_background_download());
    assert!(!fresh.start_background_download());
    assert_eq!(fresh.download_status(), &DownloadStatus::Downloading("Initializing...".to_string()));
    assert_eq!(
        fresh.entry().to_text("/"),
        "/cache/siff/repomix/1.11.1/node_modules/repomix/bin/repomix.cjs"
    );
    assert_eq!(Repomix::cache_directory(None).to_text("/"), "./siff/repomix/1.11.1");
}

#[test]
fn repomix_download_ends_with_its_outcome() {
    let mut r = Repomix::new(None, false);
    assert!(!r.update_background_download(None));
    r.start_background_download();
    assert!(r.is_downloading());
    assert!(r.update_background_download(Some("offline".to_string())));
    assert_eq!(r.download_status(), &DownloadStatus::Failed("offline".to_string()));
    assert!(r.start_background_download());
    assert!(r.update_background_download(None));
    assert_eq!(r.download_status(), &DownloadStatus::Ready);
}

#[test]
fn repomix_is_ensured_before_a_run() {
    let mut r = Repomix::new(None, false);
    assert_eq!(r.ensure_repomix(true), Ok(Ensured::Download));
    assert_eq!(r.download_status(), &DownloadStatus::Downloading("Initializing...".to_string()));
    assert_eq!(r.ensure_repomix(true), Err("Repomix is still downloading: Initializing...".to_string()));
    r.update_background_download(Some("x".to_string()));
    assert_eq!(r.ensure_repomix(true), Err("Repomix download failed: x".to_string()));
    r.start_background_download();
    r.update_background_download(None);
    let entry = r.entry().clone();
    assert_eq!(r.ensure_repomix(true), Ok(Ensured::Entry(entry)));
    assert_eq!(
        r.ensure_repomix(false),
        Err("Repomix cache was deleted, restarting download...".to_string())
    );
    assert_eq!(r.download_status(), &DownloadStatus::NotStarted);
}

#[test]
fn repomix_download_steps() {
    let mut r = Repomix::new(Some(&rooted(&["c"])), false);
    let dir = rooted(&["c", "siff", "repomix", "1.11.1"]);
    assert_eq!(r.download_step(DownloadEvent::Start, "/"), DownloadAction::CreateDirectory(dir.clone()));
    match r.download_step(DownloadEvent::DirectoryCreated(true), "/") {
        DownloadAction::WriteFile(place, content) => {
            assert_eq!(place, dir.child("package.json"));
            assert!(content.contains("\"repomix\": \"1.11.1\""));
        }
        other => panic!("{:?}", other),
    }
    assert_eq!(r.download_step(DownloadEvent::FileWritten(None), "/"), DownloadAction::NpmInstall(dir.clone()));
    assert_eq!(r.download_status(), &DownloadStatus::Downloading("Installing repomix 1.11.1...".to_string()));
    let entry = r.entry().clone();
    assert_eq!(
        r.download_step(DownloadEvent::NpmFinished(true, String::new(), String::new()), "/"),
        DownloadAction::CheckEntry(entry)
    );
    assert_eq!(r.download_step(DownloadEvent::EntryChecked(true), "/"), DownloadAction::Done);
}

#[test]
fn repomix_download_failures() {
    let mut r = Repomix::new(Some(&rooted(&["c"])), false);
    let dir = rooted(&["c", "siff", "repomix", "1.11.1"]);
    assert_eq!(
        r.download_step(DownloadEvent::DirectoryCreated(false), "/"),
        DownloadAction::Abort(None, "Failed to create repomix cache directory".to_string())
    );
    assert_eq!(
        r.download_step(DownloadEvent::NpmMissing, "/"),
        DownloadAction::Abort(None, "Failed to run npm install".to_string())
    );
    assert_eq!(
        r.download_step(DownloadEvent::NpmFinished(false, "o".to_string(), "e".to_string()), "/"),
        DownloadAction::Abort(Some(dir.clone()), "npm install failed:\nstdout: o\nstderr: e".to_string())
    );
    match r.download_step(DownloadEvent::EntryChecked(false), "/") {
        DownloadAction::CheckAlternatives(list) => assert_eq!(list.len(), 5),
        other => panic!("{:?}", other),
    }
    let found = vec![false, false, true, true, false];
    assert_eq!(r.download_step(DownloadEvent::AlternativesChecked(found), "/"), DownloadAction::Done);
    assert_eq!(r.entry(), &dir.child("node_modules").child("repomix").child("dist").child("cli.js"));
    match r.download_step(DownloadEvent::AlternativesChecked(vec![false; 5]), "/") {
        DownloadAction::Abort(Some(place), message) => {
            assert_eq!(place, dir);
            assert!(message.starts_with("Repomix installation failed, no valid entry point found. Searched: /c/"));
        }
        other => panic!("{:?}", other),
    }
}

#[test]
fn repomix_arguments_for_few_files() {
    let r = Repomix::new(None, true);
    let dir = rooted(&["w"]);
    let options = RepomixOptions { compress: true, output_format: OutputFormat::Xml, ..RepomixOptions::default() };
    let files = vec![
        rooted(&["w", "a.rs"]),
        rooted(&["w", "src", "b.rs"]),
        rooted(&["other", "c.rs"]),
        rooted(&["w", "x,y.rs"]),
        rooted(&["w", "-rf"]),
        rooted(&["w", "a..b"]),
        rooted(&["w"]),
    ];
    let args = r.build_isolated_args(&files, &options, &dir, 42, "/").unwrap();
    assert_eq!(
        args,
        vec![
            "--no-gitignore",
            "--no-default-patterns",
            "--no-directory-structure",
            "--output",
            "/w/siff-repomix-42.md",
            "--compress",
            "--style=xml",
            "--include",
            "a.rs,src/b.rs",
            "."
        ]
    );
}

#[test]
fn repomix_arguments_need_a_valid_file() {
    let r = Repomix::new(None, true);
    let dir = rooted(&["w"]);
    let options = RepomixOptions::default();
    assert_eq!(
        r.build_isolated_args(&vec![rooted(&["other", "c.rs"])], &options, &dir, 1, "/"),
        Err("Error: No valid files to process after security validation".to_string())
    );
    assert_eq!(
        r.build_isolated_args(&numbered(&["other"], 1001), &options, &dir, 1, "/"),
        Err("Error: No valid directory patterns could be created".to_string())
    );
}

#[test]
fn repomix_patterns_group_by_directory() {
    let r = Repomix::new(None, true);
    let dir = rooted(&["w"]);
    let mut files = numbered(&["w", "many"], 11);
    files.push(rooted(&["w", "few", "a.rs"]));
    files.push(rooted(&["w", "top.rs"]));
    files.push(rooted(&["w", "few", "b.rs"]));
    files.push(rooted(&["elsewhere", "c.rs"]));
    assert_eq!(
        r.build_directory_patterns(&files, &dir, "/"),
        vec!["many/**", "few/a.rs", "few/b.rs", "top.rs"]
    );
    assert_eq!(r.build_directory_patterns(&numbered(&["w"], 11), &dir, "/"), vec!["**"]);
    let args = r.build_isolated_args(&numbered(&["w", "d"], 1001), &RepomixOptions::default(), &dir, 1, "/").unwrap();
    assert_eq!(args[args.len() - 2], "d/**");
}

#[test]
fn repomix_environment_is_isolated() {
    let r = Repomix::new(None, true);
    let env = r.create_isolated_environment(&rooted(&["tmp"]), Platform::Linux);
    assert_eq!(env.len(), 8);
    assert_eq!(env[0], ("NODE_ENV".to_string(), "production".to_string()));
    assert_eq!(env[3], ("HOME".to_string(), "/tmp/siff-fake-home".to_string()));
    assert_eq!(env[7].1, "/usr/local/bin:/usr/bin:/bin:/opt/homebrew/bin");
    assert_eq!(
        r.get_node_path(Platform::Windows),
        "C:\\Program Files\\nodejs;C:\\Program Files (x86)\\nodejs;C:\\Windows\\System32"
    );
}

#[test]
fn repomix_run_is_prepared() {
    let dir = rooted(&["w"]);
    let temp = rooted(&["tmp"]);
    let options = RepomixOptions::default();
    let files = vec![rooted(&["w", "a.rs"])];
    let mut r = Repomix::new(Some(&rooted(&["c"])), true);
    let command = match r.run_isolated_repomix(&files, &options, &dir, &temp, 7, true, Platform::Linux) {
        Ok(RepomixRun::Command(command)) => command,
        other => panic!("{:?}", other),
    };
    assert_eq!(&command.entry, r.entry());
    assert_eq!(command.output_file, rooted(&["w", "siff-repomix-7.md"]));
    assert_eq!(command.args.last().unwrap(), ".");
    assert_eq!(command.environment.len(), 8);
    assert_eq!(
        r.run_isolated_repomix(&vec![], &options, &dir, &temp, 7, true, Platform::Linux),
        Err("No files selected for processing".to_string())
    );
    assert_eq!(
        r.run_isolated_repomix(&files, &options, &dir, &temp, 7, false, Platform::Linux),
        Err("Repomix cache was deleted, restarting download...".to_string())
    );
    assert_eq!(r.download_status(), &DownloadStatus::NotStarted);
}

#[test]
fn deleted_cache_is_downloaded_again() {
    let dir = rooted(&["w"]);
    let temp = rooted(&["tmp"]);
    let options = RepomixOptions::default();
    let files = vec![rooted(&["w", "a.rs"])];
    let mut r = Repomix::new(Some(&rooted(&["c"])), true);
    r.run_isolated_repomix(&files, &options, &dir, &temp, 7, false, Platform::Linux).unwrap_err();
    assert_eq!(
        r.run_isolated_repomix(&files, &options, &dir, &temp, 7, false, Platform::Linux),
        Ok(RepomixRun::Download)
    );
    r.download_step(DownloadEvent::Start, "/");
    r.download_step(DownloadEvent::DirectoryCreated(true), "/");
    r.download_step(DownloadEvent::FileWritten(None), "/");
    r.download_step(DownloadEvent::NpmFinished(true, String::new(), String::new()), "/");
    assert_eq!(r.download_step(DownloadEvent::EntryChecked(true), "/"), DownloadAction::Done);
    assert!(r.update_background_download(None));
    match r.run_isolated_repomix(&files, &options, &dir, &temp, 7, true, Platform::Linux) {
        Ok(RepomixRun::Command(command)) => assert_eq!(&command.entry, r.entry()),
        other => panic!("{:?}", other),
    }
}

#[test]
fn repomix_warnings() {
    let r = Repomix::new(None, true);
    let dir = rooted(&["w"]);
    let few = vec![rooted(&["w", "a,b.rs"]), rooted(&["x", "c.rs"]), rooted(&["w", "-d"]), rooted(&["w", "e"])];
    assert_eq!(
        r.run_warnings(&few, &dir, true, "/"),
        vec!["Warning: Skipping file with comma in filename (security): a,b.rs"]
    );
    assert!(r.run_warnings(&few, &dir, false, "/").is_empty());
    assert!(Repomix::new(None, false).run_warnings(&few, &dir, true, "/").is_empty());
    let mut many = numbered(&["w"], 1000);
    many.extend(few);
    assert_eq!(
        r.run_warnings(&many, &dir, true, "/"),
        vec![
            "Warning: Skipping file outside working directory: /x/c.rs",
            "Warning: Skipping invalid file path: -d"
        ]
    );
    assert_eq!(npm_arguments(), vec!["install", "--no-audit", "--no-fund", "--silent"]);
}

#[test]
fn yek_warns_of_many_files() {
    let yek = Yek::new(None, Platform::Linux, None).unwrap();
    let root = rooted(&["w"]);
    assert!(yek.process_warnings(&numbered(&["w"], 1000), &root, "/").is_empty());
    assert_eq!(
        yek.process_warnings(&numbered(&["w"], 1001), &root, "/"),
        vec!["Warning: Large file count (1001), processing may take some time"]
    );
    assert!(yek.process_warnings(&numbered(&["x"], 1001), &root, "/").is_empty());
    assert!(yek.process_warnings(&numbered(&["w"], 10001), &root, "/").is_empty());
}

#[test]
fn repomix_run_outcomes() {
    let r = Repomix::new(None, true);
    assert_eq!(r.run_outcome(&finished(true, Some(0), "", "")), Ok(()));
    assert_eq!(
        r.run_outcome(&ProcessRun::NotStarted),
        Err("Failed to execute isolated repomix".to_string())
    );
    assert_eq!(
        r.run_outcome(&finished(false, Some(2), "out", "err")),
        Err("Repomix failed with exit code 2: stderr: err | stdout: out".to_string())
    );
    assert_eq!(
        r.run_outcome(&finished(false, None, "", "err")),
        Err("Repomix failed with exit code -1: err".to_string())
    );
    assert_eq!(
        r.run_outcome(&finished(false, Some(1), "out", "")),
        Err("Repomix failed with exit code 1: out".to_string())
    );
    assert_eq!(
        r.run_outcome(&finished(false, Some(1), "", "")),
        Err("Repomix failed with exit code 1: Command failed with no error output".to_string())
    );
}

#[test]
fn repomix_output_with_tree() {
    let r = Repomix::new(None, true);
    let root = rooted(&["w"]);
    let mut tree = new_tree(root.clone());
    add_entry(&mut tree, &root, "src", true);
    add_entry(&mut tree, &root.child("src"), "a.rs", false);
    let found = || RepomixOutput::Found("CONTENT".to_string());
    let with = |format| RepomixOptions { file_tree: true, output_format: format, ..RepomixOptions::default() };
    assert_eq!(r.compose_output(found(), &RepomixOptions::default(), &tree, &root), Ok("CONTENT".to_string()));
    assert_eq!(
        r.compose_output(found(), &with(OutputFormat::Xml), &tree, &root),
        Ok("<directory_structure>\nsrc/\n  a.rs\n</directory_structure>\n\nCONTENT".to_string())
    );
    assert_eq!(
        r.compose_output(found(), &with(OutputFormat::Markdown), &tree, &root),
        Ok("## Directory Structure\n\n```\nsrc/\n  a.rs\n\n```\n\nCONTENT".to_string())
    );
    assert_eq!(
        r.compose_output(found(), &with(OutputFormat::PlainText), &tree, &root),
        Ok("Directory Structure:\nsrc/\n  a.rs\n\nCONTENT".to_string())
    );
    assert_eq!(
        r.compose_output(RepomixOutput::Missing, &with(OutputFormat::Xml), &tree, &root),
        Err("Repomix did not create the expected output file".to_string())
    );
    assert_eq!(
        r.compose_output(RepomixOutput::Unreadable, &with(OutputFormat::Xml), &tree, &root),
        Err("Failed to read repomix output file".to_string())
    );
    assert_eq!(r.run_message(&numbered(&["w"], 3)), "3 files processed and copied to clipboard");
}

#[test]
fn repomix_dependencies_and_warnings() {
    assert_eq!(Repomix::check_build_dependencies(true, true), Ok(()));
    assert_eq!(
        Repomix::check_build_dependencies(false, true),
        Err("Node.js not found. Please install Node.js to use repomix integration.".to_string())
    );
    assert_eq!(
        Repomix::check_build_dependencies(true, false),
        Err("Npm not found. Please install Node.js and npm to use repomix integration.".to_string())
    );
    let options = RepomixOptions::default();
    assert_eq!(
        validate_isolated_repomix_options(&options, &vec![]),
        vec!["No files selected for processing"]
    );
    assert!(validate_isolated_repomix_options(&options, &numbered(&["w"], 100)).is_empty());
    assert_eq!(
        validate_isolated_repomix_options(&options, &numbered(&["w"], 101)),
        vec!["Large number of files selected (101). May take a moment to process."]
    );
}

#[test]
fn yek_installation_steps() {
    let cache = rooted(&["c"]);
    let bin = rooted(&["c", "siff", "bin"]);
    let temp = rooted(&["t"]);
    let mut install = YekInstall::new(Some(&cache), Platform::Linux);
    assert_eq!(install.step(InstallEvent::Start), InstallAction::CreateDirectory(bin.clone()));
    assert_eq!(
        install.step(InstallEvent::DirectoryCreated(true)),
        InstallAction::CheckBinary(bin.child("yek"))
    );
    assert_eq!(install.step(InstallEvent::BinaryChecked(false)), InstallAction::CreateTempDirectory);
    assert_eq!(
        install.step(InstallEvent::TempDirectoryCreated(Some(temp.clone()))),
        InstallAction::CreateTempBin(temp.child("bin"))
    );
    match install.step(InstallEvent::TempBinCreated(true)) {
        InstallAction::RunCargo(args) => assert_eq!(
            args,
            vec!["install", "yek", "--version", "0.22.1", "--locked", "--root", "/t", "--quiet"]
        ),
        other => panic!("{:?}", other),
    }
    assert_eq!(
        install.step(InstallEvent::CargoFinished(finished(true, Some(0), "", ""))),
        InstallAction::CheckInstalled(temp.child("bin").child("yek"))
    );
    assert_eq!(
        install.step(InstallEvent::InstalledChecked(true)),
        InstallAction::Copy(temp.child("bin").child("yek"), bin.child("yek"))
    );
    assert_eq!(install.step(InstallEvent::Copied(true)), InstallAction::MakeExecutable(bin.child("yek")));
    assert_eq!(install.step(InstallEvent::MadeExecutable(None)), InstallAction::Done);
}

#[test]
fn yek_installation_failures() {
    let mut install = YekInstall::new(None, Platform::Windows);
    assert_eq!(install.step(InstallEvent::BinaryChecked(true)), InstallAction::Done);
    assert_eq!(install.step(InstallEvent::Copied(true)), InstallAction::Done);
    let fail = |m: &str| InstallAction::Fail(m.to_string());
    assert_eq!(install.step(InstallEvent::DirectoryCreated(false)), fail("Failed to create runtime directory"));
    assert_eq!(install.step(InstallEvent::TempDirectoryCreated(None)), fail("Failed to create temporary directory"));
    assert_eq!(install.step(InstallEvent::TempBinCreated(false)), fail("Failed to create temporary bin directory"));
    assert_eq!(
        install.step(InstallEvent::CargoFinished(ProcessRun::NotStarted)),
        fail("Failed to execute cargo install yek")
    );
    assert_eq!(
        install.step(InstallEvent::CargoFinished(finished(false, Some(101), "", "no network"))),
        fail("Failed to install yek: no network")
    );
    assert_eq!(
        install.step(InstallEvent::InstalledChecked(false)),
        fail("Yek binary not found after installation")
    );
    assert_eq!(install.step(InstallEvent::Copied(false)), fail("Failed to copy yek binary to final location"));
    assert_eq!(install.step(InstallEvent::MadeExecutable(Some("denied".to_string()))), fail("denied"));
}

#[test]
fn yek_instance() {
    let yek = Yek::new(Some(&rooted(&["c"])), Platform::Windows, None).unwrap();
    assert_eq!(yek.yek_binary_path, rooted(&["c", "siff", "bin", "yek.exe"]));
    assert_eq!(Yek::new(None, Platform::Linux, Some("x".to_string())), Err("x".to_string()));
}

#[test]
fn yek_arguments() {
    let yek = Yek::new(None, Platform::Linux, None).unwrap();
    let root = rooted(&["w"]);
    assert_eq!(
        yek.process_files(&vec![rooted(&["w", "a.rs"]), rooted(&["x", "b.rs"]), rooted(&["w", "s", "x,y"])], &root, "/"),
        Ok(vec!["a.rs".to_string(), "s/x,y".to_string()])
    );
    assert_eq!(
        yek.process_files(&vec![], &root, "/"),
        Err("Error: No files selected for processing".to_string())
    );
    assert_eq!(
        yek.process_files(&vec![rooted(&["x", "b.rs"])], &root, "/"),
        Err("Error: No valid files to process after security validation".to_string())
    );
    assert_eq!(
        yek.process_files(&numbered(&["w"], 10001), &root, "/"),
        Err("Error: Too many files selected (10001). Yek may fail with large file counts. Please select fewer files.".to_string())
    );
    assert_eq!(yek.process_files(&numbered(&["w"], 10000), &root, "/").unwrap().len(), 10000);
}

#[test]
fn yek_outcomes_and_warnings() {
    let yek = Yek::new(None, Platform::Linux, None).unwrap();
    assert_eq!(yek.process_outcome(finished(true, Some(0), "packed", "")), Ok("packed".to_string()));
    assert_eq!(
        yek.process_outcome(finished(false, Some(3), "packed", "bad")),
        Err("Error: Yek failed with exit code 3: bad".to_string())
    );
    assert_eq!(yek.process_outcome(ProcessRun::NotStarted), Err("Failed to execute yek binary".to_string()));
    assert_eq!(yek.run_message(&numbered(&["w"], 2)), "2 files processed and copied to clipboard");
    assert_eq!(validate_yek_options(&vec![]), vec!["No files selected"]);
    assert!(validate_yek_options(&numbered(&["w"], 1000)).is_empty());
    assert_eq!(
        validate_yek_options(&numbered(&["w"], 1001)),
        vec!["Large number of files selected, May take a moment to process"]
    );
}

#[test]
fn task_initializes_backends_once() {
    let mut task = BackendTask::new();
    assert!(task.needs_initialization(Backend::Yek));
    let failure = task.initialized(Backend::Yek, Some("no cargo"), 5).unwrap();
    assert_eq!(failure.error, Some("Failed to initialize yek: no cargo".to_string()));
    assert_eq!(failure.request_id, 5);
    assert!(!failure.success);
    assert!(task.needs_initialization(Backend::Yek));
    assert_eq!(task.initialized(Backend::Yek, None, 6), None);
    assert!(!task.needs_initialization(Backend::Yek));
    assert!(task.needs_initialization(Backend::Repomix));
}

#[test]
fn task_answers() {
    let done = answer(
        Backend::Repomix,
        Execution::Finished(Ok("ok".to_string())),
        Some("out.xml".to_string()),
        1,
    );
    assert!(done.success);
    assert_eq!(done.message, "ok");
    assert_eq!(done.output_file, Some("out.xml".to_string()));
    assert_eq!(done.error, None);
    let yek = answer(Backend::Yek, Execution::Finished(Ok("ok".to_string())), Some("out.xml".to_string()), 2);
    assert_eq!(yek.output_file, None);
    let error = answer(Backend::Yek, Execution::Finished(Err("e".to_string())), None, 3);
    assert_eq!(error.error, Some("Error: yek error e".to_string()));
    let cancelled = answer(Backend::Repomix, Execution::Cancelled, Some("f".to_string()), 4);
    assert_eq!(cancelled.error, Some("Operation cancelled".to_string()));
    assert_eq!(cancelled.output_file, None);
    let missing = answer(Backend::Repomix, Execution::NotInitialized, None, 5);
    assert_eq!(missing.error, Some("Repomix not initialized".to_string()));
    assert_eq!(missing.request_id, 5);
}

#[test]
fn foreign_names_have_no_pattern() {
    let r = Repomix::new(None, true);
    let dir = rooted(&["w"]);
    let foreign = Component::Foreign(vec![0xff], "\u{fffd}".to_string());
    let files = vec![
        dir.with_component(foreign.clone()),
        dir.with_component(foreign).child("a.rs"),
        dir.child("b.rs"),
    ];
    assert_eq!(r.build_directory_patterns(&files, &dir, "/"), vec!["\u{fffd}/a.rs", "b.rs"]);
}
