//! What the command line decides before the app starts.

use vstd::prelude::*;
use vstd::string::*;

use crate::text;
use crate::types::Backend;

verus! {

/// Determines the backend to use from the flags of the command line. Without a flag it is the saved
/// default, or repomix where no configuration could be loaded.
pub fn choose_backend(yek: bool, repomix: bool, saved: Option<Backend>) -> (r: Result<
    Backend,
    String,
>)
    ensures
        r is Err <==> yek && repomix,
        r is Err ==> r->Err_0@ == "Error: Cannot specify both --yek and --repomix"@,
        r is Ok ==> r->Ok_0 == (if yek {
            Backend::Yek
        } else if repomix {
            Backend::Repomix
        } else {
            match saved {
                Some(backend) => backend,
                None => Backend::Repomix,
            }
        }),
{
    if yek && repomix {
        Err("Error: Cannot specify both --yek and --repomix".to_string())
    } else if yek {
        Ok(Backend::Yek)
    } else if repomix {
        Ok(Backend::Repomix)
    } else {
        match saved {
            Some(backend) => Ok(backend),
            None => Ok(Backend::Repomix),
        }
    }
}

/// Validates that the directory to scan exists and is a directory.
pub fn check_directory(exists: bool, is_directory: bool, directory: &str) -> (r: Result<
    (),
    String,
>)
    ensures
        r is Ok <==> exists && is_directory,
        !exists ==> r->Err_0@ == "Directory does not exist: "@ + directory@,
        exists && !is_directory ==> r->Err_0@ == "Path is not a directory: "@ + directory@,
{
    if !exists {
        Err(text::concat2("Directory does not exist: ", directory))
    } else if !is_directory {
        Err(text::concat2("Path is not a directory: ", directory))
    } else {
        Ok(())
    }
}

/// The outcome of trying out the backend before the app starts.
pub fn check_backend_availability(backend: Backend, failure: Option<&str>) -> (r: Result<(), String>)
    ensures
        r is Ok <==> failure is None,
        failure is Some ==> r->Err_0@ == (match backend {
            Backend::Repomix => failure->0@,
            Backend::Yek => "Yek backend failed: "@ + failure->0@,
        }),
{
    match failure {
        None => Ok(()),
        Some(e) => match backend {
            Backend::Repomix => Err(e.to_string()),
            Backend::Yek => Err(text::concat2("Yek backend failed: ", e)),
        },
    }
}

/// The lines that are printed at the start in verbose mode.
pub fn startup_info(backend: Backend, directory: &str) -> (r: Vec<String>)
    ensures
        text::texts(r@) == seq![
            "Starting Siff..."@,
            "Backend: "@ + backend.name(),
            "Target directory: "@ + directory@,
            "Scanning for files..."@,
        ],
{
    let mut r: Vec<String> = Vec::new();
    r.push("Starting Siff...".to_string());
    r.push(text::concat2("Backend: ", backend.display_name()));
    r.push(text::concat2("Target directory: ", directory));
    r.push("Scanning for files...".to_string());
    assert(text::texts(r@) =~= seq![
        "Starting Siff..."@,
        "Backend: "@ + backend.name(),
        "Target directory: "@ + directory@,
        "Scanning for files..."@,
    ]);
    r
}

/// The advice that is printed where the backend is not available.
pub open spec fn advice(backend: Backend) -> Seq<Seq<char>> {
    match backend {
        Backend::Repomix => seq![
            "\nSif requires Node.js and npm to run repomix."@,
            "Please install Node.js (which includes npm):"@,
            "  macOS: brew install node"@,
            "  Ubuntu/Debian: sudo apt-get install nodejs npm"@,
            "  Windows: Download from https://nodejs.org/"@,
            "\nAfter installing Node.js, Siff will automatically download and cache repomix."@,
            "This is a one-time setup and subsequent runs will be fast."@,
        ],
        Backend::Yek => seq![
            "\nSiff includes yek integration but failed to initialize."@,
            "This is likely a build or installation issue."@,
            "Please try reinstalling Siff:"@,
            "  cargo install --force siff"@,
        ],
    }
}

/// Returns the lines of advice for a backend that is not available.
pub fn installation_advice(backend: Backend) -> (r: Vec<&'static str>)
    ensures
        text::slices(r@) == advice(backend),
{
    let mut r: Vec<&'static str> = Vec::new();
    match backend {
        Backend::Repomix => {
            r.push("\nSif requires Node.js and npm to run repomix.");
            r.push("Please install Node.js (which includes npm):");
            r.push("  macOS: brew install node");
            r.push("  Ubuntu/Debian: sudo apt-get install nodejs npm");
            r.push("  Windows: Download from https://nodejs.org/");
            r.push(
                "\nAfter installing Node.js, Siff will automatically download and cache repomix.",
            );
            r.push("This is a one-time setup and subsequent runs will be fast.");
        },
        Backend::Yek => {
            r.push("\nSiff includes yek integration but failed to initialize.");
            r.push("This is likely a build or installation issue.");
            r.push("Please try reinstalling Siff:");
            r.push("  cargo install --force siff");
        },
    }
    assert(text::slices(r@) =~= advice(backend));
    r
}

} // verus!
