//! Clipboard utilities shared between backends.

use vstd::prelude::*;
use vstd::string::*;

use crate::platform::Platform;
use crate::text;

verus! {

/// Gets the platform-specific clipboard command.
pub fn get_clipboard_command(platform: Platform) -> (r: Result<Vec<&'static str>, String>)
    ensures
        match platform {
            Platform::MacOs => r is Ok && text::slices(r->Ok_0@) == seq!["pbcopy"@],
            Platform::Windows => r is Ok && text::slices(r->Ok_0@) == seq!["clip"@],
            _ => r is Err && r->Err_0@ == "Unsupported platform for clipboard operations"@,
        },
{
    let mut command: Vec<&'static str> = Vec::new();
    match platform {
        Platform::MacOs => {
            command.push("pbcopy");
            assert(text::slices(command@) =~= seq!["pbcopy"@]);
            Ok(command)
        },
        Platform::Windows => {
            command.push("clip");
            assert(text::slices(command@) =~= seq!["clip"@]);
            Ok(command)
        },
        _ => Err("Unsupported platform for clipboard operations".to_string()),
    }
}

/// Picks the linux clipboard utility, from whether `xclip` and `xsel` are installed.
pub fn get_linux_clipboard_command(has_xclip: bool, has_xsel: bool) -> (r: Result<
    Vec<&'static str>,
    String,
>)
    ensures
        r is Ok <==> has_xclip || has_xsel,
        has_xclip ==> text::slices(r->Ok_0@) == seq!["xclip"@, "-selection"@, "clipboard"@],
        !has_xclip && has_xsel ==> text::slices(r->Ok_0@) == seq![
            "xsel"@,
            "--clipboard"@,
            "--input"@,
        ],
        r is Err ==> r->Err_0@
            == "No clipboard utility found. Please install xclip or xsel:\nsudo apt-get install xclip  # or\nsudo apt-get install xsel"@,
{
    let mut command: Vec<&'static str> = Vec::new();
    if has_xclip {
        command.push("xclip");
        command.push("-selection");
        command.push("clipboard");
        assert(text::slices(command@) =~= seq!["xclip"@, "-selection"@, "clipboard"@]);
        Ok(command)
    } else if has_xsel {
        command.push("xsel");
        command.push("--clipboard");
        command.push("--input");
        assert(text::slices(command@) =~= seq!["xsel"@, "--clipboard"@, "--input"@]);
        Ok(command)
    } else {
        Err(
            "No clipboard utility found. Please install xclip or xsel:\nsudo apt-get install xclip  # or\nsudo apt-get install xsel".to_string(),
        )
    }
}

/// What came of the clipboard command.
pub fn copy_outcome(success: bool, stderr: &str) -> (r: Result<String, String>)
    ensures
        r is Ok <==> success,
        r is Ok ==> r->Ok_0@ == "Content copied to clipboard"@,
        r is Err ==> r->Err_0@ == "Clipboard command failed: "@ + stderr@,
{
    if success {
        Ok("Content copied to clipboard".to_string())
    } else {
        Err(text::concat2("Clipboard command failed: ", stderr))
    }
}

} // verus!
