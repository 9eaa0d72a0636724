pub mod cli;
pub mod codec;
pub mod extension;
pub mod extract;
pub mod text;
pub mod walk;

use vstd::prelude::*;

verus! {

/// Errors that can occur during export and attachment extraction.
#[derive(Debug)]
pub enum ExportError {
    /// The current platform is not supported.
    UnsupportedPlatform(String),
    /// The AppleScript file was not found at the given path.
    ScriptNotFound(String),
    /// Failed to prepare a temporary file for the export script.
    TempFileError(String),
    /// The output directory path is not valid UTF-8.
    InvalidUtf8Path,
    /// Failed to launch the osascript process.
    LaunchError(String),
    /// The AppleScript exited with a non-zero status code.
    ScriptFailed(i32),
    /// Failed to decode base64 image data.
    Base64DecodeError(String),
}

/// Builds the `Account:Folder` specifier that selects a folder within one
/// particular account when the same folder name exists in several.
pub fn folder_specifier(account: &str, folder: &str) -> (r: String)
    ensures
        r@ == account@ + seq![':'] + folder@,
{
    proof {
        reveal_strlit(":");
    }
    let mut r: String = account.to_owned();
    r.append(":");
    r.append(folder);
    proof {
        assert(r@ =~= account@ + seq![':'] + folder@);
    }
    r
}

} // verus!
