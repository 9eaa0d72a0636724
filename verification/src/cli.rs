//! Command-line decisions: which invocation of the export script a parsed
//! command asks for, and the messages that its failures report. Launching
//! the script and touching the filesystem is the caller's part.

use crate::text::{decimal_digits, decimal_string};
use vstd::prelude::*;

verus! {

/// A parsed command-line command.
#[derive(Debug)]
pub enum CliCommand {
    /// List all available top-level folders across all accounts.
    List,
    /// Export a folder recursively to HTML files.
    Export {
        /// The folder name to export, optionally `Account:Folder`.
        folder: String,
        /// The directory where exported notes are saved.
        output_dir: String,
    },
}

/// Checks that the export script was found, and reports the error message
/// for a missing one.
pub fn ensure_script_exists(script_path: &str, script_present: bool) -> (r: Result<(), String>)
    ensures
        r is Ok <==> script_present,
        r matches Err(m) ==> m@ == "AppleScript not found at "@ + script_path@,
{
    if script_present {
        Ok(())
    } else {
        let mut m: String = "AppleScript not found at ".to_owned();
        m.append(script_path);
        Err(m)
    }
}

/// Decides the argument list of the script invocation that `command` asks
/// for: the script path itself, then `list`, or `export` with the folder
/// and the output directory.
pub fn run(command: &CliCommand, script: &str) -> (args: Vec<String>)
    ensures
        command is List ==> args.deep_view() == seq![script@, "list"@],
        command matches CliCommand::Export { folder, output_dir } ==> args.deep_view() == seq![
            script@,
            "export"@,
            folder@,
            output_dir@,
        ],
{
    match command {
        CliCommand::List => {
            let args = vec![script.to_owned(), "list".to_owned()];
            proof {
                assert(args.deep_view() =~= seq![script@, "list"@]);
            }
            args
        },
        CliCommand::Export { folder, output_dir } => {
            let args = vec![
                script.to_owned(),
                "export".to_owned(),
                folder.clone(),
                output_dir.clone(),
            ];
            proof {
                assert(args.deep_view() =~= seq![script@, "export"@, folder@, output_dir@]);
            }
            args
        },
    }
}

/// The decimal representation of `n`, with a leading minus sign when `n`
/// is negative.
pub open spec fn signed_decimal(n: int) -> Seq<char> {
    if n < 0 {
        seq!['-'] + decimal_digits((-n) as nat)
    } else {
        decimal_digits(n as nat)
    }
}

/// The error message for a script run that exited with status `code`.
pub fn script_failed_message(code: i32) -> (m: String)
    ensures
        m@ == "AppleScript exited with status "@ + signed_decimal(code as int),
{
    proof {
        reveal_strlit("-");
    }
    let mut m: String = "AppleScript exited with status ".to_owned();
    if code < 0 {
        m.append("-");
        let magnitude: u64 = (-(code as i64)) as u64;
        assert(magnitude == -(code as int));
        let digits = decimal_string(magnitude as usize);
        m.append(digits.as_str());
        proof {
            assert(m@ =~= "AppleScript exited with status "@ + signed_decimal(code as int));
        }
    } else {
        let digits = decimal_string(code as usize);
        m.append(digits.as_str());
    }
    m
}

} // verus!
