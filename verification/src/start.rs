//! How the program starts: elevation, the mode, and the history file.

use vstd::prelude::*;
use vstd::string::StringExecFns;

use crate::cli::{Cli, Command};
use crate::text::owned;

verus! {

/// Whether the program has to run again with more privileges.
#[derive(Clone, Copy, Debug, PartialEq, Eq, Structural)]
pub enum Elevation {
    /// It goes on as it is.
    Stay,
    /// It runs again through `sudo`.
    Rerun,
}

/// Decides whether to run again: where elevation is wanted, the user is not root yet, and the
/// program knows where it lies.
pub fn escalate_if_needed(cli: &Cli, is_root: bool, exe_known: bool) -> (r: Elevation)
    ensures
        r == (if cli.elevate && !is_root && exe_known {
            Elevation::Rerun
        } else {
            Elevation::Stay
        }),
{
    if !cli.elevate || is_root || !exe_known {
        Elevation::Stay
    } else {
        Elevation::Rerun
    }
}

/// How the program ends after it has run again.
#[derive(Debug)]
pub struct Exit {
    /// The exit code.
    pub code: i32,
    /// What is reported, if anything.
    pub message: Option<String>,
}

/// How the program ends after it has run again: with the exit code of that run, with 1 where it was
/// killed, and with 1 and a message where it could not be started at all.
pub fn exit_after_rerun(status: Result<Option<i32>, String>) -> (r: Exit)
    ensures
        match status {
            Ok(Some(code)) => r.code == code && r.message is None,
            Ok(None) => r.code == 1 && r.message is None,
            Err(e) => r.code == 1 && (r.message matches Some(m) && m@
                == "failed to re-exec via sudo: "@ + e@),
        },
{
    match status {
        Ok(Some(code)) => Exit { code, message: None },
        Ok(None) => Exit { code: 1, message: None },
        Err(e) => {
            let mut message = owned("failed to re-exec via sudo: ");
            message.append(e.as_str());
            Exit { code: 1, message: Some(message) }
        },
    }
}

/// The command that the command line asks for; the interactive mode where it names none.
pub fn chosen_command(sub: Option<Command>) -> (r: Command)
    ensures
        r == match sub {
            Some(c) => c,
            None => Command::Repl,
        },
{
    match sub {
        Some(c) => c,
        None => Command::Repl,
    }
}

/// Where the history of lines is kept.
#[derive(Debug)]
pub enum History {
    /// In the file that was asked for.
    File(String),
    /// In the file `.scanflow_history` of this directory.
    Default(String),
}

/// Where the history of lines is kept: in the file that was asked for, or else in the home
/// directory, or in the current one where there is no home.
pub fn history_path(file: Option<String>, home: Option<String>) -> (r: History)
    ensures
        match (file, home) {
            (Some(f), _) => r == History::File(f),
            (None, Some(h)) => r == History::Default(h),
            (None, None) => r matches History::Default(dir) && dir@ == "."@,
        },
{
    match file {
        Some(f) => History::File(f),
        None => match home {
            Some(h) => History::Default(h),
            None => History::Default(owned(".")),
        },
    }
}

} // verus!
