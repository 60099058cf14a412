//! The error kinds surfaced by the library.

use vstd::prelude::*;
use vstd::string::StringExecFns;

verus! {

/// Everything that can go wrong in one invocation.  Every error is
/// fatal: the caller prints one line and exits with a non-zero code.
#[derive(Debug)]
pub enum Error {
    /// No command word was given on the command line.
    NoCommand,
    /// The `set` command was given no path argument.
    NoPath,
    /// The command word matches no known command.
    UnknownCommand { command: String },
    /// The argument path does not exist.
    PathMissing { path: String },
    /// The argument exists but is neither an accepted image file nor a
    /// directory.
    NotADirectory { path: String },
    /// The config document exists and is not valid JSON, or does not
    /// match the expected shape.
    ConfigParse,
    /// A division of a window into zero segments was requested.
    EmptyDivision,
    /// The resolved theme directory has no acceptable wallpaper files.
    NoImages,
    /// The OS wallpaper interface failed; carries the platform's own
    /// description of the failure.
    OsWallpaper { detail: String },
}

impl Error {
    /// The single line an error prints before the process exits.
    pub open spec fn message_spec(self) -> Seq<char> {
        match self {
            Error::NoCommand => "Error: No command provided"@,
            Error::NoPath => "Error: No path provided\nUsage: dayshift set <path>"@,
            Error::UnknownCommand { command } => "Error: Unknown command - "@ + command@ + "\n"@
                + crate::commands::help_text_spec(),
            Error::PathMissing { path } => "Error: Path does not exist - "@ + path@,
            Error::NotADirectory { path } => "Error: Path is not a directory - "@ + path@,
            Error::ConfigParse => "Error: The theme config does not parse as expected"@,
            Error::EmptyDivision => "Error: Cannot divide a time frame into zero segments"@,
            Error::NoImages => "Error: No wallpapers found in the theme directory"@,
            Error::OsWallpaper { detail } => "Error: The OS wallpaper interface failed - "@
                + detail@,
        }
    }

    /// The single line this error prints.
    pub fn message(&self) -> (r: String)
        ensures
            r@ == self.message_spec(),
    {
        match self {
            Error::NoCommand => "Error: No command provided".to_owned(),
            Error::NoPath => "Error: No path provided\nUsage: dayshift set <path>".to_owned(),
            Error::UnknownCommand { command } => {
                let mut m = String::new();
                m.append("Error: Unknown command - ");
                m.append(command.as_str());
                m.append("\n");
                let h = crate::commands::help_text();
                m.append(h.as_str());
                m
            },
            Error::PathMissing { path } => {
                let mut m = String::new();
                m.append("Error: Path does not exist - ");
                m.append(path.as_str());
                m
            },
            Error::NotADirectory { path } => {
                let mut m = String::new();
                m.append("Error: Path is not a directory - ");
                m.append(path.as_str());
                m
            },
            Error::ConfigParse => "Error: The theme config does not parse as expected".to_owned(),
            Error::EmptyDivision => "Error: Cannot divide a time frame into zero segments"
                .to_owned(),
            Error::NoImages => "Error: No wallpapers found in the theme directory".to_owned(),
            Error::OsWallpaper { detail } => {
                let mut m = String::new();
                m.append("Error: The OS wallpaper interface failed - ");
                m.append(detail.as_str());
                m
            },
        }
    }
}

} // verus!
