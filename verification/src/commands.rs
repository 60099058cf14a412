//! The command-line surface: parsing the requested command and its
//! arguments, and the orchestration steps of the `set` command.

use crate::error::Error;
use crate::text::str_eq;
use crate::theme::{join_path, window_of, Config};
use crate::time::{current_index_spec, division_seq, CurrentSegment, LocalNow, TimeFrame};
use vstd::prelude::*;
use vstd::string::StringExecFns;

verus! {

/// What the command line asks for.
#[derive(Debug)]
pub enum Request {
    /// Report the currently installed wallpaper.
    Get,
    /// Install a wallpaper from the given path.
    SetWallpaper { path: String, dry_run: bool },
    /// Print the usage text.
    Help,
    /// Print the version number.
    Version,
}

/// What the file system says about the argument path.
#[derive(Clone, Copy, Debug, PartialEq, Eq, Structural)]
pub enum PathInfo {
    /// The path does not exist.
    Missing,
    /// The path is a regular file.
    File,
    /// The path is a directory.
    Directory,
    /// The path exists but is neither a regular file nor a directory.
    Other,
}

/// A finished decision of the `set` command.
#[derive(Debug)]
pub enum Outcome {
    /// Nothing to install; report the message.
    Done { message: String },
    /// Install `path` as the wallpaper and report the message.
    Install { path: String, message: String },
}

/// What to do next with the argument of `set`.
#[derive(Debug)]
pub enum Step {
    /// The decision is complete.
    Finished(Outcome),
    /// The argument is a theme directory: load its config, list its
    /// wallpapers, and choose one.
    Theme,
}

/// The usage text.
pub open spec fn help_text_spec() -> Seq<char> {
    "\nUsage: dayshift <command> <args...>\n\nCommands:\n    get             Get the current wallpaper path\n    set             Set the wallpaper theme\n    help            Display this help message\n    version         Display the version number\n\nOptions:\n    -h, --help      Display the help message\n    -v, --version   Display the version number\n\nExamples:\n    dayshift get\n    dayshift set /path/to/wallpapers\n    dayshift help\n    dayshift version\n\nNote:\n    The 'set' command requires a valid directory path containing wallpapers.\n"@
}

/// The version number.
pub open spec fn version_text_spec() -> Seq<char> {
    "0.1.0"@
}

/// The confirmation message for an installed wallpaper.
pub open spec fn set_msg_spec(path: Seq<char>) -> Seq<char> {
    "Wallpaper set to: "@ + path
}

/// The confirmation message of a dry run.
pub open spec fn dry_msg_spec(path: Seq<char>) -> Seq<char> {
    "Dry Run: "@ + set_msg_spec(path)
}

/// The usage text.
pub fn help_text() -> (r: String)
    ensures
        r@ == help_text_spec(),
{
    "\nUsage: dayshift <command> <args...>\n\nCommands:\n    get             Get the current wallpaper path\n    set             Set the wallpaper theme\n    help            Display this help message\n    version         Display the version number\n\nOptions:\n    -h, --help      Display the help message\n    -v, --version   Display the version number\n\nExamples:\n    dayshift get\n    dayshift set /path/to/wallpapers\n    dayshift help\n    dayshift version\n\nNote:\n    The 'set' command requires a valid directory path containing wallpapers.\n".to_owned()
}

/// Display the help message.
pub fn help() -> (r: Result<String, Error>)
    ensures
        r is Ok,
        (r->Ok_0)@ == help_text_spec(),
{
    Ok(help_text())
}

/// Display the version number.
pub fn version() -> (r: Result<String, Error>)
    ensures
        r is Ok,
        (r->Ok_0)@ == version_text_spec(),
{
    Ok("0.1.0".to_owned())
}

/// Unknown command handler.
pub fn unknown(command: &str) -> (r: Result<String, Error>)
    ensures
        r is Err,
        r->Err_0 matches Error::UnknownCommand { command: c } && c@ == command@,
{
    Err(Error::UnknownCommand { command: command.to_owned() })
}

/// The index of the first `--dry-run` argument, if any.
pub open spec fn first_dry(args: Seq<String>) -> Option<int>
    decreases args.len(),
{
    if args.len() == 0 {
        None
    } else if args[0]@ == "--dry-run"@ {
        Some(0int)
    } else {
        match first_dry(args.drop_first()) {
            Some(j) => Some(j + 1),
            None => None,
        }
    }
}

proof fn lemma_first_dry(args: Seq<String>)
    ensures
        match first_dry(args) {
            Some(i) => 0 <= i < args.len() && args[i]@ == "--dry-run"@ && forall|j: int|
                0 <= j < i ==> (#[trigger] args[j]@) != "--dry-run"@,
            None => forall|j: int| 0 <= j < args.len() ==> (#[trigger] args[j]@) != "--dry-run"@,
        },
    decreases args.len(),
{
    if args.len() > 0 && args[0]@ != "--dry-run"@ {
        let d = args.drop_first();
        lemma_first_dry(d);
        match first_dry(d) {
            Some(j0) => {
                assert(args[j0 + 1] == d[j0]);
                assert forall|j: int| 0 <= j < j0 + 1 implies (#[trigger] args[j]@)
                    != "--dry-run"@ by {
                    if j > 0 {
                        assert(d[j - 1] == args[j]);
                        assert(d[j - 1]@ != "--dry-run"@);
                    }
                }
            },
            None => {
                assert forall|j: int| 0 <= j < args.len() implies (#[trigger] args[j]@)
                    != "--dry-run"@ by {
                    if j > 0 {
                        assert(d[j - 1] == args[j]);
                        assert(d[j - 1]@ != "--dry-run"@);
                    }
                }
            },
        }
    }
}

/// The arguments with the first `--dry-run` flag removed.
pub open spec fn cleaned_args(args: Seq<String>) -> Seq<String> {
    match first_dry(args) {
        Some(i) => args.remove(i),
        None => args,
    }
}

/// What the arguments of `set` ask for: the path argument and whether
/// the run is dry, or nothing when no path was provided.
pub open spec fn set_request_spec(args: Seq<String>) -> Option<(Seq<char>, bool)> {
    if args.len() < 3 {
        None
    } else {
        let c = cleaned_args(args);
        if c.len() < 3 {
            None
        } else {
            Some((c[2]@, first_dry(args) is Some))
        }
    }
}

/// Read the arguments of the `set` command: the whole command line,
/// with the path at position two once the `--dry-run` flag is set
/// aside.  Fails when no path is left.
pub fn set(args: &Vec<String>) -> (r: Result<(String, bool), Error>)
    ensures
        r is Ok <==> set_request_spec(args@) is Some,
        r is Ok ==> ((r->Ok_0).0@, (r->Ok_0).1) == set_request_spec(args@)->0,
        r is Err ==> r->Err_0 is NoPath,
{
    proof {
        lemma_first_dry(args@);
    }
    let n = args.len();
    if n < 3 {
        return Err(Error::NoPath);
    }
    let mut di: Option<usize> = None;
    let mut i: usize = 0;
    while i < n
        invariant_except_break
            n == args@.len(),
            i <= n,
            di is None,
            forall|j: int| 0 <= j < i ==> (#[trigger] args@[j]@) != "--dry-run"@,
        ensures
            match di {
                Some(d) => d < args@.len() && args@[d as int]@ == "--dry-run"@ && forall|j: int|
                    0 <= j < d ==> (#[trigger] args@[j]@) != "--dry-run"@,
                None => forall|j: int| 0 <= j < args@.len() ==> (#[trigger] args@[j]@)
                    != "--dry-run"@,
            },
        decreases n - i,
    {
        if str_eq(args[i].as_str(), "--dry-run") {
            di = Some(i);
            break ;
        }
        i = i + 1;
    }
    proof {
        lemma_first_dry(args@);
        match di {
            Some(d) => {
                match first_dry(args@) {
                    Some(k) => {
                        if k < d as int {
                            assert(args@[k]@ != "--dry-run"@);
                        }
                    },
                    None => {
                        assert(args@[d as int]@ != "--dry-run"@);
                    },
                }
            },
            None => {
                if first_dry(args@) is Some {
                    let k = first_dry(args@)->0;
                    assert(args@[k]@ != "--dry-run"@);
                }
            },
        }
    }
    match di {
        None => Ok((args[2].clone(), false)),
        Some(d) => {
            proof {
                args@.remove_ensures(d as int);
            }
            if n == 3 {
                return Err(Error::NoPath);
            }
            if d <= 2 {
                Ok((args[3].clone(), true))
            } else {
                Ok((args[2].clone(), true))
            }
        },
    }
}

/// Decide what to do with the argument of `set`, given what the file
/// system says about it: a missing path fails, an image file is
/// installed directly (or announced, on a dry run), a directory goes
/// on to theme loading, and anything else fails.
pub fn set_target(path: &String, dry_run: bool, info: PathInfo) -> (r: Result<Step, Error>)
    ensures
        info is Missing ==> r is Err && (r->Err_0 matches Error::PathMissing { path: p } && p@
            == path@),
        info is File && crate::helpers::is_image_path(path@) ==> r is Ok && (match r->Ok_0 {
            Step::Finished(Outcome::Done { message }) => dry_run && message@ == dry_msg_spec(
                path@,
            ),
            Step::Finished(Outcome::Install { path: q, message }) => !dry_run && q@ == path@
                && message@ == set_msg_spec(path@),
            Step::Theme => false,
        }),
        info is File && !crate::helpers::is_image_path(path@) ==> r is Err && (r->Err_0
            matches Error::NotADirectory { path: p } && p@ == path@),
        info is Directory ==> r is Ok && r->Ok_0 is Theme,
        info is Other ==> r is Err && (r->Err_0 matches Error::NotADirectory { path: p } && p@
            == path@),
{
    match info {
        PathInfo::Missing => Err(Error::PathMissing { path: path.clone() }),
        PathInfo::File => {
            if crate::helpers::is_image_file(path.as_str()) {
                let mut m = String::new();
                m.append("Wallpaper set to: ");
                m.append(path.as_str());
                if dry_run {
                    let mut dm = String::new();
                    dm.append("Dry Run: ");
                    dm.append(m.as_str());
                    Ok(Step::Finished(Outcome::Done { message: dm }))
                } else {
                    Ok(Step::Finished(Outcome::Install { path: path.clone(), message: m }))
                }
            } else {
                Err(Error::NotADirectory { path: path.clone() })
            }
        },
        PathInfo::Directory => Ok(Step::Theme),
        PathInfo::Other => Err(Error::NotADirectory { path: path.clone() }),
    }
}

/// Choose the wallpaper of the hour: divide the entry's window by the
/// number of wallpapers, resolve the segment containing the clock
/// reading, and take the wallpaper of that index.  An empty list
/// fails with `NoImages`.
pub fn choose_wallpaper(
    cfg: &Config,
    wallpapers: &Vec<String>,
    dry_run: bool,
    clock: &LocalNow,
) -> (r: Result<Outcome, Error>)
    requires
        cfg.wf(),
        wallpapers@.len() <= u32::MAX,
    ensures
        r is Ok <==> wallpapers@.len() >= 1,
        r is Err ==> r->Err_0 is NoImages,
        r is Ok ==> ({
            let frame = window_of(cfg.model(), clock.day_start_val());
            let segs = division_seq(frame, wallpapers@.len() as int);
            let idx = current_index_spec(segs, clock.val());
            let full = join_path(cfg.path@, wallpapers@[idx]@);
            match r->Ok_0 {
                Outcome::Done { message } => dry_run && message@ == dry_msg_spec(full),
                Outcome::Install { path, message } => !dry_run && path@ == full && message@
                    == set_msg_spec(full),
            }
        }),
{
    let n = wallpapers.len();
    if n == 0 {
        return Err(Error::NoImages);
    }
    let day0 = clock.day_start();
    let frame = TimeFrame::new(day0, cfg.start, cfg.duration);
    proof {
        assert(frame == window_of(cfg.model(), clock.day_start_val()));
    }
    // The division cannot fail: there is at least one wallpaper.
    let segs = match frame.divide(n as u32) {
        Ok(s) => s,
        Err(_) => vstd::pervasive::unreached(),
    };
    let nowi = clock.instant();
    let idx = segs.current_index(&nowi);
    let name = &wallpapers[idx];
    let full = crate::theme::join_under(&cfg.path, name);
    let mut m = String::new();
    m.append("Wallpaper set to: ");
    m.append(full.as_str());
    if dry_run {
        let mut dm = String::new();
        dm.append("Dry Run: ");
        dm.append(m.as_str());
        Ok(Outcome::Done { message: dm })
    } else {
        Ok(Outcome::Install { path: full, message: m })
    }
}

/// Run the command-line application: parse the command word and its
/// arguments into a request.  `get`, `set <path> [--dry-run]`, `help`
/// (`--help`, `-h`) and `version` (`--version`, `-v`) are known;
/// anything else fails with `UnknownCommand`, and an empty command
/// line with `NoCommand`.
pub fn run(args: &Vec<String>) -> (r: Result<Request, Error>)
    ensures
        args@.len() < 2 ==> r is Err && r->Err_0 is NoCommand,
        args@.len() >= 2 ==> ({
            let c = args@[1]@;
            if c == "get"@ {
                r is Ok && r->Ok_0 is Get
            } else if c == "set"@ {
                &&& r is Ok <==> set_request_spec(args@) is Some
                &&& r is Ok ==> (match r->Ok_0 {
                    Request::SetWallpaper { path, dry_run } => (path@, dry_run) == set_request_spec(
                        args@,
                    )->0,
                    _ => false,
                })
                &&& r is Err ==> r->Err_0 is NoPath
            } else if c == "help"@ || c == "--help"@ || c == "-h"@ {
                r is Ok && r->Ok_0 is Help
            } else if c == "version"@ || c == "--version"@ || c == "-v"@ {
                r is Ok && r->Ok_0 is Version
            } else {
                r is Err && (r->Err_0 matches Error::UnknownCommand { command } && command@ == c)
            }
        }),
{
    if args.len() < 2 {
        return Err(Error::NoCommand);
    }
    let command = &args[1];
    if str_eq(command.as_str(), "get") {
        Ok(Request::Get)
    } else if str_eq(command.as_str(), "set") {
        match set(args) {
            Ok((path, dry_run)) => Ok(Request::SetWallpaper { path, dry_run }),
            Err(e) => Err(e),
        }
    } else if str_eq(command.as_str(), "help") || str_eq(command.as_str(), "--help") || str_eq(
        command.as_str(),
        "-h",
    ) {
        Ok(Request::Help)
    } else if str_eq(command.as_str(), "version") || str_eq(command.as_str(), "--version")
        || str_eq(command.as_str(), "-v") {
        Ok(Request::Version)
    } else {
        Err(Error::UnknownCommand { command: command.clone() })
    }
}

} // verus!
