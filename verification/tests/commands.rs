use dayshift::commands::{
    choose_wallpaper, help, run, set_target, unknown, version, Outcome, PathInfo, Request, Step,
};
use dayshift::error::Error;
use dayshift::helpers::get_wallpapers;
use dayshift::theme::Config;
use dayshift::time::LocalNow;

fn args(list: &[&str]) -> Vec<String> {
    list.iter().map(|s| String::from(*s)).collect()
}

fn at(sec: u32) -> LocalNow {
    LocalNow { day: 738000, sec }
}

fn theme_of(doc: Option<Vec<dayshift::theme::RawEntry>>, dir: &str) -> Config {
    let dir = String::from(dir);
    Config::read(doc, &dir, &at(0)).unwrap()
}

#[test]
fn test_unknown() {
    let result = unknown("unknown");
    assert!(result.is_err());
}

#[test]
fn test_help() {
    let result = help();
    assert!(result.is_ok());
}

#[test]
fn test_version() {
    let result = version();
    assert!(result.is_ok());
    assert!(result.unwrap() == "0.1.0")
}

#[test]
fn run_dispatches() {
    assert!(matches!(run(&args(&["dayshift", "get"])), Ok(Request::Get)));
    assert!(matches!(run(&args(&["dayshift", "help"])), Ok(Request::Help)));
    assert!(matches!(run(&args(&["dayshift", "--help"])), Ok(Request::Help)));
    assert!(matches!(run(&args(&["dayshift", "-h"])), Ok(Request::Help)));
    assert!(matches!(run(&args(&["dayshift", "version"])), Ok(Request::Version)));
    assert!(matches!(run(&args(&["dayshift", "--version"])), Ok(Request::Version)));
    assert!(matches!(run(&args(&["dayshift", "-v"])), Ok(Request::Version)));
    assert!(matches!(run(&args(&["dayshift"])), Err(Error::NoCommand)));
    match run(&args(&["dayshift", "paint"])) {
        Err(Error::UnknownCommand { command }) => assert_eq!(command, "paint"),
        _ => panic!("expected an unknown-command error"),
    }
}

#[test]
fn set_reads_path_and_flag() {
    match dayshift::commands::set(&args(&["dayshift", "set", "/theme"])) {
        Ok((path, dry)) => {
            assert_eq!(path, "/theme");
            assert!(!dry);
        },
        _ => panic!("expected a path"),
    }
    match dayshift::commands::set(&args(&["dayshift", "set", "/theme", "--dry-run"])) {
        Ok((path, dry)) => {
            assert_eq!(path, "/theme");
            assert!(dry);
        },
        _ => panic!("expected a path"),
    }
    match dayshift::commands::set(&args(&["dayshift", "set", "--dry-run", "/theme"])) {
        Ok((path, dry)) => {
            assert_eq!(path, "/theme");
            assert!(dry);
        },
        _ => panic!("expected a path"),
    }
    assert!(matches!(dayshift::commands::set(&args(&["dayshift", "set"])), Err(Error::NoPath)));
    assert!(matches!(dayshift::commands::set(&args(&["dayshift", "set", "--dry-run"])), Err(Error::NoPath)));
}

#[test]
fn set_target_direct_image() {
    // A direct image path succeeds without reading any config, and
    // names the file to install.
    let path = String::from("/t/3.png");
    match set_target(&path, false, PathInfo::File) {
        Ok(Step::Finished(Outcome::Install { path: p, message })) => {
            assert_eq!(p, "/t/3.png");
            assert_eq!(message, "Wallpaper set to: /t/3.png");
        },
        _ => panic!("expected a direct install"),
    }
    match set_target(&path, true, PathInfo::File) {
        Ok(Step::Finished(Outcome::Done { message })) => {
            assert_eq!(message, "Dry Run: Wallpaper set to: /t/3.png");
        },
        _ => panic!("expected a dry-run message"),
    }
}

#[test]
fn set_target_errors() {
    let missing = String::from("/does/not/exist");
    match set_target(&missing, false, PathInfo::Missing) {
        Err(e @ Error::PathMissing { .. }) => {
            assert_eq!(e.message(), "Error: Path does not exist - /does/not/exist");
        },
        _ => panic!("expected a missing-path error"),
    }
    let odd = String::from("/dev/null");
    assert!(matches!(set_target(&odd, false, PathInfo::Other), Err(Error::NotADirectory { .. })));
    // A regular file that is not an image is not a theme directory.
    let text = String::from("/t/readme.txt");
    assert!(matches!(set_target(&text, false, PathInfo::File), Err(Error::NotADirectory { .. })));
    // A directory hands over to theme loading.
    let dir = String::from("/t");
    assert!(matches!(set_target(&dir, false, PathInfo::Directory), Ok(Step::Theme)));
}

#[test]
fn choose_with_absent_config() {
    // Four wallpapers over the default full-day window: 09:00 falls in
    // the second six-hour segment.
    let cfg = theme_of(Some(Vec::new()), "/t");
    let walls = get_wallpapers(args(&["1.png", "2.png", "3.png", "4.png"]));
    match choose_wallpaper(&cfg, &walls, true, &at(9 * 3600)) {
        Ok(Outcome::Done { message }) => {
            assert_eq!(message, "Dry Run: Wallpaper set to: /t/2.png");
        },
        _ => panic!("expected a dry-run choice"),
    }
}

#[test]
fn choose_with_declared_window() {
    // A twelve-hour window from 06:00 tiled by four wallpapers:
    // 12:00 sits at the start of the third segment.
    let doc = vec![dayshift::theme::RawEntry {
        start: Some(String::from("06:00:00")),
        duration: Some(12),
        path: None,
        selection: None,
    }];
    let cfg = theme_of(Some(doc), "/t");
    let walls = get_wallpapers(args(&["1.png", "2.png", "3.png", "4.png"]));
    match choose_wallpaper(&cfg, &walls, false, &at(12 * 3600)) {
        Ok(Outcome::Install { path, message }) => {
            assert_eq!(path, "/t/3.png");
            assert_eq!(message, "Wallpaper set to: /t/3.png");
        },
        _ => panic!("expected an install"),
    }
}

#[test]
fn choose_before_every_window_falls_back_to_first() {
    // Two entries, 06:00 for twelve hours and 18:00 for twelve hours,
    // probed at 03:00: no window of the anchor day contains the
    // reading, so the resolver falls back to the first entry, and the
    // first entry's window likewise falls back to its first segment.
    let doc = vec![
        dayshift::theme::RawEntry {
            start: Some(String::from("06:00:00")),
            duration: Some(12),
            path: None,
            selection: None,
        },
        dayshift::theme::RawEntry {
            start: Some(String::from("18:00:00")),
            duration: Some(12),
            path: None,
            selection: None,
        },
    ];
    let dir = String::from("/t");
    let clock = at(3 * 3600);
    let cfg = Config::read(Some(doc), &dir, &clock).unwrap();
    assert_eq!(cfg.start, 6 * 3600);
    let walls = get_wallpapers(args(&["1.png", "2.png", "3.png", "4.png"]));
    match choose_wallpaper(&cfg, &walls, false, &clock) {
        Ok(Outcome::Install { path, .. }) => assert_eq!(path, "/t/1.png"),
        _ => panic!("expected an install"),
    }
}

#[test]
fn choose_with_no_images_fails() {
    let cfg = theme_of(Some(Vec::new()), "/t");
    let r = choose_wallpaper(&cfg, &Vec::new(), false, &at(0));
    match r {
        Err(e @ Error::NoImages) => {
            assert_eq!(e.message(), "Error: No wallpapers found in the theme directory");
        },
        _ => panic!("expected a no-images error"),
    }
}

#[test]
fn error_messages() {
    assert_eq!(Error::NoCommand.message(), "Error: No command provided");
    assert_eq!(
        Error::NoPath.message(),
        "Error: No path provided\nUsage: dayshift set <path>"
    );
    let unknown_msg = Error::UnknownCommand { command: String::from("paint") }.message();
    assert!(unknown_msg.starts_with("Error: Unknown command - paint\n"));
    assert!(unknown_msg.contains("Usage: dayshift <command> <args...>"));
    let os = Error::OsWallpaper { detail: String::from("access denied") };
    assert_eq!(os.message(), "Error: The OS wallpaper interface failed - access denied");
}
