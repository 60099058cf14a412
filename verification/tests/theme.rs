use dayshift::error::Error;
use dayshift::theme::effective_config_text;
use dayshift::theme::{parse_time_of_day, Config, RawEntry, SelectionMode};
use dayshift::time::LocalNow;

fn entry(
    start: Option<&str>,
    duration: Option<u64>,
    path: Option<&str>,
    selection: Option<&str>,
) -> RawEntry {
    RawEntry {
        start: start.map(String::from),
        duration,
        path: path.map(String::from),
        selection: selection.map(String::from),
    }
}

fn noon() -> LocalNow {
    LocalNow { day: 738000, sec: 12 * 3600 }
}

#[test]
fn time_of_day_parses() {
    assert_eq!(parse_time_of_day("00:00:00"), Some(0));
    assert_eq!(parse_time_of_day("06:00:00"), Some(21600));
    assert_eq!(parse_time_of_day("23:59:59"), Some(86399));
    assert_eq!(parse_time_of_day("12:34:56"), Some(45296));
}

#[test]
fn time_of_day_rejects() {
    assert_eq!(parse_time_of_day("24:00:00"), None);
    assert_eq!(parse_time_of_day("00:60:00"), None);
    assert_eq!(parse_time_of_day("00:00:60"), None);
    assert_eq!(parse_time_of_day("9:00:00"), None);
    assert_eq!(parse_time_of_day("09:00"), None);
    assert_eq!(parse_time_of_day(""), None);
    assert_eq!(parse_time_of_day("ab:cd:ef"), None);
    assert_eq!(parse_time_of_day("09-00-00"), None);
}

#[test]
fn entry_defaults() {
    let cfg = Config::from_raw(&entry(None, None, None, None)).unwrap();
    assert_eq!(cfg.start, 0);
    assert_eq!(cfg.duration, 24);
    assert_eq!(cfg.path, "");
    assert!(cfg.selection == SelectionMode::Random);
}

#[test]
fn entry_fields_decode() {
    let cfg = Config::from_raw(&entry(Some("22:00:00"), Some(4), Some("night"), Some("sequential")))
        .unwrap();
    assert_eq!(cfg.start, 79200);
    assert_eq!(cfg.duration, 4);
    assert_eq!(cfg.path, "night");
    assert!(cfg.selection == SelectionMode::Sequential);
}

#[test]
fn entry_rejects_bad_fields() {
    assert!(matches!(
        Config::from_raw(&entry(Some("25:00:00"), None, None, None)),
        Err(Error::ConfigParse)
    ));
    assert!(matches!(
        Config::from_raw(&entry(None, Some(0), None, None)),
        Err(Error::ConfigParse)
    ));
    assert!(matches!(
        Config::from_raw(&entry(None, Some(49), None, None)),
        Err(Error::ConfigParse)
    ));
    assert!(matches!(
        Config::from_raw(&entry(None, None, None, Some("shuffled"))),
        Err(Error::ConfigParse)
    ));
}

#[test]
fn read_of_unparsed_document_fails() {
    let dir = String::from("/t");
    assert!(matches!(Config::read(None, &dir, &noon()), Err(Error::ConfigParse)));
}

#[test]
fn read_of_empty_document_gives_defaults() {
    // Round-trip with defaults: no entries reads as one entry with
    // every field at its default, and the theme directory itself.
    let dir = String::from("/t");
    let from_empty = Config::read(Some(Vec::new()), &dir, &noon()).unwrap();
    let from_default_entry =
        Config::read(Some(vec![entry(None, None, None, None)]), &dir, &noon()).unwrap();
    assert_eq!(from_empty.start, 0);
    assert_eq!(from_empty.duration, 24);
    assert_eq!(from_empty.path, "/t");
    assert!(from_empty.selection == SelectionMode::Random);
    assert_eq!(from_empty.start, from_default_entry.start);
    assert_eq!(from_empty.duration, from_default_entry.duration);
    assert_eq!(from_empty.path, from_default_entry.path);
    assert!(from_empty.selection == from_default_entry.selection);
}

#[test]
fn read_resolves_paths() {
    let dir = String::from("/t");
    let rel = Config::read(Some(vec![entry(None, None, Some("sub"), None)]), &dir, &noon())
        .unwrap();
    assert_eq!(rel.path, "/t/sub");
    let abs = Config::read(Some(vec![entry(None, None, Some("/elsewhere"), None)]), &dir, &noon())
        .unwrap();
    assert_eq!(abs.path, "/elsewhere");
    let slash_dir = String::from("/t/");
    let joined = Config::read(
        Some(vec![entry(None, None, Some("sub"), None)]),
        &slash_dir,
        &noon(),
    )
    .unwrap();
    assert_eq!(joined.path, "/t/sub");
}

#[test]
fn read_selects_containing_entry() {
    let dir = String::from("/t");
    let doc = vec![
        entry(Some("06:00:00"), Some(12), Some("day"), None),
        entry(Some("18:00:00"), Some(12), Some("night"), None),
    ];
    // Noon falls in the first entry's window.
    let cfg = Config::read(Some(doc.clone()), &dir, &noon()).unwrap();
    assert_eq!(cfg.path, "/t/day");
    assert_eq!(cfg.start, 21600);
    // Evening falls in the second.
    let evening = LocalNow { day: 738000, sec: 19 * 3600 };
    let cfg = Config::read(Some(doc.clone()), &dir, &evening).unwrap();
    assert_eq!(cfg.path, "/t/night");
    // One bad entry anywhere fails the whole read.
    let mut bad = doc.clone();
    bad.push(entry(Some("oops"), None, None, None));
    assert!(matches!(Config::read(Some(bad), &dir, &noon()), Err(Error::ConfigParse)));
}

#[test]
fn effective_text_treats_absent_and_empty_as_empty_list() {
    assert_eq!(effective_config_text(None), "[]");
    assert_eq!(effective_config_text(Some(String::new())), "[]");
    assert_eq!(effective_config_text(Some(String::from("[]"))), "[]");
    assert_eq!(
        effective_config_text(Some(String::from("[{\"duration\":6}]"))),
        "[{\"duration\":6}]"
    );
}

#[test]
fn overlapping_entries_first_match_wins() {
    // Two overlapping windows both contain 10:00; the first declared
    // entry is the one selected.
    let dir = String::from("/t");
    let doc = vec![
        entry(Some("08:00:00"), Some(8), Some("one"), None),
        entry(Some("09:00:00"), Some(8), Some("two"), None),
    ];
    let morning = LocalNow { day: 738000, sec: 10 * 3600 };
    let cfg = Config::read(Some(doc), &dir, &morning).unwrap();
    assert_eq!(cfg.path, "/t/one");
}
