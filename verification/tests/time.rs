use dayshift::time::{CurrentSegment, Instant, TimeFrame};

fn day(n: i64) -> Instant {
    Instant { secs: n * 86400 }
}

#[test]
fn divide_exact_tiling() {
    // 100 seconds split seven ways: six segments of 14 seconds, and a
    // last segment of 16 that absorbs the residual.
    let frame = TimeFrame { start: day(1000), duration: 100 };
    let segs = frame.divide(7).unwrap();
    assert_eq!(segs.len(), 7);
    for i in 0..6 {
        assert_eq!(segs[i].duration, 14);
    }
    assert_eq!(segs[6].duration, 16);
    // No gap and no overlap: each segment starts where the previous
    // one ends, and the last ends exactly at the parent's end.
    assert_eq!(segs[0].start.secs, frame.start.secs);
    for i in 0..6 {
        assert_eq!(segs[i].start.secs + segs[i].duration as i64, segs[i + 1].start.secs);
    }
    assert_eq!(
        segs[6].start.secs + segs[6].duration as i64,
        frame.start.secs + frame.duration as i64
    );
}

#[test]
fn divide_single_segment_is_parent() {
    let frame = TimeFrame { start: day(1000), duration: 86400 };
    let segs = frame.divide(1).unwrap();
    assert_eq!(segs.len(), 1);
    assert_eq!(segs[0].start.secs, frame.start.secs);
    assert_eq!(segs[0].duration, frame.duration);
}

#[test]
fn divide_by_zero_fails() {
    let frame = TimeFrame { start: day(1000), duration: 86400 };
    let r = frame.divide(0);
    assert!(matches!(r, Err(dayshift::error::Error::EmptyDivision)));
}

#[test]
fn boundary_containment() {
    // A day divided into four: a time at a segment's start resolves to
    // that segment, and so does the time one second before its end.
    let frame = TimeFrame { start: day(1000), duration: 86400 };
    let segs = frame.divide(4).unwrap();
    for i in 0..4 {
        let at_start = Instant { secs: segs[i].start.secs };
        assert_eq!(segs.current_index(&at_start), i);
        let before_end = Instant { secs: segs[i].start.secs + segs[i].duration as i64 - 1 };
        assert_eq!(segs.current_index(&before_end), i);
    }
}

#[test]
fn fallback_bounds() {
    let frame = TimeFrame { start: day(1000), duration: 43200 };
    let segs = frame.divide(3).unwrap();
    // Before the first segment: index 0.
    let early = Instant { secs: day(1000).secs - 50 };
    assert_eq!(segs.current_index(&early), 0);
    // At or past the end of the last segment: the last index.
    let late = Instant { secs: day(1000).secs + 43200 };
    assert_eq!(segs.current_index(&late), 2);
    let very_late = Instant { secs: day(2000).secs };
    assert_eq!(segs.current_index(&very_late), 2);
    // Every probe stays within range.
    for h in 0..48 {
        let t = Instant { secs: day(1000).secs + h * 3600 };
        assert!(segs.current_index(&t) < 3);
    }
}

#[test]
fn current_index_empty_returns_zero() {
    let segs: Vec<TimeFrame> = Vec::new();
    let t = Instant { secs: 12345 };
    assert_eq!(segs.current_index(&t), 0);
}

#[test]
fn midnight_wrap() {
    // An entry starting at 22:00 with a four-hour duration ends at
    // 02:00 of the following day.
    let anchor = day(700_000);
    let frame = TimeFrame::new(anchor, 22 * 3600, 4);
    assert_eq!(frame.start.secs, anchor.secs + 79200);
    assert_eq!(frame.start.secs + frame.duration as i64, anchor.secs + 86400 + 7200);
    // 23:00 on the anchor date falls inside.
    let evening = Instant { secs: anchor.secs + 23 * 3600 };
    assert!(frame.start.secs <= evening.secs);
    assert!(evening.secs < frame.start.secs + frame.duration as i64);
    // 01:00 on the next date falls inside too.
    let night = Instant { secs: anchor.secs + 86400 + 3600 };
    assert!(frame.start.secs <= night.secs);
    assert!(night.secs < frame.start.secs + frame.duration as i64);
    // The resolver agrees.
    let segs = vec![frame];
    assert_eq!(segs.current_index(&evening), 0);
    assert_eq!(segs.current_index(&night), 0);
}

#[test]
fn display_times_of_day() {
    let anchor = day(700_000);
    let frame = TimeFrame::new(anchor, 6 * 3600, 12);
    assert_eq!(frame.display(), "06:00 - 18:00");
    // A wrapped window prints the time of day of its end on the next
    // date.
    let night = TimeFrame::new(anchor, 22 * 3600, 4);
    assert_eq!(night.display(), "22:00 - 02:00");
}
