//! Time primitives: instants on the local wall-clock timeline, windows
//! of time (`TimeFrame`), division of a window into equal segments, and
//! the resolver that finds the segment containing a given instant.

use crate::error::Error;
use vstd::arithmetic::div_mod::{
    lemma_div_is_ordered,
    lemma_div_pos_is_pos, lemma_fundamental_div_mod, lemma_mod_division_less_than_divisor,
};
use vstd::arithmetic::mul::{
    lemma_mul_basics, lemma_mul_is_commutative,
    lemma_mul_inequality, lemma_mul_is_distributive_add_other_way, lemma_mul_nonnegative,
};
use vstd::prelude::*;
use vstd::string::StringExecFns;

verus! {

/// Seconds in one day.
pub const DAY_SECS: u32 = 86400;

/// A point on the local wall-clock timeline, at one-second resolution.
///
/// `secs` counts seconds from the start of day 0 of the local calendar
/// (day `d` at second-of-day `s` sits at `d * 86400 + s`).
#[derive(Clone, Copy, Debug, PartialEq, Eq, Structural)]
pub struct Instant {
    pub secs: i64,
}

impl Instant {
    /// Bound within which every instant built from a calendar day
    /// number (an `i32`) and a second-of-day stays, with room to spare.
    pub open spec fn wf(self) -> bool {
        -0x0100_0000_0000_0000 <= self.secs <= 0x0100_0000_0000_0000
    }

}

/// One reading of the local wall clock: the calendar day and the second
/// of that day.
#[derive(Clone, Copy, Debug, PartialEq, Eq, Structural)]
pub struct LocalNow {
    pub day: i32,
    pub sec: u32,
}

impl LocalNow {
    pub open spec fn wf(self) -> bool {
        self.sec < 86400
    }

    /// The instant of the reading itself.
    pub open spec fn val(self) -> int {
        self.day * 86400 + self.sec
    }

    /// The instant at which the reading's day began (local midnight).
    pub open spec fn day_start_val(self) -> int {
        self.day * 86400
    }

    pub fn instant(&self) -> (r: Instant)
        ensures
            r.secs == self.val(),
            r.wf(),
    {
        Instant { secs: (self.day as i64) * 86400 + (self.sec as i64) }
    }

    pub fn day_start(&self) -> (r: Instant)
        ensures
            r.secs == self.day_start_val(),
            r.wf(),
    {
        Instant { secs: (self.day as i64) * 86400 }
    }
}

/// Relies on chrono: `Local::now().naive_local()` read once, its date
/// taken as `Datelike::num_days_from_ce` (an `i32` day count) and its
/// time as `Timelike::num_seconds_from_midnight`, which chrono
/// documents as an integer in `0..=86399`.
#[verifier::external_body]
fn read_local_clock() -> (r: (i32, u32))
    ensures
        r.1 < DAY_SECS,
{
    let t = chrono::Local::now().naive_local();
    (chrono::Datelike::num_days_from_ce(&t), chrono::Timelike::num_seconds_from_midnight(&t))
}

/// Read the local wall clock once.
pub fn now() -> (r: LocalNow)
    ensures
        r.wf(),
{
    let (day, sec) = read_local_clock();
    LocalNow { day, sec }
}

/// A window of wall-clock time: a start instant and a duration in
/// seconds.  Its extent is the half-open interval
/// `[start, start + duration)`.
#[derive(Clone, Copy, Debug, PartialEq, Eq, Structural)]
pub struct TimeFrame {
    pub start: Instant,
    pub duration: u64,
}

/// A segment of time with a start and an end, comparable to a clock
/// reading through its spec-level bounds.
pub trait TimeSegment: Sized {
    /// The bounds under which `start` and `end` can be computed without
    /// overflow.
    spec fn seg_wf(&self) -> bool;

    /// The first instant inside the segment.
    spec fn start_val(&self) -> int;

    /// The first instant past the segment.
    spec fn end_val(&self) -> int;

    /// Get the start time of the segment.
    fn start(&self) -> (r: Instant)
        requires
            self.seg_wf(),
        ensures
            r.secs == self.start_val(),
    ;

    /// Get the end time of the segment.
    fn end(&self) -> (r: Instant)
        requires
            self.seg_wf(),
        ensures
            r.secs == self.end_val(),
    ;
}

/// Whether the instant `t` falls inside the half-open extent of `s`.
pub open spec fn seg_contains<T: TimeSegment>(s: T, t: int) -> bool {
    s.start_val() <= t < s.end_val()
}

impl TimeFrame {
    pub open spec fn wf(self) -> bool {
        &&& -0x0200_0000_0000_0000 <= self.start.secs
        &&& self.start.secs + self.duration <= 0x0200_0000_0000_0000
    }

    /// Create a new time frame with the given start time-of-day,
    /// anchored to the day beginning at `day_start`, and a duration in
    /// whole hours.
    pub fn new(day_start: Instant, start_sec: u32, duration_hours: u32) -> (r: TimeFrame)
        requires
            day_start.wf(),
            start_sec < DAY_SECS,
            duration_hours >= 1,
        ensures
            r.start.secs == day_start.secs + start_sec,
            r.duration == duration_hours * 3600,
            r.duration > 0,
            r.wf(),
    {
        TimeFrame {
            start: Instant { secs: day_start.secs + start_sec as i64 },
            duration: (duration_hours as u64) * 3600,
        }
    }

    /// Divide the frame into `divisions` adjacent segments.  Every
    /// segment but the last has the floor of the mean duration; the
    /// residual seconds are absorbed into the last segment, so the
    /// segments exactly tile the frame.
    pub fn divide(&self, divisions: u32) -> (r: Result<Vec<TimeFrame>, Error>)
        requires
            self.wf(),
        ensures
            r is Ok <==> divisions >= 1,
            r is Ok ==> is_division_of(r->Ok_0@, *self, divisions as int),
            r is Ok ==> r->Ok_0@ == division_seq(*self, divisions as int),
            r is Err ==> r->Err_0 is EmptyDivision,
    {
        if divisions == 0 {
            return Err(Error::EmptyDivision);
        }
        let n: u64 = divisions as u64;
        let sub: u64 = self.duration / n;
        proof {
            lemma_fundamental_div_mod(self.duration as int, n as int);
            lemma_mod_division_less_than_divisor(self.duration as int, n as int);
            lemma_div_pos_is_pos(self.duration as int, n as int);
        }
        let mut segs: Vec<TimeFrame> = Vec::new();
        let mut start: i64 = self.start.secs;
        let mut i: u32 = 0;
        while i < divisions - 1
            invariant
                1 <= divisions,
                i <= divisions - 1,
                n == divisions,
                sub == self.duration as int / n as int,
                n * sub + self.duration as int % n as int == self.duration,
                0 <= self.duration as int % n as int,
                0 <= sub,
                self.wf(),
                segs@.len() == i,
                start == self.start.secs + i * sub,
                self.start.secs <= start,
                start + (divisions - i) * sub <= self.start.secs + self.duration,
                forall|j: int| 0 <= j < i ==> (#[trigger] segs@[j]).start.secs
                    == self.start.secs + j * (sub as int),
                forall|j: int| 0 <= j < i ==> (#[trigger] segs@[j]).duration == sub,
                forall|j: int| 0 <= j < i ==> (#[trigger] segs@[j]).wf(),
            decreases divisions - 1 - i,
        {
            proof {
                lemma_mul_is_distributive_add_other_way(sub as int, i as int, 1);
                lemma_mul_is_distributive_add_other_way(sub as int, divisions - i as int - 1, 1);
                lemma_mul_nonnegative(divisions - i as int - 1, sub as int);
            }
            segs.push(TimeFrame { start: Instant { secs: start }, duration: sub });
            start = start + sub as i64;
            i = i + 1;
        }
        proof {
            lemma_mul_nonnegative(divisions - 1, sub as int);
        }
        let used: u64 = (n - 1) * sub;
        let last_dur: u64 = self.duration - used;
        segs.push(TimeFrame { start: Instant { secs: start }, duration: last_dur });
        proof {
            assert forall|k: int| 0 <= k < divisions implies segs@[k] == division_seq(
                *self,
                divisions as int,
            )[k] by {
                lemma_mul_nonnegative(k, sub as int);
            }
            assert(segs@ =~= division_seq(*self, divisions as int));
        }
        Ok(segs)
    }
}

/// The character of a decimal digit.
pub open spec fn digit_char(d: int) -> char {
    if d == 0 {
        '0'
    } else if d == 1 {
        '1'
    } else if d == 2 {
        '2'
    } else if d == 3 {
        '3'
    } else if d == 4 {
        '4'
    } else if d == 5 {
        '5'
    } else if d == 6 {
        '6'
    } else if d == 7 {
        '7'
    } else if d == 8 {
        '8'
    } else {
        '9'
    }
}

/// A number under 100, zero-padded to two digits.
pub open spec fn two_digits_spec(n: int) -> Seq<char> {
    seq![digit_char(n / 10), digit_char(n % 10)]
}

/// The time of day of a non-negative instant, printed as `HH:MM`.
pub open spec fn hhmm_spec(secs: int) -> Seq<char> {
    let tod = secs % 86400;
    two_digits_spec(tod / 3600) + seq![':'] + two_digits_spec((tod % 3600) / 60)
}

/// The extent of a frame, printed as `HH:MM - HH:MM` in times of day.
pub open spec fn display_spec(f: TimeFrame) -> Seq<char> {
    hhmm_spec(f.start.secs as int) + " - "@ + hhmm_spec(f.start.secs + f.duration)
}

fn digit_str(d: u32) -> (r: &'static str)
    requires
        d < 10,
    ensures
        r@ == seq![digit_char(d as int)],
{
    proof {
        reveal_strlit("0");
        reveal_strlit("1");
        reveal_strlit("2");
        reveal_strlit("3");
        reveal_strlit("4");
        reveal_strlit("5");
        reveal_strlit("6");
        reveal_strlit("7");
        reveal_strlit("8");
        reveal_strlit("9");
    }
    match d {
        0 => "0",
        1 => "1",
        2 => "2",
        3 => "3",
        4 => "4",
        5 => "5",
        6 => "6",
        7 => "7",
        8 => "8",
        _ => "9",
    }
}

/// The time of day of a non-negative instant, as `HH:MM`.
fn hhmm(secs: i64) -> (r: String)
    requires
        0 <= secs,
    ensures
        r@ == hhmm_spec(secs as int),
{
    proof {
        lemma_mod_division_less_than_divisor(secs as int, 86400);
        lemma_mod_division_less_than_divisor(secs as int % 86400, 3600);
    }
    let tod = (secs % 86400) as u32;
    let h = tod / 3600;
    let m = (tod % 3600) / 60;
    proof {
        lemma_div_is_ordered(tod as int, 86399, 3600);
        lemma_div_is_ordered(tod as int % 3600, 3599, 60);
        lemma_mod_division_less_than_divisor(h as int, 10);
        lemma_mod_division_less_than_divisor(m as int, 10);
        lemma_div_is_ordered(h as int, 23, 10);
        lemma_div_is_ordered(m as int, 59, 10);
    }
    let mut out = String::new();
    out.append(digit_str(h / 10));
    out.append(digit_str(h % 10));
    out.append(":");
    out.append(digit_str(m / 10));
    out.append(digit_str(m % 10));
    proof {
        reveal_strlit(":");
        assert(out@ =~= hhmm_spec(secs as int));
    }
    out
}

impl TimeFrame {
    /// The frame's extent as text, `HH:MM - HH:MM` in times of day.
    pub fn display(&self) -> (r: String)
        requires
            self.wf(),
            0 <= self.start.secs,
        ensures
            r@ == display_spec(*self),
    {
        let mut out = String::new();
        let s = hhmm(self.start.secs);
        out.append(s.as_str());
        out.append(" - ");
        let e = hhmm(self.start.secs + self.duration as i64);
        out.append(e.as_str());
        out
    }
}

/// The list that `divide` returns, as a function of the frame and the
/// number of segments.
pub open spec fn division_seq(parent: TimeFrame, n: int) -> Seq<TimeFrame> {
    let sub = parent.duration as int / n;
    Seq::new(
        n as nat,
        |i: int|
            TimeFrame {
                start: Instant { secs: (parent.start.secs + i * sub) as i64 },
                duration: if i < n - 1 {
                    sub as u64
                } else {
                    (parent.duration - (n - 1) * sub) as u64
                },
            },
    )
}

impl TimeSegment for TimeFrame {
    open spec fn seg_wf(&self) -> bool {
        self.wf()
    }

    open spec fn start_val(&self) -> int {
        self.start.secs as int
    }

    open spec fn end_val(&self) -> int {
        self.start.secs + self.duration
    }

    fn start(&self) -> (r: Instant) {
        self.start
    }

    fn end(&self) -> (r: Instant) {
        Instant { secs: self.start.secs + self.duration as i64 }
    }
}

/// The shape of the list that `TimeFrame::divide` returns: `n`
/// adjacent segments of equal duration covering `parent`, except that
/// the last segment also absorbs the residual seconds of the integer
/// division.
pub open spec fn is_division_of(segs: Seq<TimeFrame>, parent: TimeFrame, n: int) -> bool {
    let sub = parent.duration as int / n;
    &&& segs.len() == n
    &&& forall|i: int| 0 <= i < n ==> (#[trigger] segs[i]).start.secs == parent.start.secs + i * sub
    &&& forall|i: int| 0 <= i < n - 1 ==> (#[trigger] segs[i]).duration == sub
    &&& segs[n - 1].duration == parent.duration - (n - 1) * sub
    &&& forall|i: int| 0 <= i < n ==> (#[trigger] segs[i]).wf()
}

/// The index of the first segment whose extent contains `now`, if any.
pub open spec fn first_containing<T: TimeSegment>(segs: Seq<T>, now: int) -> Option<int>
    decreases segs.len(),
{
    if segs.len() == 0 {
        None
    } else if seg_contains(segs[0], now) {
        Some(0int)
    } else {
        match first_containing(segs.drop_first(), now) {
            Some(j) => Some(j + 1),
            None => None,
        }
    }
}

/// What `first_containing` returns: the least index of a segment that
/// contains `now`, or nothing when no segment does.
pub proof fn lemma_first_containing<T: TimeSegment>(segs: Seq<T>, now: int)
    ensures
        match first_containing(segs, now) {
            Some(i) => 0 <= i < segs.len() && seg_contains(segs[i], now) && forall|j: int|
                0 <= j < i ==> !seg_contains(#[trigger] segs[j], now),
            None => forall|j: int|
                0 <= j < segs.len() ==> !seg_contains(#[trigger] segs[j], now),
        },
    decreases segs.len(),
{
    if segs.len() > 0 && !seg_contains(segs[0], now) {
        let d = segs.drop_first();
        lemma_first_containing(d, now);
        match first_containing(d, now) {
            Some(j0) => {
                assert(segs[j0 + 1] == d[j0]);
                assert forall|j: int| 0 <= j < j0 + 1 implies !seg_contains(
                    #[trigger] segs[j],
                    now,
                ) by {
                    if j > 0 {
                        assert(d[j - 1] == segs[j]);
                        assert(!seg_contains(d[j - 1], now));
                    }
                }
            },
            None => {
                assert forall|j: int| 0 <= j < segs.len() implies !seg_contains(
                    #[trigger] segs[j],
                    now,
                ) by {
                    if j > 0 {
                        assert(d[j - 1] == segs[j]);
                        assert(!seg_contains(d[j - 1], now));
                    }
                }
            },
        }
    }
}

/// The index of the current segment for the clock reading `now`.
/// Fallback policy, applied in order: the first segment containing
/// `now`; otherwise, if `now` sits at or past the end of the last
/// segment, the last index; otherwise (including the empty list) `0`.
pub open spec fn current_index_spec<T: TimeSegment>(segs: Seq<T>, now: int) -> int {
    match first_containing(segs, now) {
        Some(i) => i,
        None => if segs.len() > 0 && now >= segs[segs.len() - 1].end_val() {
            segs.len() - 1
        } else {
            0
        },
    }
}

/// A list of time segments in which the one containing the current
/// time can be looked up.
pub trait CurrentSegment<T: TimeSegment> {
    /// The segments held, in order.
    spec fn segments(&self) -> Seq<T>;

    /// Get the index of the current segment for the reading `now`.
    fn current_index(&self, now: &Instant) -> (r: usize)
        requires
            forall|i: int| 0 <= i < self.segments().len() ==> (#[trigger] self.segments()[i]).seg_wf(),
        ensures
            r == current_index_spec(self.segments(), now.secs as int),
            self.segments().len() > 0 ==> r < self.segments().len(),
            self.segments().len() == 0 ==> r == 0,
    ;

    /// Get the current segment for the reading `now`.
    fn current(&self, now: &Instant) -> (r: &T)
        requires
            self.segments().len() > 0,
            forall|i: int| 0 <= i < self.segments().len() ==> (#[trigger] self.segments()[i]).seg_wf(),
        ensures
            *r == self.segments()[current_index_spec(self.segments(), now.secs as int)],
    ;
}

impl<T: TimeSegment> CurrentSegment<T> for Vec<T> {
    open spec fn segments(&self) -> Seq<T> {
        self@
    }

    fn current_index(&self, now: &Instant) -> (r: usize) {
        proof {
            assert forall|k: int| 0 <= k < self@.len() implies (#[trigger] self@[k]).seg_wf() by {
                assert(self.segments()[k].seg_wf());
            }
        }
        let n = self.len();
        let mut i: usize = 0;
        while i < n
            invariant
                n == self@.len(),
                i <= n,
                forall|k: int| 0 <= k < n ==> (#[trigger] self@[k]).seg_wf(),
                forall|j: int| 0 <= j < i ==> !seg_contains(#[trigger] self@[j], now.secs as int),
            decreases n - i,
        {
            let s = &self[i];
            let st = s.start();
            let en = s.end();
            if st.secs <= now.secs && now.secs < en.secs {
                proof {
                    lemma_first_containing(self@, now.secs as int);
                }
                return i;
            }
            i = i + 1;
        }
        proof {
            lemma_first_containing(self@, now.secs as int);
        }
        if n == 0 {
            return 0;
        }
        let last = &self[n - 1];
        if now.secs >= last.end().secs {
            n - 1
        } else {
            0
        }
    }

    fn current(&self, now: &Instant) -> (r: &T) {
        let i = self.current_index(now);
        &self[i]
    }
}

/// Exact tiling: a division of `parent` into `n >= 1` segments starts
/// where the parent starts, ends exactly where the parent ends, meets
/// with no gap or overlap between adjacent segments, and its union
/// contains an instant if and only if the parent contains it.
pub proof fn lemma_division_tiles(parent: TimeFrame, segs: Seq<TimeFrame>, n: int, t: int)
    requires
        parent.wf(),
        n >= 1,
        is_division_of(segs, parent, n),
    ensures
        segs[0].start_val() == parent.start_val(),
        segs[n - 1].end_val() == parent.end_val(),
        forall|i: int| 0 <= i < n - 1 ==> (#[trigger] segs[i]).end_val() == segs[i + 1].start_val(),
        forall|i: int, j: int| 0 <= i < j < n ==> (#[trigger] segs[i]).end_val() <= (
        #[trigger] segs[j]).start_val(),
        seg_contains(parent, t) <==> exists|i: int|
            0 <= i < n && seg_contains(#[trigger] segs[i], t),
{
    let s0 = parent.start.secs as int;
    let d = parent.duration as int;
    let sub = d / n;
    lemma_fundamental_div_mod(d, n);
    lemma_mod_division_less_than_divisor(d, n);
    lemma_div_pos_is_pos(d, n);
    assert(segs[0].start_val() == s0) by {
        lemma_mul_basics(sub);
    }
    assert forall|i: int| 0 <= i < n - 1 implies (#[trigger] segs[i]).end_val() == segs[i
        + 1].start_val() by {
        lemma_mul_is_distributive_add_other_way(sub, i, 1);
    }
    assert forall|i: int, j: int| 0 <= i < j < n implies (#[trigger] segs[i]).end_val() <= (
    #[trigger] segs[j]).start_val() by {
        lemma_mul_is_distributive_add_other_way(sub, i, 1);
        lemma_mul_inequality(i + 1, j, sub);
    }
    if seg_contains(parent, t) {
        if sub == 0 {
            assert((n - 1) * sub == 0) by {
                lemma_mul_basics(n - 1);
            }
            assert(seg_contains(segs[n - 1], t));
        } else {
            let k = (t - s0) / sub;
            lemma_fundamental_div_mod(t - s0, sub);
            lemma_mod_division_less_than_divisor(t - s0, sub);
            lemma_div_pos_is_pos(t - s0, sub);
            lemma_mul_is_commutative(sub, k);
            if k < n - 1 {
                lemma_mul_is_distributive_add_other_way(sub, k, 1);
                assert(seg_contains(segs[k], t));
            } else {
                lemma_mul_inequality(n - 1, k, sub);
                assert(seg_contains(segs[n - 1], t));
            }
        }
    }
    if exists|i: int| 0 <= i < n && seg_contains(#[trigger] segs[i], t) {
        let i = choose|i: int| 0 <= i < n && seg_contains(#[trigger] segs[i], t);
        lemma_mul_nonnegative(i, sub);
        if i < n - 1 {
            lemma_mul_is_distributive_add_other_way(sub, i, 1);
            lemma_mul_inequality(i + 1, n, sub);
        }
        assert(seg_contains(parent, t));
    }
}

/// The resolver's index is always in range for a non-empty list.
pub proof fn lemma_current_index_in_range<T: TimeSegment>(segs: Seq<T>, now: int)
    requires
        segs.len() >= 1,
    ensures
        0 <= current_index_spec(segs, now) < segs.len(),
{
    lemma_first_containing(segs, now);
}

/// Fallback monotonicity: over a sorted, non-overlapping, non-empty
/// list the resolver returns an index in range for every `now`; before
/// the first segment it returns `0`, and at or past the end of the
/// last segment it returns the last index.
pub proof fn lemma_fallback_monotonic<T: TimeSegment>(segs: Seq<T>, now: int)
    requires
        segs.len() >= 1,
        forall|i: int| 0 <= i < segs.len() ==> (#[trigger] segs[i]).start_val()
            <= segs[i].end_val(),
        forall|i: int, j: int| 0 <= i < j < segs.len() ==> (#[trigger] segs[i]).end_val() <= (
        #[trigger] segs[j]).start_val(),
    ensures
        0 <= current_index_spec(segs, now) < segs.len(),
        now < segs[0].start_val() ==> current_index_spec(segs, now) == 0,
        now >= segs[segs.len() - 1].end_val() ==> current_index_spec(segs, now) == segs.len() - 1,
{
    lemma_first_containing(segs, now);
    let n = segs.len() as int;
    if now < segs[0].start_val() {
        assert forall|j: int| 0 <= j < n implies !seg_contains(#[trigger] segs[j], now) by {
            if j > 0 {
                assert(segs[0].end_val() <= segs[j].start_val());
            }
        }
        assert(segs[n - 1].end_val() >= segs[0].start_val());
    }
    if now >= segs[n - 1].end_val() {
        assert forall|j: int| 0 <= j < n implies !seg_contains(#[trigger] segs[j], now) by {
            if j < n - 1 {
                assert(segs[j].end_val() <= segs[n - 1].start_val());
            }
        }
    }
}

/// Boundary containment: in a division of a window whose duration is
/// at least the number of segments, the instant at a segment's start
/// resolves to that segment's index, and so does the instant one
/// second before the segment's end.
pub proof fn lemma_boundary_containment(parent: TimeFrame, segs: Seq<TimeFrame>, n: int, i: int)
    requires
        parent.wf(),
        1 <= n <= parent.duration,
        is_division_of(segs, parent, n),
        0 <= i < n,
    ensures
        current_index_spec(segs, segs[i].start_val()) == i,
        current_index_spec(segs, segs[i].end_val() - 1) == i,
{
    let s0 = parent.start.secs as int;
    let d = parent.duration as int;
    let sub = d / n;
    lemma_fundamental_div_mod(d, n);
    lemma_mod_division_less_than_divisor(d, n);
    lemma_div_pos_is_pos(d, n);
    assert(sub >= 1) by {
        if sub == 0 {
            assert(n * sub == 0) by {
                lemma_mul_basics(n);
            }
        }
    }
    assert(segs[n - 1].duration >= 1) by {
        lemma_mul_is_distributive_add_other_way(sub, n - 1, 1);
    }
    let t1 = segs[i].start_val();
    let t2 = segs[i].end_val() - 1;
    assert(seg_contains(segs[i], t1));
    assert(seg_contains(segs[i], t2));
    assert forall|j: int| 0 <= j < i implies !seg_contains(#[trigger] segs[j], t1) by {
        lemma_mul_is_distributive_add_other_way(sub, j, 1);
        lemma_mul_inequality(j + 1, i, sub);
    }
    assert forall|j: int| 0 <= j < i implies !seg_contains(#[trigger] segs[j], t2) by {
        lemma_mul_is_distributive_add_other_way(sub, j, 1);
        lemma_mul_inequality(j + 1, i, sub);
    }
    lemma_first_containing(segs, t1);
    match first_containing(segs, t1) {
        Some(k) => {
            if k < i {
                assert(!seg_contains(segs[k], t1));
            }
        },
        None => {
            assert(seg_contains(segs[i], t1));
        },
    }
    lemma_first_containing(segs, t2);
    match first_containing(segs, t2) {
        Some(k) => {
            if k < i {
                assert(!seg_contains(segs[k], t2));
            }
        },
        None => {
            assert(seg_contains(segs[i], t2));
        },
    }
}

} // verus!
