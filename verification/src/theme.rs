//! The theme configuration: decoding entries from their raw document
//! form, selecting the entry active at a clock reading, and resolving
//! the entry's wallpaper directory.

use crate::error::Error;
use crate::text::{
    all_digits, chars_of, digits_val, lemma_digits_val_two, parse_u32, str_eq, subvec,
};
use crate::time::{
    current_index_spec, lemma_current_index_in_range, Instant, LocalNow, TimeFrame,
    CurrentSegment,
};
use vstd::prelude::*;
use vstd::string::StringExecFns;

verus! {

/// Wallpaper selection mode (random or sequential).  Decoded and kept;
/// the current resolver exercises only sequential selection, and
/// random selection is reserved.
#[derive(Clone, Copy, Debug, PartialEq, Eq, Structural)]
pub enum SelectionMode {
    Random,
    Sequential,
}

/// One entry of the theme config document as the decoder hands it
/// over: each field as written, or absent.
#[derive(Debug, Clone)]
pub struct RawEntry {
    /// Start time of day, as `HH:MM:SS`.
    pub start: Option<String>,
    /// Duration in whole hours.
    pub duration: Option<u64>,
    /// Wallpaper directory, relative or absolute.
    pub path: Option<String>,
    /// Selection mode: `random` or `sequential`.
    pub selection: Option<String>,
}

/// Configuration for the application: one theme entry in decoded form.
#[derive(Debug)]
pub struct Config {
    /// Start time, as the second of the day.
    pub start: u32,
    /// Duration in hours.
    pub duration: u32,
    /// Path to the wallpaper directory.
    pub path: String,
    /// Wallpaper selection mode.
    pub selection: SelectionMode,
}

/// The mathematical content of a `Config`: start second, duration in
/// hours, directory path, selection mode.
pub type ConfigModel = (int, int, Seq<char>, SelectionMode);

/// The decoded defaults: midnight start, a full day, the theme
/// directory itself, random selection.
pub open spec fn default_model() -> ConfigModel {
    (0int, 24int, Seq::<char>::empty(), SelectionMode::Random)
}

impl Config {
    pub open spec fn wf(self) -> bool {
        self.start < 86400 && 1 <= self.duration <= 48
    }

    pub open spec fn model(self) -> ConfigModel {
        (self.start as int, self.duration as int, self.path@, self.selection)
    }
}

impl Default for Config {
    /// The defaults an absent entry or absent field takes.
    fn default() -> (r: Config)
        ensures
            r.model() == default_model(),
            r.wf(),
    {
        Config { start: 0, duration: 24, path: String::new(), selection: SelectionMode::Random }
    }
}

/// The value of a time-of-day literal `HH:MM:SS`, as a second of the
/// day, or nothing when the text is not such a literal.
pub open spec fn tod_spec(s: Seq<char>) -> Option<int> {
    if s.len() == 8 && s[2] == ':' && s[5] == ':' && all_digits(s.subrange(0, 2)) && all_digits(
        s.subrange(3, 5),
    ) && all_digits(s.subrange(6, 8)) {
        let h = digits_val(s.subrange(0, 2));
        let m = digits_val(s.subrange(3, 5));
        let sec = digits_val(s.subrange(6, 8));
        if h < 24 && m < 60 && sec < 60 {
            Some(h * 3600 + m * 60 + sec)
        } else {
            None
        }
    } else {
        None
    }
}

/// Parse a time-of-day literal `HH:MM:SS` into a second of the day.
pub fn parse_time_of_day(s: &str) -> (r: Option<u32>)
    ensures
        match r {
            Some(x) => tod_spec(s@) == Some(x as int) && x < 86400,
            None => tod_spec(s@) is None,
        },
{
    let v = chars_of(s);
    if v.len() != 8 {
        return None;
    }
    if v[2] != ':' || v[5] != ':' {
        return None;
    }
    let hv = subvec(&v, 0, 2);
    let mv = subvec(&v, 3, 5);
    let sv = subvec(&v, 6, 8);
    proof {
        lemma_digits_val_two(hv@);
        lemma_digits_val_two(mv@);
        lemma_digits_val_two(sv@);
    }
    let h = match parse_u32(&hv) {
        Option::Some(x) => x,
        Option::None => {
            return None;
        },
    };
    let m = match parse_u32(&mv) {
        Option::Some(x) => x,
        Option::None => {
            return None;
        },
    };
    let sec = match parse_u32(&sv) {
        Option::Some(x) => x,
        Option::None => {
            return None;
        },
    };
    if h < 24 && m < 60 && sec < 60 {
        Some(h * 3600 + m * 60 + sec)
    } else {
        None
    }
}

/// The selection mode a selection field denotes.
pub open spec fn selection_spec(s: Seq<char>) -> Option<SelectionMode> {
    if s == "random"@ {
        Some(SelectionMode::Random)
    } else if s == "sequential"@ {
        Some(SelectionMode::Sequential)
    } else {
        None
    }
}

/// The decoded form of one raw entry: absent fields take their
/// defaults, present fields must parse, a duration must be a whole
/// number of hours between 1 and 48.
pub open spec fn decode_spec(r: RawEntry) -> Option<ConfigModel> {
    let start = match r.start {
        Option::None => Some(0int),
        Option::Some(s) => tod_spec(s@),
    };
    let dur = match r.duration {
        Option::None => Some(24int),
        Option::Some(d) => if 1 <= d <= 48 {
            Some(d as int)
        } else {
            None
        },
    };
    let sel = match r.selection {
        Option::None => Some(SelectionMode::Random),
        Option::Some(s) => selection_spec(s@),
    };
    let path = match r.path {
        Option::None => Seq::<char>::empty(),
        Option::Some(p) => p@,
    };
    if start is Some && dur is Some && sel is Some {
        Some((start->0, dur->0, path, sel->0))
    } else {
        None
    }
}

impl Config {
    /// Decode one raw entry, or fail with `ConfigParse`.
    pub fn from_raw(raw: &RawEntry) -> (r: Result<Config, Error>)
        ensures
            r is Ok <==> decode_spec(*raw) is Some,
            r is Ok ==> (r->Ok_0).model() == decode_spec(*raw)->0 && (r->Ok_0).wf(),
            r is Err ==> r->Err_0 is ConfigParse,
    {
        let start: u32 = match &raw.start {
            Option::None => 0,
            Option::Some(s) => {
                match parse_time_of_day(s.as_str()) {
                    Option::Some(x) => x,
                    Option::None => {
                        return Err(Error::ConfigParse);
                    },
                }
            },
        };
        let duration: u32 = match &raw.duration {
            Option::None => 24,
            Option::Some(d) => {
                if 1 <= *d && *d <= 48 {
                    *d as u32
                } else {
                    return Err(Error::ConfigParse);
                }
            },
        };
        let selection: SelectionMode = match &raw.selection {
            Option::None => SelectionMode::Random,
            Option::Some(s) => {
                if str_eq(s.as_str(), "random") {
                    SelectionMode::Random
                } else if str_eq(s.as_str(), "sequential") {
                    SelectionMode::Sequential
                } else {
                    return Err(Error::ConfigParse);
                }
            },
        };
        let path: String = match &raw.path {
            Option::None => String::new(),
            Option::Some(p) => p.clone(),
        };
        Ok(Config { start, duration, path, selection })
    }
}

/// The window an entry declares, anchored to the day beginning at
/// `day0`: it starts at the entry's start second of that day and runs
/// for its duration in hours, rolling past midnight when the sum
/// crosses the end of the day.
pub open spec fn window_of(m: ConfigModel, day0: int) -> TimeFrame {
    TimeFrame { start: Instant { secs: (day0 + m.0) as i64 }, duration: (m.1 * 3600) as u64 }
}

/// The windows of a list of entries, anchored to one day.
pub open spec fn windows_of(models: Seq<ConfigModel>, day0: int) -> Seq<TimeFrame> {
    Seq::new(models.len(), |i: int| window_of(models[i], day0))
}

/// The models of a list of decoded entries.
pub open spec fn models_of(cs: Seq<Config>) -> Seq<ConfigModel> {
    Seq::new(cs.len(), |i: int| cs[i].model())
}

/// The entry active at `now`: the current-index resolver applied to
/// the entries' windows anchored at `day0`, or the defaults when the
/// list is empty.
pub open spec fn select_spec(models: Seq<ConfigModel>, day0: int, now: int) -> ConfigModel {
    if models.len() == 0 {
        default_model()
    } else {
        models[current_index_spec(windows_of(models, day0), now)]
    }
}

/// Get the current configuration based on the clock reading: the
/// entry whose window contains the reading, under the resolver's
/// fallback policy, or the defaults when no entry was declared.
pub fn get_current(configs: &Vec<Config>, clock: &LocalNow) -> (r: Config)
    requires
        forall|i: int| 0 <= i < configs@.len() ==> (#[trigger] configs@[i]).wf(),
    ensures
        r.wf(),
        r.model() == select_spec(models_of(configs@), clock.day_start_val(), clock.val()),
{
    if configs.len() == 0 {
        return Config::default();
    }
    let day0 = clock.day_start();
    let nowi = clock.instant();
    let n = configs.len();
    let mut windows: Vec<TimeFrame> = Vec::new();
    let mut k: usize = 0;
    while k < n
        invariant
            n == configs@.len(),
            k <= n,
            forall|i: int| 0 <= i < configs@.len() ==> (#[trigger] configs@[i]).wf(),
            day0.secs == clock.day_start_val(),
            day0.wf(),
            windows@.len() == k,
            forall|j: int| 0 <= j < k ==> #[trigger] windows@[j] == window_of(
                configs@[j].model(),
                clock.day_start_val(),
            ),
            forall|j: int| 0 <= j < k ==> (#[trigger] windows@[j]).wf(),
        decreases n - k,
    {
        let c = &configs[k];
        windows.push(TimeFrame::new(day0, c.start, c.duration));
        k = k + 1;
    }
    proof {
        assert(windows@ =~= windows_of(models_of(configs@), clock.day_start_val()));
    }
    let idx = windows.current_index(&nowi);
    let sel = &configs[idx];
    Config {
        start: sel.start,
        duration: sel.duration,
        path: sel.path.clone(),
        selection: sel.selection,
    }
}

/// A path joined under a directory, with a separator unless the
/// directory already ends in one.
pub open spec fn join_path(dir: Seq<char>, rel: Seq<char>) -> Seq<char> {
    if dir.len() > 0 && dir.last() == '/' {
        dir + rel
    } else {
        dir + "/"@ + rel
    }
}

/// Where an entry's wallpaper directory is: an absolute path is used
/// verbatim, a relative non-empty path is resolved against the theme
/// directory, and an empty path means the theme directory itself.
pub open spec fn resolve_path_spec(dir: Seq<char>, p: Seq<char>) -> Seq<char> {
    if p.len() == 0 {
        dir
    } else if p[0] == '/' {
        p
    } else {
        join_path(dir, p)
    }
}

/// Join a file or directory name under a directory.
pub fn join_under(dir: &String, rel: &String) -> (r: String)
    ensures
        r@ == join_path(dir@, rel@),
{
    let dv = chars_of(dir.as_str());
    let mut out = String::new();
    out.append(dir.as_str());
    if !(dv.len() > 0 && dv[dv.len() - 1] == '/') {
        out.append("/");
    }
    out.append(rel.as_str());
    out
}

/// Resolve an entry's wallpaper directory against the theme directory.
pub fn resolve_path(dir: &String, p: &String) -> (r: String)
    ensures
        r@ == resolve_path_spec(dir@, p@),
{
    let pv = chars_of(p.as_str());
    if pv.len() == 0 {
        return dir.clone();
    }
    if pv[0] == '/' {
        return p.clone();
    }
    join_under(dir, p)
}

/// Whether every entry of a document decodes.
pub open spec fn all_entries_decode(es: Seq<RawEntry>) -> bool {
    forall|i: int| 0 <= i < es.len() ==> decode_spec(#[trigger] es[i]) is Some
}

/// The decoded entries of a document.
pub open spec fn decoded_models(es: Seq<RawEntry>) -> Seq<ConfigModel> {
    Seq::new(es.len(), |i: int| decode_spec(es[i])->0)
}

/// The raw document as the reader hands it over: nothing when it was
/// not valid JSON of the expected shape, otherwise its entries.
pub open spec fn doc_model(doc: Option<Vec<RawEntry>>) -> Option<Seq<RawEntry>> {
    match doc {
        Option::None => None,
        Option::Some(v) => Some(v@),
    }
}

/// What reading a theme configuration yields: the active entry with
/// its wallpaper directory resolved, or nothing when the document or
/// one of its entries does not decode.
pub open spec fn read_spec(
    doc: Option<Seq<RawEntry>>,
    dir: Seq<char>,
    day0: int,
    now: int,
) -> Option<ConfigModel> {
    match doc {
        Option::None => None,
        Option::Some(es) => {
            if all_entries_decode(es) {
                let sel = select_spec(decoded_models(es), day0, now);
                Some((sel.0, sel.1, resolve_path_spec(dir, sel.2), sel.3))
            } else {
                None
            }
        },
    }
}

impl Config {
    /// Read the configuration: decode the document's entries, pick the
    /// entry active at the clock reading, and resolve its wallpaper
    /// directory against the theme directory `dir`.  A document that
    /// did not parse (`doc` of nothing) or an entry that does not
    /// decode fails with `ConfigParse`.
    pub fn read(doc: Option<Vec<RawEntry>>, dir: &String, clock: &LocalNow) -> (r: Result<
        Config,
        Error,
    >)
        ensures
            r is Ok <==> read_spec(doc_model(doc), dir@, clock.day_start_val(), clock.val())
                is Some,
            r is Ok ==> (r->Ok_0).model() == read_spec(
                doc_model(doc),
                dir@,
                clock.day_start_val(),
                clock.val(),
            )->0 && (r->Ok_0).wf(),
            r is Err ==> r->Err_0 is ConfigParse,
    {
        let es = match doc {
            Option::None => {
                return Err(Error::ConfigParse);
            },
            Option::Some(es) => es,
        };
        proof {
            assert(doc_model(doc) == Some(es@));
        }
        let n = es.len();
        let mut cfgs: Vec<Config> = Vec::new();
        let mut i: usize = 0;
        while i < n
            invariant
                doc_model(doc) == Some(es@),
                n == es@.len(),
                i <= n,
                cfgs@.len() == i,
                forall|j: int| 0 <= j < i ==> decode_spec(#[trigger] es@[j]) is Some,
                forall|j: int| 0 <= j < i ==> (#[trigger] cfgs@[j]).model() == decode_spec(
                    es@[j],
                )->0,
                forall|j: int| 0 <= j < i ==> (#[trigger] cfgs@[j]).wf(),
            decreases n - i,
        {
            match Config::from_raw(&es[i]) {
                Ok(c) => {
                    cfgs.push(c);
                },
                Err(e) => {
                    proof {
                        assert(decode_spec(es@[i as int]) is None);
                        assert(!all_entries_decode(es@));
                    }
                    return Err(e);
                },
            }
            i = i + 1;
        }
        proof {
            assert(models_of(cfgs@) =~= decoded_models(es@));
        }
        let sel = get_current(&cfgs, clock);
        let path = resolve_path(dir, &sel.path);
        Ok(Config { start: sel.start, duration: sel.duration, path, selection: sel.selection })
    }
}

/// The text a config reader works on: an absent or empty file denotes
/// the empty document.
pub open spec fn effective_config_text_spec(text: Option<String>) -> Seq<char> {
    match text {
        Option::None => "[]"@,
        Option::Some(t) => if t@.len() == 0 {
            "[]"@
        } else {
            t@
        },
    }
}

/// The text to decode, given what reading the config file yielded: a
/// missing or empty file counts as the empty document.
pub fn effective_config_text(text: Option<String>) -> (r: String)
    ensures
        r@ == effective_config_text_spec(text),
{
    match text {
        Option::None => "[]".to_owned(),
        Option::Some(t) => {
            if t.as_str().is_empty() {
                "[]".to_owned()
            } else {
                t
            }
        },
    }
}

/// Round-trip with defaults: a document with no entries reads exactly
/// as a document of one entry with every field absent, and both yield
/// the defaults with the theme directory itself.
pub proof fn lemma_empty_config_defaults(dir: Seq<char>, day0: int, now: int, e: RawEntry)
    requires
        e.start is None,
        e.duration is None,
        e.path is None,
        e.selection is None,
    ensures
        read_spec(Some(Seq::<RawEntry>::empty()), dir, day0, now) == read_spec(
            Some(seq![e]),
            dir,
            day0,
            now,
        ),
        read_spec(Some(Seq::<RawEntry>::empty()), dir, day0, now) == Some(
            (0int, 24int, dir, SelectionMode::Random),
        ),
{
    let empty = Seq::<RawEntry>::empty();
    assert(all_entries_decode(empty));
    assert(select_spec(decoded_models(empty), day0, now) == default_model()) by {
        assert(decoded_models(empty).len() == 0);
    }
    let one = seq![e];
    assert(decode_spec(e) == Some(default_model()));
    assert(all_entries_decode(one)) by {
        assert(one[0] == e);
    }
    let models = decoded_models(one);
    assert(models.len() == 1);
    assert(models[0] == default_model());
    let ws = windows_of(models, day0);
    assert(ws.len() == 1);
    lemma_current_index_in_range(ws, now);
    assert(select_spec(models, day0, now) == default_model());
}

} // verus!
