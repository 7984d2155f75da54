//! The event history: events recorded as the machine is watched, and events read back
//! from the log file `[YYYY-MM-DD HH:MM:SS] TYPE: DESCRIPTION`.
use vstd::prelude::*;
use vstd::string::*;
use crate::power::elapsed;
use crate::text::{
    is_whitespace, lemma_first_index, lemma_strip_leading, lemma_trim_end_take,
    lemma_trim_start_skip, lines_split, strip_cr, trim_end, trim_start,
    decimal, decimal_string, find_char, first_index, lines, slice_chars, split_lines, strip_leading, strip_leading_chars,
    string_from_chars, to_chars, trim, trim_chars, views,
};

verus! {

/// One entry of the event history.
pub struct SystemEvent {
    pub timestamp: u64,
    pub event_type: String,
    pub description: String,
}

impl DeepView for SystemEvent {
    type V = (u64, Seq<char>, Seq<char>);

    open spec fn deep_view(&self) -> (u64, Seq<char>, Seq<char>) {
        (self.timestamp, self.event_type@, self.description@)
    }
}

impl SystemEvent {
    pub fn new(timestamp: u64, event_type: &str, description: String) -> (e: SystemEvent)
        ensures
            e.deep_view() == (timestamp, event_type@, description@),
    {
        SystemEvent { timestamp, event_type: String::from_str(event_type), description }
    }

    /// A copy of the event.
    pub fn duplicate(&self) -> (e: SystemEvent)
        ensures
            e.deep_view() == self.deep_view(),
    {
        SystemEvent {
            timestamp: self.timestamp,
            event_type: self.event_type.clone(),
            description: self.description.clone(),
        }
    }
}

/// Copies every event of `events`.
pub fn duplicate_all(events: &Vec<SystemEvent>) -> (r: Vec<SystemEvent>)
    ensures
        r.deep_view() == events.deep_view(),
{
    let mut r: Vec<SystemEvent> = Vec::new();
    let mut k: usize = 0;
    while k < events.len()
        invariant
            k <= events@.len(),
            r.deep_view() == events.deep_view().take(k as int),
        decreases events.len() - k,
    {
        let ghost prev = r.deep_view();
        let e = events[k].duplicate();
        r.push(e);
        assert(r.deep_view() =~= prev.push(events@[k as int].deep_view()));
        k = k + 1;
        assert(r.deep_view() =~= events.deep_view().take(k as int));
    }
    assert(events.deep_view().take(events@.len() as int) =~= events.deep_view());
    r
}

/// What `str::to_uppercase` gives back for a text.
pub uninterp spec fn uppercase(s: Seq<char>) -> Seq<char>;

/// Calls `str::to_uppercase`; claims only that the result is a function of the text.
#[verifier::external_body]
pub(crate) fn to_uppercase(s: &str) -> (u: String)
    ensures
        u@ == uppercase(s@),
{
    s.to_uppercase()
}

/// What chrono's `NaiveDateTime::parse_from_str(text, format)` gives back, read as a UTC
/// time in seconds since the Unix epoch (`and_utc().timestamp()`); `None` where the text
/// does not match the format.
pub uninterp spec fn naive_utc_timestamp(text: Seq<char>, format: Seq<char>) -> Option<i64>;

/// Calls chrono's `NaiveDateTime::parse_from_str` and converts a parsed date and time to
/// UTC seconds; claims only that the result is a function of the text and the format.
#[verifier::external_body]
pub(crate) fn parse_utc_timestamp(text: &str, format: &str) -> (t: Option<i64>)
    ensures
        t == naive_utc_timestamp(text@, format@),
{
    match chrono::NaiveDateTime::parse_from_str(text, format) {
        Ok(dt) => Some(dt.and_utc().timestamp()),
        Err(_) => None,
    }
}

/// The format of the log's time stamps.
pub open spec fn log_time_format() -> Seq<char> {
    "%Y-%m-%d %H:%M:%S"@
}

/// The time stamp, type and description of a log line `[stamp] TYPE: DESCRIPTION`: the
/// stamp runs up to the first `]` (without leading `[`s), the type up to the first `:`
/// after it; type and description are trimmed.
pub open spec fn parse_log_line(line: Seq<char>) -> Option<(Seq<char>, Seq<char>, Seq<char>)> {
    if line.len() > 0 && line[0] == '[' {
        match first_index(line, ']') {
            Some(k) => {
                let stamp = strip_leading(line.take(k as int), '[');
                let rest = trim(line.skip(k + 1int));
                match first_index(rest, ':') {
                    Some(j) => Some(
                        (stamp, trim(rest.take(j as int)), trim(rest.skip(j + 1int))),
                    ),
                    None => None,
                }
            },
            None => None,
        }
    } else {
        None
    }
}

/// The event of a log line; a stamp that does not parse counts as time 0.
pub open spec fn log_line_event(line: Seq<char>) -> Option<(u64, Seq<char>, Seq<char>)> {
    match parse_log_line(line) {
        Some((stamp, kind, description)) => Some(
            (
                match naive_utc_timestamp(stamp, log_time_format()) {
                    Some(t) => t as u64,
                    None => 0u64,
                },
                kind,
                description,
            ),
        ),
        None => None,
    }
}

/// The events of the lines that parse, in order.
pub open spec fn log_events(lines: Seq<Seq<char>>) -> Seq<(u64, Seq<char>, Seq<char>)>
    decreases lines.len(),
{
    if lines.len() == 0 {
        Seq::empty()
    } else {
        log_events(lines.drop_last()) + match log_line_event(lines.last()) {
            Some(e) => seq![e],
            None => Seq::empty(),
        }
    }
}

/// The last 50 lines of a log, newest first.
pub open spec fn recent_lines(content: Seq<char>) -> Seq<Seq<char>> {
    let ls = lines(content);
    ls.reverse().take(
        if ls.len() < 50 {
            ls.len() as int
        } else {
            50
        },
    )
}

/// Whether `events` holds an event with this time stamp and description.
pub open spec fn has_event(events: Seq<(u64, Seq<char>, Seq<char>)>, timestamp: u64, description: Seq<char>) -> bool {
    exists|i: int| 0 <= i < events.len() && events[i].0 == timestamp && events[i].2 == description
}

/// `events` followed by each of `loaded` that it does not hold yet (same time stamp and
/// description), in order.
pub open spec fn merge_new(events: Seq<(u64, Seq<char>, Seq<char>)>, loaded: Seq<(u64, Seq<char>, Seq<char>)>) -> Seq<
    (u64, Seq<char>, Seq<char>),
>
    decreases loaded.len(),
{
    if loaded.len() == 0 {
        events
    } else {
        let m = merge_new(events, loaded.drop_last());
        let e = loaded.last();
        if has_event(m, e.0, e.2) {
            m
        } else {
            m.push(e)
        }
    }
}

/// `e` placed into `s` after every event with the same or an earlier time stamp at its end.
pub open spec fn insert_by_time(s: Seq<(u64, Seq<char>, Seq<char>)>, e: (u64, Seq<char>, Seq<char>)) -> Seq<
    (u64, Seq<char>, Seq<char>),
>
    decreases s.len(),
{
    if s.len() == 0 {
        seq![e]
    } else if s.last().0 <= e.0 {
        s.push(e)
    } else {
        insert_by_time(s.drop_last(), e).push(s.last())
    }
}

/// The stable sort by time stamp (`sort_by_key`): events with equal stamps keep their order.
pub open spec fn sort_by_time(s: Seq<(u64, Seq<char>, Seq<char>)>) -> Seq<(u64, Seq<char>, Seq<char>)>
    decreases s.len(),
{
    if s.len() == 0 {
        s
    } else {
        insert_by_time(sort_by_time(s.drop_last()), s.last())
    }
}

/// The history after the log is read: the recent log lines' events added where new,
/// then all sorted by time stamp.
pub open spec fn history_with_log(events: Seq<(u64, Seq<char>, Seq<char>)>, content: Seq<char>) -> Seq<
    (u64, Seq<char>, Seq<char>),
> {
    sort_by_time(merge_new(events, log_events(recent_lines(content))))
}

/// Reads one log line.
pub fn read_log_line(line: &[char]) -> (r: Option<SystemEvent>)
    ensures
        match log_line_event(line@) {
            Some(e) => r matches Some(ev) && ev.deep_view() == e,
            None => r is None,
        },
{
    if line.len() == 0 || line[0] != '[' {
        return None;
    }
    let k = match find_char(line, ']') {
        Some(k) => k,
        None => return None,
    };
    let head = slice_chars(line, 0, k);
    assert(head@ =~= line@.take(k as int));
    let stamp = strip_leading_chars(head.as_slice(), '[');
    let tail = slice_chars(line, k + 1, line.len());
    assert(tail@ =~= line@.skip(k + 1));
    let rest = trim_chars(tail.as_slice());
    let j = match find_char(rest.as_slice(), ':') {
        Some(j) => j,
        None => {
            proof {
                assert(first_index(line@, ']') == Some(k as nat));
                assert(parse_log_line(line@) is None);
            }
            return None;
        },
    };
    let kind_part = slice_chars(rest.as_slice(), 0, j);
    assert(kind_part@ =~= rest@.take(j as int));
    let desc_part = slice_chars(rest.as_slice(), j + 1, rest.len());
    assert(desc_part@ =~= rest@.skip(j + 1));
    let kind = trim_chars(kind_part.as_slice());
    let description = trim_chars(desc_part.as_slice());
    let stamp_text = string_from_chars(&stamp);
    let timestamp: u64 = match parse_utc_timestamp(stamp_text.as_str(), "%Y-%m-%d %H:%M:%S") {
        Some(t) => #[verifier::truncate] (t as u64),
        None => 0,
    };
    proof {
        assert(first_index(line@, ']') == Some(k as nat));
        assert(first_index(rest@, ':') == Some(j as nat));
        assert(parse_log_line(line@) == Some((stamp@, kind@, description@)));
    }
    Some(
        SystemEvent {
            timestamp,
            event_type: string_from_chars(&kind),
            description: string_from_chars(&description),
        },
    )
}

proof fn lemma_insert_by_time(s: Seq<(u64, Seq<char>, Seq<char>)>, e: (u64, Seq<char>, Seq<char>), j: int)
    requires
        0 <= j <= s.len(),
        forall|m: int| j <= m < s.len() ==> s[m].0 > e.0,
        j == 0 || s[j - 1].0 <= e.0,
    ensures
        insert_by_time(s, e) == s.insert(j, e),
    decreases s.len(),
{
    if s.len() == 0 {
        assert(s.insert(j, e) =~= seq![e]);
    } else if j == s.len() {
        assert(s.insert(j, e) =~= s.push(e));
    } else {
        let t = s.drop_last();
        assert forall|m: int| j <= m < t.len() implies t[m].0 > e.0 by {
            assert(t[m] == s[m]);
        }
        if j > 0 {
            assert(t[j - 1] == s[j - 1]);
        }
        lemma_insert_by_time(t, e, j);
        assert(t.insert(j, e).push(s.last()) =~= s.insert(j, e));
    }
}

/// Sorts events by time stamp, keeping the order of events with equal stamps.
pub fn sort_by_timestamp(events: &Vec<SystemEvent>) -> (r: Vec<SystemEvent>)
    ensures
        r.deep_view() == sort_by_time(events.deep_view()),
{
    let mut sorted: Vec<SystemEvent> = Vec::new();
    let mut k: usize = 0;
    while k < events.len()
        invariant
            k <= events@.len(),
            sorted.deep_view() == sort_by_time(events.deep_view().take(k as int)),
        decreases events.len() - k,
    {
        let e = events[k].duplicate();
        let ts = e.timestamp;
        let mut j = sorted.len();
        while j > 0 && sorted[j - 1].timestamp > ts
            invariant
                j <= sorted@.len(),
                forall|m: int| j <= m < sorted@.len() ==> sorted@[m].timestamp > ts,
            decreases j,
        {
            j = j - 1;
        }
        let ghost before = sorted.deep_view();
        let ghost ev = e.deep_view();
        proof {
            let d = events.deep_view();
            assert(d.take(k + 1).drop_last() =~= d.take(k as int));
            assert(d.take(k + 1).last() == ev);
            assert forall|m: int| j <= m < before.len() implies before[m].0 > ev.0 by {
                assert(before[m] == sorted@[m].deep_view());
            }
            if j > 0 {
                assert(before[j - 1] == sorted@[j - 1].deep_view());
            }
            lemma_insert_by_time(before, ev, j as int);
        }
        sorted.insert(j, e);
        assert(sorted.deep_view() =~= before.insert(j as int, ev));
        k = k + 1;
    }
    assert(events.deep_view().take(events@.len() as int) =~= events.deep_view());
    sorted
}

/// Whether `events` holds an event with this time stamp and description.
pub fn contains_event(events: &Vec<SystemEvent>, timestamp: u64, description: &String) -> (b: bool)
    ensures
        b == has_event(events.deep_view(), timestamp, description@),
{
    let mut k: usize = 0;
    while k < events.len()
        invariant
            k <= events@.len(),
            forall|m: int|
                0 <= m < k ==> !(events@[m].timestamp == timestamp && events@[m].description@
                    == description@),
        decreases events.len() - k,
    {
        if events[k].timestamp == timestamp && events[k].description == *description {
            assert(events.deep_view()[k as int] == events@[k as int].deep_view());
            return true;
        }
        k = k + 1;
    }
    assert forall|i: int|
        0 <= i < events.deep_view().len() implies !(events.deep_view()[i].0 == timestamp
        && events.deep_view()[i].2 == description@) by {
        assert(events.deep_view()[i] == events@[i].deep_view());
    }
    false
}

/// The events of the last 50 lines of a log, newest first.
pub fn recent_log_events(content: &str) -> (r: Vec<SystemEvent>)
    ensures
        r.deep_view() == log_events(recent_lines(content@)),
{
    let chars = to_chars(content);
    let all = split_lines(chars.as_slice());
    let ghost ls = lines(content@);
    let n = all.len();
    let count: usize = if n < 50 { n } else { 50 };
    let ghost recent = recent_lines(content@);
    assert(recent.len() == count);
    let mut r: Vec<SystemEvent> = Vec::new();
    let mut k: usize = 0;
    while k < count
        invariant
            count <= n == all@.len(),
            k <= count,
            views(all@) == ls,
            recent == ls.reverse().take(count as int),
            r.deep_view() == log_events(recent.take(k as int)),
        decreases count - k,
    {
        let line = &all[n - 1 - k];
        proof {
            assert(recent[k as int] == ls[n - 1 - k]);
            assert(ls[n - 1 - k] == all@[n - 1 - k]@);
            assert(recent.take(k + 1).drop_last() =~= recent.take(k as int));
            assert(recent.take(k + 1).last() == line@);
        }
        let ghost prev = r.deep_view();
        match read_log_line(line.as_slice()) {
            Some(e) => {
                r.push(e);
                assert(r.deep_view() =~= prev.push(log_line_event(line@).unwrap()));
            },
            None => {},
        }
        k = k + 1;
    }
    assert(recent.take(count as int) =~= recent);
    r
}

/// Adds the events of the last 50 lines of a log that `events` does not hold yet, then
/// sorts everything by time stamp.
pub fn add_log_events(events: &Vec<SystemEvent>, content: &str) -> (r: Vec<SystemEvent>)
    ensures
        r.deep_view() == history_with_log(events.deep_view(), content@),
{
    let loaded = recent_log_events(content);
    let ghost ld = loaded.deep_view();
    let mut merged = duplicate_all(events);
    let mut k: usize = 0;
    while k < loaded.len()
        invariant
            k <= loaded@.len(),
            ld == loaded.deep_view(),
            merged.deep_view() == merge_new(events.deep_view(), ld.take(k as int)),
        decreases loaded.len() - k,
    {
        let ev = &loaded[k];
        proof {
            assert(ld.take(k + 1).drop_last() =~= ld.take(k as int));
            assert(ld.take(k + 1).last() == ev.deep_view());
        }
        if !contains_event(&merged, ev.timestamp, &ev.description) {
            let ghost prev = merged.deep_view();
            merged.push(ev.duplicate());
            assert(merged.deep_view() =~= prev.push(ev.deep_view()));
        }
        k = k + 1;
    }
    assert(ld.take(ld.len() as int) =~= ld);
    sort_by_timestamp(&merged)
}

/// Events kept in memory: when one sample's events take the history above this, its
/// oldest event is dropped.
pub const HISTORY_LIMIT: usize = 50;

/// Least time between two reports of the same heavy process load, in nanoseconds (30 s).
pub const HEAVY_REPORT_GAP_NS: u64 = 30000000000;

/// The process using the most CPU, where it uses more than 90 %.
pub struct HeavyProcess {
    pub name: String,
    pub pid: u32,
}

/// The watcher's memory of events, as the contracts see it.
pub struct MonitorState {
    pub last_mode: Option<Seq<char>>,
    pub last_heavy_report_ns: u64,
    pub events: Seq<(u64, Seq<char>, Seq<char>)>,
}

/// The watcher's memory of events: the last operation mode seen, the last report of a
/// heavy process, and the event history.
pub struct Monitor {
    last_mode: Option<String>,
    last_heavy_report_ns: u64,
    events: Vec<SystemEvent>,
}

impl View for Monitor {
    type V = MonitorState;

    closed spec fn view(&self) -> MonitorState {
        MonitorState {
            last_mode: match self.last_mode {
                Some(m) => Some(m@),
                None => None,
            },
            last_heavy_report_ns: self.last_heavy_report_ns,
            events: self.events.deep_view(),
        }
    }
}

pub open spec fn mode_shift_description(mode: Seq<char>) -> Seq<char> {
    "System strategy shifted to "@ + uppercase(mode)
}

pub open spec fn heavy_description(name: Seq<char>, pid: u32) -> Seq<char> {
    "Process '"@ + name + "' (PID "@ + decimal(pid as nat) + ") is consuming > 90% CPU"@
}

/// A mode shift is recorded when a mode was seen before and the new one differs.
pub open spec fn mode_shift_events(last_mode: Option<Seq<char>>, mode: Seq<char>, now_unix: u64) -> Seq<
    (u64, Seq<char>, Seq<char>),
> {
    match last_mode {
        Some(prev) => if prev != mode {
            seq![(now_unix, "MODE_SHIFT"@, mode_shift_description(mode))]
        } else {
            Seq::empty()
        },
        None => Seq::empty(),
    }
}

/// A heavy process is reported when the last report is more than 30 s old.
pub open spec fn heavy_due(s: MonitorState, heavy: Option<(Seq<char>, u32)>, now_ns: u64) -> bool {
    elapsed(now_ns, s.last_heavy_report_ns) > HEAVY_REPORT_GAP_NS && heavy is Some
}

/// The events of one sample: a mode shift, a thermal spike (described by the caller),
/// then a heavy process, each where it happened.
pub open spec fn sample_events(
    s: MonitorState,
    mode: Seq<char>,
    thermal_spike: Option<Seq<char>>,
    heavy: Option<(Seq<char>, u32)>,
    now_unix: u64,
    now_ns: u64,
) -> Seq<(u64, Seq<char>, Seq<char>)> {
    mode_shift_events(s.last_mode, mode, now_unix) + match thermal_spike {
        Some(d) => seq![(now_unix, "THERMAL_SPIKE"@, d)],
        None => Seq::empty(),
    } + if heavy_due(s, heavy, now_ns) {
        seq![(now_unix, "RESOURCE_HEAVY"@, heavy_description(heavy.unwrap().0, heavy.unwrap().1))]
    } else {
        Seq::empty()
    }
}

/// The history after new events: the oldest one dropped where it runs above the limit.
pub open spec fn capped_history(h: Seq<(u64, Seq<char>, Seq<char>)>) -> Seq<(u64, Seq<char>, Seq<char>)> {
    if h.len() > HISTORY_LIMIT {
        h.drop_first()
    } else {
        h
    }
}

pub open spec fn heavy_view(heavy: Option<HeavyProcess>) -> Option<(Seq<char>, u32)> {
    match heavy {
        Some(p) => Some((p.name@, p.pid)),
        None => None,
    }
}

pub open spec fn text_view(t: Option<String>) -> Option<Seq<char>> {
    match t {
        Some(s) => Some(s@),
        None => None,
    }
}

/// The memory after one sample.
pub open spec fn after_sample(
    s: MonitorState,
    mode: Seq<char>,
    thermal_spike: Option<Seq<char>>,
    heavy: Option<(Seq<char>, u32)>,
    now_unix: u64,
    now_ns: u64,
) -> MonitorState {
    MonitorState {
        last_mode: Some(mode),
        last_heavy_report_ns: if heavy_due(s, heavy, now_ns) {
            now_ns
        } else {
            s.last_heavy_report_ns
        },
        events: capped_history(
            s.events + sample_events(s, mode, thermal_spike, heavy, now_unix, now_ns),
        ),
    }
}

/// A log line `[stamp] TYPE: DESCRIPTION`, without its line ending.
pub open spec fn log_line(stamp: Seq<char>, event_type: Seq<char>, description: Seq<char>) -> Seq<char> {
    "["@ + stamp + "] "@ + event_type + ": "@ + description
}

/// The line, with its ending, that records an event in the log.
pub fn format_log_line(stamp: &str, event: &SystemEvent) -> (line: String)
    ensures
        line@ == log_line(stamp@, event.event_type@, event.description@) + "\n"@,
{
    let mut line = String::from_str("[");
    line.append(stamp);
    line.append("] ");
    line.append(event.event_type.as_str());
    line.append(": ");
    line.append(event.description.as_str());
    line.append("\n");
    line
}

/// What the log viewer shows: the log's text, or a note where it is blank.
pub open spec fn log_view(content: Seq<char>) -> Seq<char> {
    if trim(content).len() == 0 {
        "Operational records file is empty. Standby for daemon loop offsets..."@
    } else {
        content
    }
}

pub fn log_view_text(content: &str) -> (r: String)
    ensures
        r@ == log_view(content@),
{
    let chars = to_chars(content);
    let t = trim_chars(chars.as_slice());
    if t.len() == 0 {
        String::from_str("Operational records file is empty. Standby for daemon loop offsets...")
    } else {
        String::from_str(content)
    }
}

impl Monitor {
    /// A watcher that has seen no mode yet, whose last heavy-process report lies 60 s
    /// back, and whose history holds the events of the last 50 lines of the log
    /// (`None` where the log cannot be read), sorted by time.
    pub fn new(log_content: Option<&str>, now_ns: u64) -> (m: Monitor)
        requires
            now_ns >= 60000000000,
        ensures
            m@ == (MonitorState {
                last_mode: None,
                last_heavy_report_ns: (now_ns - 60000000000) as u64,
                events: match log_content {
                    Some(c) => history_with_log(Seq::empty(), c@),
                    None => Seq::empty(),
                },
            }),
    {
        let empty: Vec<SystemEvent> = Vec::new();
        let events = match log_content {
            Some(c) => {
                assert(empty.deep_view() =~= Seq::<(u64, Seq<char>, Seq<char>)>::empty());
                add_log_events(&empty, c)
            },
            None => empty,
        };
        let m = Monitor { last_mode: None, last_heavy_report_ns: now_ns - 60000000000, events };
        assert(m@.events =~= match log_content {
            Some(c) => history_with_log(Seq::empty(), c@),
            None => Seq::empty(),
        });
        m
    }

    /// A copy of the event history.
    pub fn events(&self) -> (r: Vec<SystemEvent>)
        ensures
            r.deep_view() == self@.events,
    {
        duplicate_all(&self.events)
    }

    /// Records one sample: the operation mode in force, the description of a thermal
    /// spike where the caller found one, and the heaviest process where it uses more
    /// than 90 % of the CPU. Returns the new events (to be logged) and the history.
    pub fn update_events(
        &mut self,
        mode: &str,
        thermal_spike: Option<String>,
        heavy: Option<HeavyProcess>,
        now_unix: u64,
        now_ns: u64,
    ) -> (r: (Vec<SystemEvent>, Vec<SystemEvent>))
        ensures
            r.0.deep_view() == sample_events(
                old(self)@,
                mode@,
                text_view(thermal_spike),
                heavy_view(heavy),
                now_unix,
                now_ns,
            ),
            final(self)@ == after_sample(
                old(self)@,
                mode@,
                text_view(thermal_spike),
                heavy_view(heavy),
                now_unix,
                now_ns,
            ),
            r.1.deep_view() == final(self)@.events,
    {
        let ghost s0 = self@;
        let mut fresh: Vec<SystemEvent> = Vec::new();
        let shifted = match &self.last_mode {
            Some(prev) => !crate::text::str_equals(prev.as_str(), mode),
            None => false,
        };
        if shifted {
            let mut description = String::from_str("System strategy shifted to ");
            let upper = to_uppercase(mode);
            description.append(upper.as_str());
            fresh.push(SystemEvent::new(now_unix, "MODE_SHIFT", description));
        }
        assert(fresh.deep_view() =~= mode_shift_events(s0.last_mode, mode@, now_unix));
        self.last_mode = Some(String::from_str(mode));
        match thermal_spike {
            Some(d) => {
                fresh.push(SystemEvent::new(now_unix, "THERMAL_SPIKE", d));
            },
            None => {},
        }
        let due = crate::power::elapsed_ns(now_ns, self.last_heavy_report_ns) > HEAVY_REPORT_GAP_NS;
        match heavy {
            Some(p) => {
                if due {
                    let mut description = String::from_str("Process '");
                    description.append(p.name.as_str());
                    description.append("' (PID ");
                    let pid = decimal_string(p.pid as u64);
                    description.append(pid.as_str());
                    description.append(") is consuming > 90% CPU");
                    fresh.push(SystemEvent::new(now_unix, "RESOURCE_HEAVY", description));
                    self.last_heavy_report_ns = now_ns;
                }
            },
            None => {},
        }
        assert(fresh.deep_view() =~= sample_events(
            s0,
            mode@,
            text_view(thermal_spike),
            heavy_view(heavy),
            now_unix,
            now_ns,
        ));
        let mut k: usize = 0;
        let ghost e0 = self.events.deep_view();
        let ghost lh = self.last_heavy_report_ns;
        let ghost lm = self@.last_mode;
        assert(lm == Some(mode@));
        while k < fresh.len()
            invariant
                k <= fresh@.len(),
                self.last_heavy_report_ns == lh,
                self@.last_mode == lm,
                self.events.deep_view() == e0 + fresh.deep_view().take(k as int),
            decreases fresh.len() - k,
        {
            let ghost prev = self.events.deep_view();
            self.events.push(fresh[k].duplicate());
            assert(fresh.deep_view().take(k + 1) =~= fresh.deep_view().take(k as int).push(
                fresh@[k as int].deep_view(),
            ));
            assert(self.events.deep_view() =~= prev.push(fresh@[k as int].deep_view()));
            k = k + 1;
        }
        assert(fresh.deep_view().take(fresh@.len() as int) =~= fresh.deep_view());
        if self.events.len() > HISTORY_LIMIT {
            let ghost before = self.events.deep_view();
            self.events.remove(0);
            assert(self.events.deep_view() =~= before.drop_first());
        }
        proof {
            let want = after_sample(
                s0,
                mode@,
                text_view(thermal_spike),
                heavy_view(heavy),
                now_unix,
                now_ns,
            );
            assert(self@.events =~= want.events);
            assert(self@.last_mode == want.last_mode);
            assert(self@.last_heavy_report_ns == want.last_heavy_report_ns);
        }
        let history = duplicate_all(&self.events);
        (fresh, history)
    }

    /// Reads the events of the last 50 lines of the log into the history, skipping those
    /// already held, and sorts the history by time.
    pub fn load_events_from_log(&mut self, content: &str)
        ensures
            final(self)@ == (MonitorState {
                events: history_with_log(old(self)@.events, content@),
                ..old(self)@
            }),
    {
        let merged = add_log_events(&self.events, content);
        self.events = merged;
    }
}

proof fn lemma_trimmed_ends(s: Seq<char>)
    requires
        trim(s) == s,
    ensures
        s.len() > 0 ==> !is_whitespace(s[0]) && !is_whitespace(s.last()),
{
    if s.len() > 0 {
        if is_whitespace(s[0]) {
            lemma_trim_prefix_len(s);
        }
        if is_whitespace(s.last()) {
            lemma_trim_suffix_len(trim_start(s));
            lemma_trim_start_len(s);
            if trim_start(s).len() == s.len() {
                lemma_trim_start_same(s);
            }
        }
    }
}

proof fn lemma_trim_start_len(s: Seq<char>)
    ensures
        trim_start(s).len() <= s.len(),
        trim_start(s).len() == s.len() ==> trim_start(s) == s,
    decreases s.len(),
{
    if s.len() > 0 && is_whitespace(s[0]) {
        lemma_trim_start_len(s.drop_first());
    }
}

proof fn lemma_trim_start_same(s: Seq<char>)
    requires
        trim_start(s).len() == s.len(),
    ensures
        trim_start(s) == s,
{
    lemma_trim_start_len(s);
}

proof fn lemma_trim_end_len(s: Seq<char>)
    ensures
        trim_end(s).len() <= s.len(),
    decreases s.len(),
{
    if s.len() > 0 && is_whitespace(s.last()) {
        lemma_trim_end_len(s.drop_last());
    }
}

proof fn lemma_trim_prefix_len(s: Seq<char>)
    requires
        s.len() > 0,
        is_whitespace(s[0]),
    ensures
        trim(s).len() < s.len(),
{
    lemma_trim_start_len(s.drop_first());
    lemma_trim_end_len(trim_start(s));
}

proof fn lemma_trim_suffix_len(s: Seq<char>)
    requires
        s.len() > 0,
        is_whitespace(s.last()),
    ensures
        trim_end(s).len() < s.len(),
{
    lemma_trim_end_len(s.drop_last());
}

/// Trimming whitespace around a text whose own ends are not whitespace gives the text.
proof fn lemma_trim_padded(pre: Seq<char>, mid: Seq<char>, post: Seq<char>)
    requires
        forall|i: int| 0 <= i < pre.len() ==> is_whitespace(#[trigger] pre[i]),
        forall|i: int| 0 <= i < post.len() ==> is_whitespace(#[trigger] post[i]),
        mid.len() > 0,
        !is_whitespace(mid[0]),
        !is_whitespace(mid.last()),
    ensures
        trim(pre + mid + post) == mid,
{
    let s = pre + mid + post;
    assert forall|k: int| 0 <= k < pre.len() implies is_whitespace(#[trigger] s[k]) by {
        assert(s[k] == pre[k]);
    }
    assert(s[pre.len() as int] == mid[0]);
    lemma_trim_start_skip(s, pre.len() as int);
    let t = s.skip(pre.len() as int);
    assert(t =~= mid + post);
    assert forall|k: int| mid.len() <= k < t.len() implies is_whitespace(#[trigger] t[k]) by {
        assert(t[k] == post[k - mid.len()]);
    }
    assert(t[mid.len() - 1] == mid.last());
    lemma_trim_end_take(t, mid.len() as int);
    assert(t.take(mid.len() as int) =~= mid);
}

/// A line that the log records is read back as the same time stamp, type and
/// description, where the stamp holds no `]` and does not start with `[`, the type holds
/// no `:`, and type and description have no whitespace at their ends.
pub proof fn law_log_line_read_back(stamp: Seq<char>, event_type: Seq<char>, description: Seq<char>)
    requires
        forall|i: int| 0 <= i < stamp.len() ==> stamp[i] != ']',
        stamp.len() == 0 || stamp[0] != '[',
        forall|i: int| 0 <= i < event_type.len() ==> event_type[i] != ':',
        trim(event_type) == event_type,
        trim(description) == description,
    ensures
        parse_log_line(log_line(stamp, event_type, description)) == Some(
            (stamp, event_type, description),
        ),
{
    reveal_strlit("[");
    reveal_strlit("] ");
    reveal_strlit(": ");
    let line = log_line(stamp, event_type, description);
    let k: int = stamp.len() as int + 1;
    assert(line =~= seq!['['] + stamp + seq![']', ' '] + event_type + seq![':', ' '] + description);
    assert forall|m: int| 0 <= m < k implies line[m] != ']' by {
        if m > 0 {
            assert(line[m] == stamp[m - 1]);
        }
    }
    assert(line[k] == ']');
    lemma_first_index(line, ']', k);
    let head = line.take(k);
    assert(head =~= seq!['['] + stamp);
    assert forall|m: int| 0 <= m < 1 implies head[m] == '[' by {}
    if stamp.len() > 0 {
        assert(head[1] == stamp[0]);
    }
    lemma_strip_leading(head, '[', 1);
    assert(head.skip(1) =~= stamp);
    let tail = line.skip(k + 1);
    let mid = event_type + seq![':'];
    assert(mid.last() == ':');
    lemma_trimmed_ends(event_type);
    lemma_trimmed_ends(description);
    if event_type.len() > 0 {
        assert(mid[0] == event_type[0]);
    }
    let rest = if description.len() > 0 {
        let mid2 = mid + seq![' '] + description;
        assert(tail =~= seq![' '] + mid2 + Seq::<char>::empty());
        assert(mid2[0] == mid[0]);
        assert(mid2.last() == description.last());
        lemma_trim_padded(seq![' '], mid2, Seq::<char>::empty());
        mid2
    } else {
        assert(tail =~= seq![' '] + mid + seq![' ']);
        lemma_trim_padded(seq![' '], mid, seq![' ']);
        mid
    };
    let j = event_type.len() as int;
    assert forall|m: int| 0 <= m < j implies rest[m] != ':' by {
        assert(rest[m] == event_type[m]);
    }
    assert(rest[j] == ':');
    lemma_first_index(rest, ':', j);
    assert(rest.take(j) =~= event_type);
    if description.len() > 0 {
        assert(rest.skip(j + 1) =~= seq![' '] + description + Seq::<char>::empty());
        lemma_trim_padded(seq![' '], description, Seq::<char>::empty());
    } else {
        assert(rest.skip(j + 1) =~= Seq::<char>::empty());
        assert(trim(Seq::<char>::empty()) =~= Seq::<char>::empty());
    }
}

/// Whether the events are in time order.
pub open spec fn in_time_order(s: Seq<(u64, Seq<char>, Seq<char>)>) -> bool {
    forall|i: int, j: int| 0 <= i < j < s.len() ==> s[i].0 <= s[j].0
}

proof fn lemma_insert_by_time_ordered(s: Seq<(u64, Seq<char>, Seq<char>)>, e: (u64, Seq<char>, Seq<char>))
    requires
        in_time_order(s),
    ensures
        in_time_order(insert_by_time(s, e)),
        insert_by_time(s, e).len() == s.len() + 1,
        forall|i: int|
            0 <= i < insert_by_time(s, e).len() ==> #[trigger] insert_by_time(s, e)[i] == e || (exists|k: int|
                0 <= k < s.len() && insert_by_time(s, e)[i] == s[k]),
    decreases s.len(),
{
    if s.len() == 0 {
    } else if s.last().0 <= e.0 {
        let r = s.push(e);
        assert forall|i: int| 0 <= i < r.len() implies #[trigger] r[i] == e || (exists|k: int|
            0 <= k < s.len() && r[i] == s[k]) by {
            if i < s.len() {
                assert(r[i] == s[i]);
            }
        }
    } else {
        let t = s.drop_last();
        lemma_insert_by_time_ordered(t, e);
        let u = insert_by_time(t, e);
        let r = u.push(s.last());
        assert forall|i: int| 0 <= i < u.len() implies u[i].0 <= s.last().0 by {
            if u[i] != e {
                let k = choose|k: int| 0 <= k < t.len() && u[i] == t[k];
                assert(t[k] == s[k]);
            }
        }
        assert forall|i: int, j: int| 0 <= i < j < r.len() implies r[i].0 <= r[j].0 by {
            if j == r.len() - 1 {
                assert(r[i] == u[i]);
            } else {
                assert(r[i] == u[i] && r[j] == u[j]);
            }
        }
        assert forall|i: int| 0 <= i < r.len() implies #[trigger] r[i] == e || (exists|k: int|
            0 <= k < s.len() && r[i] == s[k]) by {
            if i == r.len() - 1 {
                assert(r[i] == s[s.len() - 1]);
            } else {
                assert(r[i] == u[i]);
                if u[i] != e {
                    let k = choose|k: int| 0 <= k < t.len() && u[i] == t[k];
                    assert(t[k] == s[k]);
                }
            }
        }
    }
}

proof fn lemma_sort_by_time_ordered(s: Seq<(u64, Seq<char>, Seq<char>)>)
    ensures
        in_time_order(sort_by_time(s)),
        sort_by_time(s).len() == s.len(),
    decreases s.len(),
{
    if s.len() > 0 {
        lemma_sort_by_time_ordered(s.drop_last());
        lemma_insert_by_time_ordered(sort_by_time(s.drop_last()), s.last());
    }
}

/// After the log is read, the history is in time order.
pub proof fn law_history_in_time_order(events: Seq<(u64, Seq<char>, Seq<char>)>, content: Seq<char>)
    ensures
        in_time_order(history_with_log(events, content)),
{
    lemma_sort_by_time_ordered(merge_new(events, log_events(recent_lines(content))));
}

/// A history within the limit stays within it after a sample that records at most one
/// event.
pub proof fn law_history_bounded(
    s: MonitorState,
    mode: Seq<char>,
    thermal_spike: Option<Seq<char>>,
    heavy: Option<(Seq<char>, u32)>,
    now_unix: u64,
    now_ns: u64,
)
    requires
        s.events.len() <= HISTORY_LIMIT,
        sample_events(s, mode, thermal_spike, heavy, now_unix, now_ns).len() <= 1,
    ensures
        after_sample(s, mode, thermal_spike, heavy, now_unix, now_ns).events.len()
            <= HISTORY_LIMIT,
{
}

proof fn lemma_lines_split_no_newline(s: Seq<char>)
    requires
        forall|i: int| 0 <= i < s.len() ==> s[i] != '\n',
    ensures
        lines_split(s) == (Seq::<Seq<char>>::empty(), s),
    decreases s.len(),
{
    if s.len() > 0 {
        lemma_lines_split_no_newline(s.drop_last());
        assert(s.drop_last().push(s.last()) =~= s);
    }
}

/// A record written to an empty log is read back as exactly one line: the record
/// without its line ending, where it holds no `\n` and does not end in `\r`.
pub proof fn law_log_record_is_one_line(record: Seq<char>)
    requires
        forall|i: int| 0 <= i < record.len() ==> record[i] != '\n',
        record.len() == 0 || record.last() != '\r',
    ensures
        lines(record + "\n"@) == seq![record],
{
    reveal_strlit("\n");
    let s = record + "\n"@;
    assert(s.drop_last() =~= record);
    lemma_lines_split_no_newline(record);
    assert(strip_cr(record) == record);
}

proof fn lemma_insert_by_time_keeps(s: Seq<(u64, Seq<char>, Seq<char>)>, e: (u64, Seq<char>, Seq<char>))
    ensures
        exists|i: int| 0 <= i < insert_by_time(s, e).len() && insert_by_time(s, e)[i] == e,
        forall|k: int|
            0 <= k < s.len() ==> exists|i: int|
                0 <= i < insert_by_time(s, e).len() && insert_by_time(s, e)[i] == #[trigger] s[k],
    decreases s.len(),
{
    let r = insert_by_time(s, e);
    if s.len() == 0 {
        assert(r[0] == e);
    } else if s.last().0 <= e.0 {
        assert(r[s.len() as int] == e);
        assert forall|k: int| 0 <= k < s.len() implies exists|i: int|
            0 <= i < r.len() && r[i] == #[trigger] s[k] by {
            assert(r[k] == s[k]);
        }
    } else {
        let t = s.drop_last();
        lemma_insert_by_time_keeps(t, e);
        let u = insert_by_time(t, e);
        assert(r == u.push(s.last()));
        let j = choose|i: int| 0 <= i < u.len() && u[i] == e;
        assert(r[j] == e);
        assert forall|k: int| 0 <= k < s.len() implies exists|i: int|
            0 <= i < r.len() && r[i] == #[trigger] s[k] by {
            if k == s.len() - 1 {
                assert(r[r.len() - 1] == s[k]);
            } else {
                assert(t[k] == s[k]);
                let i = choose|i: int| 0 <= i < u.len() && u[i] == t[k];
                assert(r[i] == u[i]);
            }
        }
    }
}

proof fn lemma_sort_by_time_keeps(s: Seq<(u64, Seq<char>, Seq<char>)>)
    ensures
        forall|k: int|
            0 <= k < s.len() ==> exists|i: int|
                0 <= i < sort_by_time(s).len() && sort_by_time(s)[i] == #[trigger] s[k],
    decreases s.len(),
{
    if s.len() > 0 {
        let t = s.drop_last();
        lemma_sort_by_time_keeps(t);
        let u = sort_by_time(t);
        lemma_insert_by_time_keeps(u, s.last());
        let r = sort_by_time(s);
        assert forall|k: int| 0 <= k < s.len() implies exists|i: int|
            0 <= i < r.len() && r[i] == #[trigger] s[k] by {
            if k < s.len() - 1 {
                assert(t[k] == s[k]);
                let m = choose|m: int| 0 <= m < u.len() && u[m] == t[k];
                assert(u[m] == s[k]);
            }
        }
    }
}

proof fn lemma_merge_new_prefix(events: Seq<(u64, Seq<char>, Seq<char>)>, loaded: Seq<(u64, Seq<char>, Seq<char>)>)
    ensures
        merge_new(events, loaded).len() >= events.len(),
        forall|k: int| 0 <= k < events.len() ==> merge_new(events, loaded)[k] == events[k],
    decreases loaded.len(),
{
    if loaded.len() > 0 {
        lemma_merge_new_prefix(events, loaded.drop_last());
    }
}

proof fn lemma_merge_new_keeps(events: Seq<(u64, Seq<char>, Seq<char>)>, loaded: Seq<(u64, Seq<char>, Seq<char>)>)
    ensures
        forall|j: int|
            0 <= j < loaded.len() ==> exists|i: int|
                0 <= i < merge_new(events, loaded).len() && merge_new(events, loaded)[i].0
                    == (#[trigger] loaded[j]).0 && merge_new(events, loaded)[i].2 == loaded[j].2,
    decreases loaded.len(),
{
    if loaded.len() > 0 {
        let lt = loaded.drop_last();
        lemma_merge_new_keeps(events, lt);
        let m = merge_new(events, lt);
        let e = loaded.last();
        let r = merge_new(events, loaded);
        assert(r == if has_event(m, e.0, e.2) { m } else { m.push(e) });
        assert forall|j: int| 0 <= j < loaded.len() implies exists|i: int|
            0 <= i < r.len() && r[i].0 == (#[trigger] loaded[j]).0 && r[i].2 == loaded[j].2 by {
            if j < loaded.len() - 1 {
                assert(lt[j] == loaded[j]);
                let i = choose|i: int| 0 <= i < m.len() && m[i].0 == lt[j].0 && m[i].2 == lt[j].2;
                assert(r[i] == m[i]);
            } else if has_event(m, e.0, e.2) {
                let i = choose|i: int| 0 <= i < m.len() && m[i].0 == e.0 && m[i].2 == e.2;
                assert(r[i] == m[i]);
            } else {
                assert(r[m.len() as int] == e);
            }
        }
    }
}

/// Loading the log loses nothing: every event held before is still held, and for each
/// event of the recent log lines the history holds one with the same time stamp and the
/// same description (only an exact repeat of both is skipped).
pub proof fn law_log_loading_keeps_events(events: Seq<(u64, Seq<char>, Seq<char>)>, content: Seq<char>)
    ensures
        ({
            let h = history_with_log(events, content);
            let loaded = log_events(recent_lines(content));
            &&& forall|k: int|
                0 <= k < events.len() ==> exists|i: int| 0 <= i < h.len() && h[i] == #[trigger] events[k]
            &&& forall|j: int|
                0 <= j < loaded.len() ==> exists|i: int|
                    0 <= i < h.len() && h[i].0 == (#[trigger] loaded[j]).0 && h[i].2 == loaded[j].2
        }),
{
    let loaded = log_events(recent_lines(content));
    let m = merge_new(events, loaded);
    let h = history_with_log(events, content);
    lemma_merge_new_keeps(events, loaded);
    lemma_merge_new_prefix(events, loaded);
    lemma_sort_by_time_keeps(m);
    assert forall|k: int| 0 <= k < events.len() implies exists|i: int|
        0 <= i < h.len() && h[i] == #[trigger] events[k] by {
        assert(m[k] == events[k]);
        let i = choose|i: int| 0 <= i < h.len() && h[i] == m[k];
        assert(h[i] == events[k]);
    }
    assert forall|j: int| 0 <= j < loaded.len() implies exists|i: int|
        0 <= i < h.len() && h[i].0 == (#[trigger] loaded[j]).0 && h[i].2 == loaded[j].2 by {
        let a = choose|a: int| 0 <= a < m.len() && m[a].0 == loaded[j].0 && m[a].2 == loaded[j].2;
        let i = choose|i: int| 0 <= i < h.len() && h[i] == m[a];
        assert(h[i].0 == loaded[j].0);
    }
}

} // verus!
