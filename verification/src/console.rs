//! What the interactive console shows, as text.
//!
//! Drawing belongs to the program around this library; here is every line
//! of the investigation pane, the labels and shortcuts around it, how a raw
//! kernel line is highlighted, and how text is cut to a terminal's width.

use vstd::prelude::*;
use chrono::TimeZone;
use crate::analysis::{diagnosis_spec, investigate, name_and_pid, summary_spec};
use crate::app::{App, FocusPane};
use crate::container::{identify, identify_spec, opt_view, summary_text};
use crate::model::{
    by_rss_desc, events_view, lemma_by_rss_desc, ram_share_spec, refs_view, rss_total_spec, strings_view,
    victim_was_largest_spec, EventView, MemInfo, OomEvent, ProcessEntry, ProcessView,
};
use crate::timestamp::{days_from_civil, max_year, min_year};
use crate::text::{
    char_len, chars_of, ends_with, starts_with, contains, contains_in, decimal, decimal_string, has_at, lit_at, push_padded_end,
    push_padded_start, string_of, decimal_int, mib_text, pad_end, pad_start, push_decimal,
    push_decimal_signed, push_mib,
};

verus! {

/// What the console shows in place of a value the kernel did not log.
pub open spec fn missing() -> Seq<char> {
    "— not reported by kernel"@
}

/// What the console shows in place of a value the kernel did not log.
pub fn missing_text() -> (r: String)
    ensures
        r@ == missing(),
{
    String::from_str("— not reported by kernel")
}

// ---------------------------------------------------------------------------
// Display width (unicode-width)

/// The number of terminal columns `s` takes, as `UnicodeWidthStr::width`
/// computes it.
pub uninterp spec fn display_width(s: Seq<char>) -> usize;

/// The number of terminal columns `c` takes, as `UnicodeWidthChar::width`
/// computes it; `None` for a control character.
pub uninterp spec fn char_display_width(c: char) -> Option<usize>;

/// `unicode_width::UnicodeWidthStr::width`: the columns a string takes; a
/// function of the string alone.
#[verifier::external_body]
fn str_width(s: &str) -> (r: usize)
    ensures
        r == display_width(s@),
{
    unicode_width::UnicodeWidthStr::width(s)
}

/// `unicode_width::UnicodeWidthChar::width`: the columns a character takes,
/// `None` for a control character; a function of the character alone. Its
/// source gives the printable ASCII characters one column and the C0 control
/// characters none.
#[verifier::external_body]
fn char_width(c: char) -> (r: Option<usize>)
    ensures
        r == char_display_width(c),
        (' ' <= c && c <= '~') ==> r == Some(1usize),
        c < ' ' ==> r is None,
{
    unicode_width::UnicodeWidthChar::width(c)
}

/// A character's columns, a control character counting none.
pub open spec fn columns(c: char) -> nat {
    match char_display_width(c) {
        Some(w) => w as nat,
        None => 0,
    }
}

/// How many characters of `s[i..]` fit, with one column kept for an
/// ellipsis, in `max` columns when `width` are already used.
pub open spec fn fitting_chars(s: Seq<char>, i: int, width: nat, max: nat) -> int
    decreases s.len() - i,
{
    if 0 <= i < s.len() && width + columns(s[i]) + 1 <= max {
        fitting_chars(s, i + 1, width + columns(s[i]), max)
    } else {
        i
    }
}

/// `s` cut to `max` columns, an ellipsis marking that something was cut.
pub open spec fn truncate_to_width_spec(s: Seq<char>, max: nat) -> Seq<char> {
    if display_width(s) <= max {
        s
    } else if max == 0 {
        Seq::empty()
    } else if max == 1 {
        "…"@
    } else {
        s.take(fitting_chars(s, 0, 0, max)) + "…"@
    }
}

/// The columns of `s[..k]`, counted character by character.
pub open spec fn columns_of(s: Seq<char>, k: int) -> nat
    decreases k,
{
    if k <= 0 || k > s.len() {
        0
    } else {
        columns_of(s, k - 1) + columns(s[k - 1])
    }
}

proof fn lemma_fitting_chars(s: Seq<char>, i: int, width: nat, max: nat)
    requires
        0 <= i <= s.len(),
        width == columns_of(s, i),
        width + 1 <= max,
    ensures
        i <= fitting_chars(s, i, width, max) <= s.len(),
        columns_of(s, fitting_chars(s, i, width, max)) + 1 <= max,
    decreases s.len() - i,
{
    if i < s.len() && width + columns(s[i]) + 1 <= max {
        lemma_fitting_chars(s, i + 1, width + columns(s[i]), max);
    }
}

/// What the cut keeps fits: its characters' columns and the ellipsis's one
/// column come to at most `max`.
pub proof fn lemma_truncation_fits(s: Seq<char>, max: nat)
    requires
        max >= 2,
        display_width(s) > max,
    ensures
        truncate_to_width_spec(s, max) == s.take(fitting_chars(s, 0, 0, max)) + "…"@,
        columns_of(s, fitting_chars(s, 0, 0, max)) + 1 <= max,
{
    lemma_fitting_chars(s, 0, 0, max);
}

/// `value` cut to `max_width` terminal columns, an ellipsis marking that
/// something was cut.
pub fn truncate_to_width(value: &str, max_width: usize) -> (r: String)
    ensures
        r@ == truncate_to_width_spec(value@, max_width as nat),
{
    if str_width(value) <= max_width {
        let mut r = String::new();
        r.append(value);
        return r;
    }
    if max_width == 0 {
        return String::new();
    }
    if max_width == 1 {
        return String::from_str("…");
    }
    let v = crate::text::chars_of(value);
    let mut out = String::new();
    let mut width: usize = 0;
    let mut k: usize = 0;
    let mut full = false;
    while k < v.len() && !full
        invariant
            k <= v.len(),
            v@ == value@,
            max_width >= 2,
            width + 1 <= max_width,
            fitting_chars(v@, k as int, width as nat, max_width as nat) == fitting_chars(v@, 0, 0, max_width as nat),
            full ==> fitting_chars(v@, k as int, width as nat, max_width as nat) == k,
            out@ == v@.take(k as int),
        decreases v.len() - k, if full { 0int } else { 1int },
    {
        let c = v[k];
        let w = match char_width(c) {
            Some(w) => w,
            None => 0,
        };
        if w >= max_width - width {
            full = true;
        } else {
            out.push(c);
            width = width + w;
            k = k + 1;
            assert(out@ =~= v@.take(k as int));
        }
    }
    out.append("…");
    out
}

// ---------------------------------------------------------------------------
// Small labels

/// How many rows the incident timeline gets in the narrow layout.
pub open spec fn timeline_height_spec(terminal_height: u16, events: usize) -> u16 {
    let usable: int = if terminal_height >= 5 {
        terminal_height - 5
    } else {
        0
    };
    let twelve_less: int = if usable >= 12 {
        usable - 12
    } else {
        0
    };
    let max_timeline: int = if usable * 2 / 5 <= twelve_less {
        usable * 2 / 5
    } else {
        twelve_less
    };
    let wanted: int = if events <= 1 {
        5
    } else {
        2 + (if events <= 4 {
            events as int
        } else {
            4
        }) * 2
    };
    let floor: int = if max_timeline >= 3 {
        max_timeline
    } else {
        3
    };
    (if wanted <= floor {
        wanted
    } else {
        floor
    }) as u16
}

/// How many rows the incident timeline gets in the narrow layout: room for
/// up to four incidents, never more than two fifths of the screen or more
/// than leaves twelve rows, and at least three.
pub fn timeline_height(terminal_height: u16, events: usize) -> (r: u16)
    ensures
        r == timeline_height_spec(terminal_height, events),
{
    let usable: u16 = if terminal_height >= 5 {
        terminal_height - 5
    } else {
        0
    };
    let twelve_less: u16 = if usable >= 12 {
        usable - 12
    } else {
        0
    };
    let two_fifths: u16 = ((usable as u32) * 2 / 5) as u16;
    let max_timeline = if two_fifths <= twelve_less {
        two_fifths
    } else {
        twelve_less
    };
    let wanted: u16 = if events <= 1 {
        5
    } else if events <= 4 {
        2 + (events as u16) * 2
    } else {
        10
    };
    let floor = if max_timeline >= 3 {
        max_timeline
    } else {
        3
    };
    if wanted <= floor {
        wanted
    } else {
        floor
    }
}

pub open spec fn focus_label_spec(f: FocusPane) -> Seq<char> {
    match f {
        FocusPane::Incidents => "incidents"@,
        FocusPane::Details => "details"@,
        FocusPane::Evidence => "evidence"@,
    }
}

pub fn focus_label(focus: FocusPane) -> (r: &'static str)
    ensures
        r@ == focus_label_spec(focus),
{
    match focus {
        FocusPane::Incidents => "incidents",
        FocusPane::Details => "details",
        FocusPane::Evidence => "evidence",
    }
}

/// How much of the machine's memory the victim held.
#[derive(Clone, Copy, Debug, PartialEq, Eq, Structural)]
pub enum Impact {
    Low,
    High,
    Critical,
    Unknown,
}

pub open spec fn impact_label(i: Impact) -> Seq<char> {
    match i {
        Impact::Low => "LOW"@,
        Impact::High => "HIGH"@,
        Impact::Critical => "CRITICAL"@,
        Impact::Unknown => "UNKNOWN"@,
    }
}

pub open spec fn impact_marker(i: Impact) -> Seq<char> {
    match i {
        Impact::Low => "."@,
        Impact::High => "!!"@,
        Impact::Critical => "!!!"@,
        Impact::Unknown => "?"@,
    }
}

impl Impact {
    pub fn label(self) -> (r: &'static str)
        ensures
            r@ == impact_label(self),
    {
        match self {
            Impact::Low => "LOW",
            Impact::High => "HIGH",
            Impact::Critical => "CRITICAL",
            Impact::Unknown => "UNKNOWN",
        }
    }

    pub fn marker(self) -> (r: &'static str)
        ensures
            r@ == impact_marker(self),
    {
        match self {
            Impact::Low => ".",
            Impact::High => "!!",
            Impact::Critical => "!!!",
            Impact::Unknown => "?",
        }
    }
}

/// How much of the machine's RAM the victim held: half or more is critical,
/// a fifth or more high, less is low; unknown without both figures.
pub open spec fn impact_spec(parts: Option<(u64, u64)>) -> Impact {
    match parts {
        Some((rss, total)) => if 2 * rss >= total {
            Impact::Critical
        } else if 5 * rss >= total {
            Impact::High
        } else {
            Impact::Low
        },
        None => Impact::Unknown,
    }
}

/// The impact of a kill, from the victim's resident set and the machine's RAM.
pub fn impact_of_parts(parts: Option<(u64, u64)>) -> (r: Impact)
    ensures
        r == impact_spec(parts),
{
    match parts {
        Some((rss, total)) => {
            let rss = rss as u128;
            let total = total as u128;
            if 2 * rss >= total {
                Impact::Critical
            } else if 5 * rss >= total {
                Impact::High
            } else {
                Impact::Low
            }
        },
        None => Impact::Unknown,
    }
}

/// The impact of an event's kill.
pub fn impact(event: &OomEvent) -> (r: Impact)
    ensures
        r == impact_spec(ram_share_spec(event@)),
{
    impact_of_parts(event.rss_share_parts())
}

pub open spec fn scope_label_spec(e: EventView) -> Seq<char> {
    if e.memcg_kill {
        "cgroup memory limit"@
    } else {
        "host-wide exhaustion"@
    }
}

pub open spec fn scope_short_spec(e: EventView) -> Seq<char> {
    if e.memcg_kill {
        "cgroup"@
    } else {
        "host"@
    }
}

pub fn scope_label(event: &OomEvent) -> (r: &'static str)
    ensures
        r@ == scope_label_spec(event@),
{
    if event.memcg_kill {
        "cgroup memory limit"
    } else {
        "host-wide exhaustion"
    }
}

pub fn scope_short(event: &OomEvent) -> (r: &'static str)
    ensures
        r@ == scope_short_spec(event@),
{
    if event.memcg_kill {
        "cgroup"
    } else {
        "host"
    }
}

pub open spec fn reaper_spec(e: EventView) -> Seq<char> {
    if e.reaped {
        "confirmed — memory reclaimed"@
    } else {
        "not confirmed in log"@
    }
}

pub fn reaper(event: &OomEvent) -> (r: &'static str)
    ensures
        r@ == reaper_spec(event@),
{
    if event.reaped {
        "confirmed — memory reclaimed"
    } else {
        "not confirmed in log"
    }
}

/// A memory figure, or the missing marker.
pub open spec fn memory_spec(kb: Option<u64>) -> Seq<char> {
    match kb {
        Some(v) => mib_text(v as nat),
        None => missing(),
    }
}

pub fn memory(kb: Option<u64>) -> (r: String)
    ensures
        r@ == memory_spec(kb),
{
    match kb {
        Some(v) => crate::analysis::memory(v),
        None => missing_text(),
    }
}

/// A memory figure in MiB and exact KiB, or the missing marker.
pub open spec fn exact_memory_spec(kb: Option<u64>) -> Seq<char> {
    match kb {
        Some(v) => mib_text(v as nat) + " · "@ + decimal(v as nat) + " KiB"@,
        None => missing(),
    }
}

pub fn exact_memory(kb: Option<u64>) -> (r: String)
    ensures
        r@ == exact_memory_spec(kb),
{
    match kb {
        Some(v) => {
            let mut r = String::new();
            push_mib(&mut r, v);
            r.append(" · ");
            push_decimal(&mut r, v as u128);
            r.append(" KiB");
            assert(r@ =~= exact_memory_spec(kb));
            r
        },
        None => missing_text(),
    }
}

pub open spec fn present_spec(value: Option<Seq<char>>) -> Seq<char> {
    match value {
        Some(v) => v,
        None => missing(),
    }
}

pub fn present(value: Option<String>) -> (r: String)
    ensures
        r@ == present_spec(opt_view(value)),
{
    match value {
        Some(v) => v,
        None => missing_text(),
    }
}

pub open spec fn option_u32_spec(value: Option<u32>) -> Seq<char> {
    match value {
        Some(v) => decimal(v as nat),
        None => missing(),
    }
}

pub fn option_u32(value: Option<u32>) -> (r: String)
    ensures
        r@ == option_u32_spec(value),
{
    match value {
        Some(v) => {
            let mut r = String::new();
            push_decimal(&mut r, v as u128);
            assert(r@ =~= decimal(v as nat));
            r
        },
        None => missing_text(),
    }
}

pub open spec fn option_i32_spec(value: Option<i32>) -> Seq<char> {
    match value {
        Some(v) => decimal_int(v as int),
        None => missing(),
    }
}

pub fn option_i32(value: Option<i32>) -> (r: String)
    ensures
        r@ == option_i32_spec(value),
{
    match value {
        Some(v) => {
            let mut r = String::new();
            push_decimal_signed(&mut r, v as i64);
            assert(r@ =~= decimal_int(v as int));
            r
        },
        None => missing_text(),
    }
}

pub open spec fn allocation_spec(e: EventView) -> Seq<char> {
    match (e.gfp_mask, e.order) {
        (Some(mask), Some(order)) => "order "@ + decimal(order as nat) + " · "@ + mask,
        (Some(mask), None) => mask,
        _ => missing(),
    }
}

pub fn allocation(event: &OomEvent) -> (r: String)
    ensures
        r@ == allocation_spec(event@),
{
    match (&event.gfp_mask, event.order) {
        (Some(mask), Some(order)) => {
            let mut r = String::new();
            r.append("order ");
            push_decimal(&mut r, order as u128);
            r.append(" · ");
            r.append(mask.as_str());
            assert(r@ =~= allocation_spec(event@));
            r
        },
        (Some(mask), None) => mask.clone(),
        _ => missing_text(),
    }
}

pub open spec fn swap_spec(mem: Option<MemInfo>) -> Seq<char> {
    match mem {
        Some(m) => match (m.swap_total_kb, m.swap_free_kb) {
            (Some(total), Some(free)) => memory_spec(Some(free)) + " free of "@ + memory_spec(Some(total)),
            (Some(total), None) => memory_spec(Some(total)) + " total"@,
            _ => missing(),
        },
        None => missing(),
    }
}

pub fn swap(event: &OomEvent) -> (r: String)
    ensures
        r@ == swap_spec(event@.mem),
{
    match event.mem {
        Some(mem) => match (mem.swap_total_kb, mem.swap_free_kb) {
            (Some(total), Some(free)) => {
                let mut r = memory(Some(free));
                r.append(" free of ");
                let t = memory(Some(total));
                r.append(t.as_str());
                r
            },
            (Some(total), None) => {
                let mut r = memory(Some(total));
                r.append(" total");
                r
            },
            _ => missing_text(),
        },
        None => missing_text(),
    }
}

pub open spec fn workload_spec(e: EventView) -> Seq<char> {
    match e.cgroup {
        Some(c) => match identify_spec(c) {
            Some(id) => summary_text(id),
            None => missing(),
        },
        None => missing(),
    }
}

/// The workload decoded from the cgroup path, if it could be.
pub fn workload(event: &OomEvent) -> (r: String)
    ensures
        r@ == workload_spec(event@),
{
    match &event.cgroup {
        Some(c) => match identify(c.as_str()) {
            Some(id) => id.summary(),
            None => missing_text(),
        },
        None => missing_text(),
    }
}

/// How long ago something happened, `delta_ms` before now, in the largest
/// unit that fits (whole units, rounded toward zero).
pub open spec fn ago_spec(delta_ms: int) -> Seq<char> {
    let minutes = if delta_ms >= 0 {
        delta_ms / 60_000
    } else {
        -((-delta_ms) / 60_000)
    };
    let hours = if delta_ms >= 0 {
        delta_ms / 3_600_000
    } else {
        -((-delta_ms) / 3_600_000)
    };
    let days = if delta_ms >= 0 {
        delta_ms / 86_400_000
    } else {
        -((-delta_ms) / 86_400_000)
    };
    if minutes < 1 {
        "just now"@
    } else if minutes < 60 {
        decimal(minutes as nat) + "m ago"@
    } else if hours < 48 {
        decimal(hours as nat) + "h ago"@
    } else {
        decimal(days as nat) + "d ago"@
    }
}

/// How long before `now_ms` the instant `at_ms` was.
pub fn ago(at_ms: i64, now_ms: i64) -> (r: String)
    ensures
        r@ == ago_spec(now_ms - at_ms),
{
    let delta: i128 = now_ms as i128 - at_ms as i128;
    let minutes: i128 = delta / 60_000;
    let hours: i128 = delta / 3_600_000;
    let days: i128 = delta / 86_400_000;
    proof {
        let d = now_ms - at_ms;
        if d < 0 {
            assert(minutes <= 0);
        }
    }
    let mut r = String::new();
    if minutes < 1 {
        r.append("just now");
    } else if minutes < 60 {
        push_decimal(&mut r, minutes as u128);
        r.append("m ago");
    } else if hours < 48 {
        push_decimal(&mut r, hours as u128);
        r.append("h ago");
    } else {
        push_decimal(&mut r, days as u128);
        r.append("d ago");
    }
    proof {
        let d = now_ms - at_ms;
        assert(d >= 0 ==> minutes == d / 60_000 && hours == d / 3_600_000 && days == d / 86_400_000);
        assert(r@ =~= ago_spec(d));
    }
    r
}

/// The format the console shows dates and times in.
pub open spec fn date_format() -> Seq<char> {
    "%Y-%m-%d %H:%M:%S"@
}

/// The instants chrono can represent: those whose day lies between
/// 1 January of its first year and 31 December of its last
/// (`DateTime::from_timestamp_millis` accepts exactly these).
pub open spec fn chrono_in_range(at_ms: int) -> bool {
    days_from_civil(min_year(), 1, 1) <= at_ms / 86_400_000 <= days_from_civil(max_year(), 12, 31)
}

/// `chrono::Local.timestamp_millis_opt(..).single()`, then `format(..)` and
/// `to_string()`: the local calendar date and time of an instant, spelled in
/// `format`. `timestamp_millis_opt` gives exactly one local time for every
/// instant chrono can represent and none for the others; which digits it
/// spells depends on the machine's time zone and is left unsaid. Only the
/// console's own format is admitted, which chrono can always spell (an
/// invalid format would make `to_string` panic).
#[verifier::external_body]
fn local_date_time(at_ms: i64, format: &str) -> (r: Option<String>)
    requires
        format@ == date_format(),
    ensures
        r is Some <==> chrono_in_range(at_ms as int),
{
    match chrono::Local.timestamp_millis_opt(at_ms).single() {
        Some(t) => Some(t.format(format).to_string()),
        None => None,
    }
}

/// The raw timestamp, or the missing marker.
pub open spec fn raw_when(e: EventView) -> Seq<char> {
    match e.timestamp {
        Some(t) => t,
        None => missing(),
    }
}

fn raw_when_text(event: &OomEvent) -> (r: String)
    ensures
        r@ == raw_when(event@),
{
    match &event.timestamp {
        Some(t) => t.clone(),
        None => missing_text(),
    }
}

/// The timestamp row, given the local date and time of the event's instant
/// (`local_date`, `None` where it has none): the raw stamp when the event
/// could not be dated; otherwise the date and how long before `now_ms` it was.
pub open spec fn when_spec(e: EventView, local_date: Option<Seq<char>>, now_ms: i64) -> Seq<char> {
    match (e.occurred_at, local_date) {
        (Some(at), Some(date)) => date + " ("@ + ago_spec(now_ms - at) + ")"@,
        _ => raw_when(e),
    }
}

pub fn when_with_date(event: &OomEvent, local_date: Option<String>, now_ms: i64) -> (r: String)
    ensures
        r@ == when_spec(event@, opt_view(local_date), now_ms),
{
    match (event.occurred_at, local_date) {
        (Some(at), Some(date)) => {
            let mut r = String::new();
            r.append(date.as_str());
            r.append(" (");
            let a = ago(at, now_ms);
            r.append(a.as_str());
            r.append(")");
            r
        },
        _ => raw_when_text(event),
    }
}

/// The timestamp row: the raw stamp when the event could not be dated;
/// otherwise its local date and time (which depend on the machine's time
/// zone, so the date is left unsaid) and how long ago it was.
pub fn when(event: &OomEvent, now_ms: i64) -> (r: String)
    ensures
        event@.occurred_at is None ==> r@ == raw_when(event@),
        exists|local_date: Option<Seq<char>>| r@ == when_spec(event@, local_date, now_ms),
        match event@.occurred_at {
            Some(at) => chrono_in_range(at as int) ==> exists|date: Seq<char>|
                r@ == date + " ("@ + ago_spec(now_ms - at) + ")"@,
            None => true,
        },
{
    let local_date = match event.occurred_at {
        Some(at) => local_date_time(at, "%Y-%m-%d %H:%M:%S"),
        None => None,
    };
    let ghost date = opt_view(local_date);
    let r = when_with_date(event, local_date, now_ms);
    assert(r@ == when_spec(event@, date, now_ms));
    proof {
        if let (Some(at), Some(d)) = (event@.occurred_at, date) {
            assert(r@ == d + " ("@ + ago_spec(now_ms - at) + ")"@);
        }
    }
    r
}

// ---------------------------------------------------------------------------
// Lines of the panes

/// The colour role of a piece of text; the program picks the colours.
#[derive(Debug, Clone, Copy, PartialEq, Eq, Structural)]
pub enum Tone {
    Text,
    Muted,
    Accent,
    Good,
    Warning,
    Critical,
}

/// One line of the investigation pane or of the landing panel.
#[derive(Debug, Clone)]
pub enum DetailLine {
    Blank,
    /// A section heading.
    Section(String),
    /// A label and its value, the value in the given tone.
    Row(String, String, Tone),
    /// The impact rating, from the victim's resident set and the machine's
    /// RAM in KB when both are known.
    Impact(Option<(u64, u64)>),
    /// A bar of the victim's share of RAM: its resident set and the total, in KB.
    RamImpact(u64, u64),
    Bullet(String),
    Alert(String),
    Plain(String),
    Muted(String),
    Note(String, Tone),
}

/// The abstract value of a [`DetailLine`].
pub enum LineView {
    Blank,
    Section(Seq<char>),
    Row(Seq<char>, Seq<char>, Tone),
    Impact(Option<(u64, u64)>),
    RamImpact(u64, u64),
    Bullet(Seq<char>),
    Alert(Seq<char>),
    Plain(Seq<char>),
    Muted(Seq<char>),
    Note(Seq<char>, Tone),
}

impl View for DetailLine {
    type V = LineView;

    open spec fn view(&self) -> LineView {
        match self {
            DetailLine::Blank => LineView::Blank,
            DetailLine::Section(s) => LineView::Section(s@),
            DetailLine::Row(l, v, t) => LineView::Row(l@, v@, *t),
            DetailLine::Impact(p) => LineView::Impact(*p),
            DetailLine::RamImpact(r, t) => LineView::RamImpact(*r, *t),
            DetailLine::Bullet(s) => LineView::Bullet(s@),
            DetailLine::Alert(s) => LineView::Alert(s@),
            DetailLine::Plain(s) => LineView::Plain(s@),
            DetailLine::Muted(s) => LineView::Muted(s@),
            DetailLine::Note(s, t) => LineView::Note(s@, *t),
        }
    }
}

pub open spec fn lines_view(v: Seq<DetailLine>) -> Seq<LineView> {
    v.map_values(|l: DetailLine| l@)
}

fn push_line(v: &mut Vec<DetailLine>, l: DetailLine)
    ensures
        lines_view(final(v)@) == lines_view(old(v)@).push(l@),
{
    v.push(l);
    assert(lines_view(v@) =~= lines_view(old(v)@).push(l@));
}

fn text(s: &str) -> (r: String)
    ensures
        r@ == s@,
{
    String::from_str(s)
}

// ---------------------------------------------------------------------------
// The landing panel

pub open spec fn landing_spec(
    events: nat,
    device: (Seq<char>, Seq<char>, Seq<char>),
    source: Seq<char>,
    warning: Option<Seq<char>>,
) -> Seq<LineView> {
    let (os, cpu, ram) = device;
    seq![
        LineView::Section("HOST ENVIRONMENT SPECS"@),
        LineView::Row("OS Release"@, os, Tone::Text),
        LineView::Row("Processor"@, cpu, Tone::Text),
        LineView::Row("System RAM"@, ram, Tone::Accent),
        LineView::Blank,
        LineView::Section("ACTIVE LOG SOURCE STATUS"@),
        LineView::Row("Target Source"@, source, Tone::Text),
        LineView::Blank,
    ] + if events == 0 {
        seq![
            LineView::Note("  ● SYSTEM HEALTH: CLEAN (0 OOM Kills)"@, Tone::Good),
            LineView::Muted("  No Out-Of-Memory kills detected in current log source window."@),
        ]
    } else {
        seq![
            LineView::Note("  ● ALERT: "@ + decimal(events) + " OOM INCIDENT(S) LOADED AND READY"@, Tone::Critical),
            LineView::Note("  Press 'h' to open the Master-Detail Incident Console view."@, Tone::Accent),
        ]
    } + match warning {
        Some(w) => seq![LineView::Blank, LineView::Note("  ⚠ Warning: "@ + w, Tone::Warning)],
        None => Seq::empty(),
    }
}

/// The system and health panel of the landing page: the host, the log
/// source, whether it holds OOM kills, and the source's warning if any.
pub fn landing_system_lines(app: &App) -> (r: Vec<DetailLine>)
    ensures
        lines_view(r@) == landing_spec(
            app.events@.len(),
            (app.device.os@, app.device.cpu@, app.device.ram@),
            app.source_description@,
            opt_view(app.warning),
        ),
{
    let mut v: Vec<DetailLine> = Vec::new();
    push_line(&mut v, DetailLine::Section(text("HOST ENVIRONMENT SPECS")));
    push_line(&mut v, DetailLine::Row(text("OS Release"), app.device.os.clone(), Tone::Text));
    push_line(&mut v, DetailLine::Row(text("Processor"), app.device.cpu.clone(), Tone::Text));
    push_line(&mut v, DetailLine::Row(text("System RAM"), app.device.ram.clone(), Tone::Accent));
    push_line(&mut v, DetailLine::Blank);
    push_line(&mut v, DetailLine::Section(text("ACTIVE LOG SOURCE STATUS")));
    push_line(&mut v, DetailLine::Row(text("Target Source"), app.source_description.clone(), Tone::Text));
    push_line(&mut v, DetailLine::Blank);
    if app.events.len() == 0 {
        push_line(&mut v, DetailLine::Note(text("  ● SYSTEM HEALTH: CLEAN (0 OOM Kills)"), Tone::Good));
        push_line(&mut v, DetailLine::Muted(text("  No Out-Of-Memory kills detected in current log source window.")));
    } else {
        let mut alert = text("  ● ALERT: ");
        push_decimal(&mut alert, app.events.len() as u128);
        alert.append(" OOM INCIDENT(S) LOADED AND READY");
        push_line(&mut v, DetailLine::Note(alert, Tone::Critical));
        push_line(&mut v, DetailLine::Note(text("  Press 'h' to open the Master-Detail Incident Console view."), Tone::Accent));
    }
    match &app.warning {
        Some(w) => {
            push_line(&mut v, DetailLine::Blank);
            let mut note = text("  ⚠ Warning: ");
            note.append(w.as_str());
            push_line(&mut v, DetailLine::Note(note, Tone::Warning));
        },
        None => {},
    }
    let ghost spec = landing_spec(
        app.events@.len(),
        (app.device.os@, app.device.cpu@, app.device.ram@),
        app.source_description@,
        opt_view(app.warning),
    );
    assert(lines_view(v@) =~= spec);
    v
}

// ---------------------------------------------------------------------------
// Header, footer and status

/// The header's fields, each as it is shown.
pub struct HeaderInfo {
    pub mode: String,
    pub incidents: String,
    pub selected: String,
    pub scope: String,
    pub cgroups: String,
    pub ram: String,
    pub viewing: String,
}

/// How many of the events were cgroup-limit kills.
pub open spec fn cgroup_kills(events: Seq<EventView>) -> nat
    decreases events.len(),
{
    if events.len() == 0 {
        0
    } else {
        cgroup_kills(events.drop_last()) + if events.last().memcg_kill {
            1nat
        } else {
            0nat
        }
    }
}

/// The scope of the highlighted incident, if one is highlighted.
pub open spec fn selected_scope_spec(events: Seq<EventView>, selected: Option<usize>) -> Seq<char> {
    match selected {
        Some(i) => if i < events.len() {
            scope_short_spec(events[i as int])
        } else {
            "no incident"@
        },
        None => "no incident"@,
    }
}

/// The highlighted incident's number, counting from one; zero for none.
pub open spec fn selected_number(selected: Option<usize>) -> nat {
    match selected {
        Some(i) => (i + 1) as nat,
        None => 0,
    }
}

/// The header for a terminal `width` columns wide: the mode, the incident
/// counts, the highlighted incident, the machine's RAM, and the log source
/// cut to the width that is left.
pub fn header_info(app: &App, width: u16) -> (r: HeaderInfo)
    ensures
        r.mode@ == "[ MODE: "@ + (if app.show_landing {
            "LANDING DASHBOARD"@
        } else {
            "INCIDENT CONSOLE"@
        }) + " ]"@,
        r.incidents@ == " "@ + decimal(app.events@.len()) + (if app.events@.len() == 1 {
            " INCIDENT "@
        } else {
            " INCIDENTS "@
        }),
        r.selected@ == " SELECTED "@ + decimal(selected_number(app.selected)) + "/"@ + decimal(
            app.events@.len(),
        ) + " "@,
        r.scope@ == " "@ + selected_scope_spec(events_view(app.events@), app.selected) + " "@,
        r.cgroups@ == " "@ + decimal(cgroup_kills(events_view(app.events@))) + " CGROUP "@,
        r.ram@ == " "@ + app.device.ram@ + " "@,
        r.viewing@ == truncate_to_width_spec(
            app.source_description@,
            (if width >= 12 {
                width - 12
            } else {
                0
            }) as nat,
        ),
{
    let n = app.events.len();
    let mut mode = text("[ MODE: ");
    if app.show_landing {
        mode.append("LANDING DASHBOARD");
    } else {
        mode.append("INCIDENT CONSOLE");
    }
    mode.append(" ]");

    let mut incidents = text(" ");
    push_decimal(&mut incidents, n as u128);
    if n == 1 {
        incidents.append(" INCIDENT ");
    } else {
        incidents.append(" INCIDENTS ");
    }

    let mut selected = text(" SELECTED ");
    match app.selected {
        Some(i) => push_decimal(&mut selected, i as u128 + 1),
        None => push_decimal(&mut selected, 0),
    }
    selected.append("/");
    push_decimal(&mut selected, n as u128);
    selected.append(" ");

    let mut scope = text(" ");
    match app.selected() {
        Some(e) => scope.append(scope_short(e)),
        None => scope.append("no incident"),
    }
    scope.append(" ");

    let ghost evs = events_view(app.events@);
    let mut count: usize = 0;
    let mut k: usize = 0;
    while k < n
        invariant
            k <= n == app.events@.len(),
            evs == events_view(app.events@),
            count == cgroup_kills(evs.take(k as int)),
            count <= k,
        decreases n - k,
    {
        assert(evs.take(k + 1).drop_last() =~= evs.take(k as int));
        if app.events[k].memcg_kill {
            count = count + 1;
        }
        k = k + 1;
    }
    assert(evs.take(n as int) =~= evs);
    let mut cgroups = text(" ");
    push_decimal(&mut cgroups, count as u128);
    cgroups.append(" CGROUP ");

    let mut ram = text(" ");
    ram.append(app.device.ram.as_str());
    ram.append(" ");

    let room: u16 = if width >= 12 {
        width - 12
    } else {
        0
    };
    let viewing = truncate_to_width(app.source_description.as_str(), room as usize);
    proof {
        assert(selected@ =~= " SELECTED "@ + decimal(selected_number(app.selected)) + "/"@ + decimal(n as nat) + " "@);
        assert(scope@ =~= " "@ + selected_scope_spec(evs, app.selected) + " "@);
        assert(incidents@ =~= " "@ + decimal(n as nat) + (if n == 1 {
            " INCIDENT "@
        } else {
            " INCIDENTS "@
        }));
    }
    HeaderInfo { mode, incidents, selected, scope, cgroups, ram, viewing }
}

/// A key and what it does, as the footer shows it.
pub open spec fn hint(key: Seq<char>, label: Seq<char>) -> Seq<char> {
    " "@ + key + ":"@ + label + " "@
}

/// The footer's key hints: on the landing page, its own keys; in the
/// console, those of the focused pane.
pub open spec fn footer_spec(show_landing: bool, focus: FocusPane) -> Seq<Seq<char>> {
    let tail = seq![hint("r"@, "reload"@), hint("t"@, "theme"@), hint("?"@, "help"@), hint("q"@, "quit"@)];
    if show_landing {
        seq![hint("h"@, "console"@), hint("1-4"@, "sources"@)] + tail
    } else {
        seq![
            hint("h"@, "landing"@),
            hint("Tab"@, focus_label_spec(focus)),
            hint("↑/↓"@, if focus == FocusPane::Incidents {
                "select"@
            } else {
                "scroll"@
            }),
        ] + (if focus == FocusPane::Evidence {
            seq![hint("←/→"@, "h-scroll"@)]
        } else {
            Seq::empty()
        }) + tail
    }
}

fn push_hint(v: &mut Vec<String>, key: &str, label: &str)
    ensures
        strings_view(final(v)@) == strings_view(old(v)@).push(hint(key@, label@)),
{
    let mut h = text(" ");
    h.append(key);
    h.append(":");
    h.append(label);
    h.append(" ");
    assert(h@ =~= hint(key@, label@));
    v.push(h);
    assert(strings_view(v@) =~= strings_view(old(v)@).push(hint(key@, label@)));
}

/// The key hints of the footer.
pub fn footer_hints(app: &App) -> (r: Vec<String>)
    ensures
        strings_view(r@) == footer_spec(app.show_landing, app.focus),
{
    let mut v: Vec<String> = Vec::new();
    if app.show_landing {
        push_hint(&mut v, "h", "console");
        push_hint(&mut v, "1-4", "sources");
    } else {
        push_hint(&mut v, "h", "landing");
        push_hint(&mut v, "Tab", focus_label(app.focus));
        if app.focus == FocusPane::Incidents {
            push_hint(&mut v, "↑/↓", "select");
        } else {
            push_hint(&mut v, "↑/↓", "scroll");
        }
        if app.focus == FocusPane::Evidence {
            push_hint(&mut v, "←/→", "h-scroll");
        }
    }
    push_hint(&mut v, "r", "reload");
    push_hint(&mut v, "t", "theme");
    push_hint(&mut v, "?", "help");
    push_hint(&mut v, "q", "quit");
    assert(strings_view(v@) =~= footer_spec(app.show_landing, app.focus));
    v
}

/// The tone of a status message: good news when nothing was found, critical
/// when something failed, a warning otherwise.
pub open spec fn status_tone_spec(s: Seq<char>) -> Tone {
    if contains(s, "0 event"@) || contains(s, "CLEAN"@) {
        Tone::Good
    } else if contains(s, "Failed"@) || contains(s, "❌"@) {
        Tone::Critical
    } else {
        Tone::Warning
    }
}

pub fn status_tone(status: &str) -> (r: Tone)
    ensures
        r == status_tone_spec(status@),
{
    let v = chars_of(status);
    let n = v.len();
    assert(v@.subrange(0, n as int) =~= status@);
    if contains_in(&v, 0, n, "0 event") || contains_in(&v, 0, n, "CLEAN") {
        Tone::Good
    } else if contains_in(&v, 0, n, "Failed") || contains_in(&v, 0, n, "❌") {
        Tone::Critical
    } else {
        Tone::Warning
    }
}

/// The second line of an incident's timeline entry: its scope, whether the
/// reaper confirmed it, and its raw timestamp.
pub open spec fn timeline_context_spec(e: EventView) -> Seq<char> {
    "  ["@ + (if e.memcg_kill {
        "CGROUP"@
    } else {
        "HOST"@
    }) + "] · "@ + (if e.reaped {
        "✓ reaped"@
    } else {
        "⧖ pending"@
    }) + " · "@ + match e.timestamp {
        Some(t) => t,
        None => "unknown time"@,
    }
}

pub fn timeline_context(event: &OomEvent) -> (r: String)
    ensures
        r@ == timeline_context_spec(event@),
{
    let mut r = text("  [");
    if event.memcg_kill {
        r.append("CGROUP");
    } else {
        r.append("HOST");
    }
    r.append("] · ");
    if event.reaped {
        r.append("✓ reaped");
    } else {
        r.append("⧖ pending");
    }
    r.append(" · ");
    match &event.timestamp {
        Some(t) => r.append(t.as_str()),
        None => r.append("unknown time"),
    }
    assert(r@ =~= timeline_context_spec(event@));
    r
}

// ---------------------------------------------------------------------------
// Layout arithmetic

/// The rows a line `w` columns wide takes when wrapped at `width` columns
/// (an empty line still takes one).
pub open spec fn rows_of(w: usize, width: usize) -> int {
    let w1: int = if w == 0 {
        1
    } else {
        w as int
    };
    w1 / (width as int) + if w1 % (width as int) == 0 {
        0int
    } else {
        1int
    }
}

pub open spec fn wrapped_rows(ws: Seq<usize>, width: usize) -> int
    decreases ws.len(),
{
    if ws.len() == 0 {
        0
    } else {
        wrapped_rows(ws.drop_last(), width) + rows_of(ws.last(), width)
    }
}

/// An upper bound of the wrapped rows: each line `w / width + 1`.
pub open spec fn row_bound(ws: Seq<usize>, width: usize) -> int
    decreases ws.len(),
{
    if ws.len() == 0 {
        0
    } else {
        row_bound(ws.drop_last(), width) + (ws.last() / width) as int + 1
    }
}

proof fn lemma_rows_of_bound(w: usize, width: usize)
    requires
        width > 0,
    ensures
        1 <= rows_of(w, width) <= (w / width) as int + 1,
{
    let w1: int = if w == 0 {
        1
    } else {
        w as int
    };
    assert(w1 / (width as int) >= 0) by (nonlinear_arith)
        requires
            w1 >= 1,
            width > 0,
    ;
    if w == 0 {
        if width == 1 {
            assert(w1 / (width as int) == 1 && w1 % (width as int) == 0) by (nonlinear_arith)
                requires
                    w1 == 1,
                    width == 1,
            ;
        } else {
            assert(w1 / (width as int) == 0 && w1 % (width as int) == 1) by (nonlinear_arith)
                requires
                    w1 == 1,
                    width > 1,
            ;
        }
    } else {
        assert(w1 / (width as int) == (w / width) as int);
        assert(w1 / (width as int) == 0 ==> w1 % (width as int) != 0) by (nonlinear_arith)
            requires
                w1 >= 1,
                width > 0,
        ;
    }
}

proof fn lemma_row_bound_prefix(ws: Seq<usize>, width: usize, k: int)
    requires
        width > 0,
        0 <= k <= ws.len(),
    ensures
        row_bound(ws.take(k), width) <= row_bound(ws, width),
        wrapped_rows(ws.take(k), width) <= row_bound(ws.take(k), width),
    decreases ws.len(),
{
    if k < ws.len() {
        assert(ws.drop_last().take(k) =~= ws.take(k));
        lemma_row_bound_prefix(ws.drop_last(), width, k);
    } else {
        assert(ws.take(k) =~= ws);
        if ws.len() > 0 {
            lemma_row_bound_prefix(ws.drop_last(), width, k - 1);
            assert(ws.drop_last().take(k - 1) =~= ws.drop_last());
            lemma_rows_of_bound(ws.last(), width);
        }
    }
}

/// The rows that lines of the given widths take wrapped at `width` columns;
/// with no width to wrap at, one row each.
pub fn wrapped_line_count(widths: &Vec<usize>, width: usize) -> (r: usize)
    requires
        width > 0 ==> row_bound(widths@, width) <= usize::MAX,
    ensures
        r == if width == 0 {
            widths@.len() as int
        } else {
            wrapped_rows(widths@, width)
        },
{
    if width == 0 {
        return widths.len();
    }
    let mut total: usize = 0;
    let mut k: usize = 0;
    while k < widths.len()
        invariant
            width > 0,
            k <= widths.len(),
            row_bound(widths@, width) <= usize::MAX,
            total == wrapped_rows(widths@.take(k as int), width),
        decreases widths.len() - k,
    {
        proof {
            assert(widths@.take(k + 1).drop_last() =~= widths@.take(k as int));
            lemma_row_bound_prefix(widths@, width, k + 1);
            lemma_rows_of_bound(widths@[k as int], width);
        }
        let w: usize = if widths[k] == 0 {
            1
        } else {
            widths[k]
        };
        let rows: usize = w / width + if w % width == 0 {
            0
        } else {
            1
        };
        total = total + rows;
        k = k + 1;
    }
    assert(widths@.take(widths@.len() as int) =~= widths@);
    total
}

/// A rectangle of the terminal, in cells.
#[derive(Debug, Clone, Copy, PartialEq, Eq, Structural)]
pub struct Area {
    pub x: u16,
    pub y: u16,
    pub width: u16,
    pub height: u16,
}

/// A popup `width_percent` of the area wide (at least one column) and
/// `requested_height` rows high, leaving a row above and below when the area
/// is too short (at least one row), centred in the area.
pub open spec fn centered_spec(width_percent: u16, requested_height: u16, area: Area) -> Area {
    let product = area.width * width_percent;
    let scaled = (if product > u16::MAX {
        u16::MAX as int
    } else {
        product
    }) / 100;
    let width = if scaled < 1 {
        1
    } else {
        scaled
    };
    let room = if area.height >= 2 {
        area.height - 2
    } else {
        0
    };
    let fitted = if requested_height < room {
        requested_height as int
    } else {
        room
    };
    let height = if fitted < 1 {
        1
    } else {
        fitted
    };
    Area {
        x: (area.x + (if area.width >= width {
            area.width - width
        } else {
            0
        }) / 2) as u16,
        y: (area.y + (if area.height >= height {
            area.height - height
        } else {
            0
        }) / 2) as u16,
        width: width as u16,
        height: height as u16,
    }
}

pub fn centered_rect(width_percent: u16, requested_height: u16, area: Area) -> (r: Area)
    requires
        area.x + area.width <= u16::MAX,
        area.y + area.height <= u16::MAX,
    ensures
        r == centered_spec(width_percent, requested_height, area),
{
    let w = area.width as u32;
    let p = width_percent as u32;
    proof {
        assert(w * p <= 0xffff * 0xffff) by (nonlinear_arith)
            requires
                w <= 0xffff,
                p <= 0xffff,
        ;
    }
    let product: u32 = w * p;
    let saturated: u16 = if product > 0xffff {
        0xffff
    } else {
        product as u16
    };
    let scaled: u16 = saturated / 100;
    let width: u16 = if scaled < 1 {
        1
    } else {
        scaled
    };
    let room: u16 = if area.height >= 2 {
        area.height - 2
    } else {
        0
    };
    let fitted: u16 = if requested_height < room {
        requested_height
    } else {
        room
    };
    let height: u16 = if fitted < 1 {
        1
    } else {
        fitted
    };
    let spare_w: u16 = if area.width >= width {
        area.width - width
    } else {
        0
    };
    let spare_h: u16 = if area.height >= height {
        area.height - height
    } else {
        0
    };
    Area { x: area.x + spare_w / 2, y: area.y + spare_h / 2, width, height }
}

// ---------------------------------------------------------------------------
// Highlighting raw kernel lines

/// How a piece of a raw kernel line is shown.
#[derive(Debug, Clone, Copy, PartialEq, Eq, Structural)]
pub enum SegmentKind {
    Plain,
    /// A phrase that marks the kill itself.
    Critical,
    /// A phrase that marks the context around it.
    Context,
}

/// A piece of a raw kernel line.
#[derive(Debug, Clone)]
pub struct Segment {
    pub text: String,
    pub kind: SegmentKind,
}

pub struct SegmentView {
    pub text: Seq<char>,
    pub kind: SegmentKind,
}

impl View for Segment {
    type V = SegmentView;

    open spec fn view(&self) -> SegmentView {
        SegmentView { text: self.text@, kind: self.kind }
    }
}

pub open spec fn segments_view(v: Seq<Segment>) -> Seq<SegmentView> {
    v.map_values(|s: Segment| s@)
}

/// The highlighted phrases, longest first.
pub open spec fn token(k: int) -> Seq<char> {
    if k == 0 {
        "Memory cgroup out of memory"@
    } else if k == 1 {
        "page allocation failure"@
    } else if k == 2 {
        "invoked oom-killer"@
    } else if k == 3 {
        "Killed process"@
    } else if k == 4 {
        "Out of memory"@
    } else if k == 5 {
        "oom_score_adj"@
    } else if k == 6 {
        "Task state"@
    } else if k == 7 {
        "constraint"@
    } else if k == 8 {
        "Total swap"@
    } else if k == 9 {
        "Free swap"@
    } else if k == 10 {
        "Mem-Info"@
    } else {
        "GFP_"@
    }
}

pub open spec fn token_count() -> int {
    12
}

/// The first five phrases mark the kill; the rest its context.
pub open spec fn token_kind(k: int) -> SegmentKind {
    if k < 5 {
        SegmentKind::Critical
    } else {
        SegmentKind::Context
    }
}

pub proof fn lemma_token_nonempty(k: int)
    ensures
        token(k).len() > 0,
{
    reveal_strlit("Memory cgroup out of memory");
    reveal_strlit("page allocation failure");
    reveal_strlit("invoked oom-killer");
    reveal_strlit("Killed process");
    reveal_strlit("Out of memory");
    reveal_strlit("oom_score_adj");
    reveal_strlit("Task state");
    reveal_strlit("constraint");
    reveal_strlit("Total swap");
    reveal_strlit("Free swap");
    reveal_strlit("Mem-Info");
    reveal_strlit("GFP_");
}

/// The first of the phrases (so the longest) that begins at `j`.
pub open spec fn token_from(s: Seq<char>, j: int, k: int) -> Option<int>
    decreases token_count() - k,
{
    if k >= token_count() {
        None
    } else if has_at(s, j, token(k)) {
        Some(k)
    } else {
        token_from(s, j, k + 1)
    }
}

pub open spec fn token_at(s: Seq<char>, j: int) -> Option<int> {
    token_from(s, j, 0)
}

/// The first position at or after `i` where a phrase begins; `s.len()` when
/// none does.
pub open spec fn next_token(s: Seq<char>, i: int) -> int
    decreases s.len() - i,
{
    if i >= s.len() {
        s.len() as int
    } else if token_at(s, i) is Some {
        i
    } else {
        next_token(s, i + 1)
    }
}

/// `s[i..]` cut into plain text and the phrases in it, each phrase taken at
/// the earliest position where one begins.
pub open spec fn segments_from(s: Seq<char>, i: int) -> Seq<SegmentView>
    decreases s.len() - i,
{
    if i < 0 || i >= s.len() {
        Seq::empty()
    } else {
        let j = next_token(s, i);
        let before = if j > i {
            seq![SegmentView { text: s.subrange(i, j), kind: SegmentKind::Plain }]
        } else {
            Seq::empty()
        };
        if j >= s.len() {
            before
        } else {
            let k = token_at(s, j)->0;
            proof {
                lemma_next_token(s, i);
                lemma_token_nonempty(k);
            }
            before + seq![SegmentView { text: token(k), kind: token_kind(k) }] + segments_from(
                s,
                j + token(k).len(),
            )
        }
    }
}

/// A raw line cut for highlighting; an empty line is one empty piece.
pub open spec fn highlight_spec(s: Seq<char>) -> Seq<SegmentView> {
    if s.len() == 0 {
        seq![SegmentView { text: Seq::empty(), kind: SegmentKind::Plain }]
    } else {
        segments_from(s, 0)
    }
}

pub proof fn lemma_token_from(s: Seq<char>, j: int, k: int)
    requires
        0 <= k,
    ensures
        token_from(s, j, k) matches Some(t) ==> k <= t < token_count() && has_at(s, j, token(t)),
    decreases token_count() - k,
{
    if k < token_count() && !has_at(s, j, token(k)) {
        lemma_token_from(s, j, k + 1);
    }
}

pub proof fn lemma_next_token(s: Seq<char>, i: int)
    requires
        0 <= i,
    ensures
        i <= next_token(s, i) <= s.len() || (i > s.len() && next_token(s, i) == s.len()),
        next_token(s, i) < s.len() ==> token_at(s, next_token(s, i)) is Some,
        next_token(s, i) < s.len() ==> {
            let t = token_at(s, next_token(s, i))->0;
            0 <= t < token_count() && has_at(s, next_token(s, i), token(t))
        },
    decreases s.len() - i,
{
    if i < s.len() {
        if token_at(s, i) is Some {
            lemma_token_from(s, i, 0);
        } else {
            lemma_next_token(s, i + 1);
        }
    }
}

/// Where no phrase begins in `[i, j)`, the next one is found from `j`.
proof fn lemma_next_token_skip(s: Seq<char>, i: int, j: int)
    requires
        0 <= i <= j <= s.len(),
        forall|m: int| i <= m < j ==> #[trigger] token_at(s, m) is None,
    ensures
        next_token(s, i) == next_token(s, j),
    decreases j - i,
{
    if i < j {
        lemma_next_token_skip(s, i + 1, j);
    }
}

/// The pieces' texts, one after another.
pub open spec fn joined_text(v: Seq<SegmentView>) -> Seq<char>
    decreases v.len(),
{
    if v.len() == 0 {
        Seq::empty()
    } else {
        v[0].text + joined_text(v.drop_first())
    }
}

proof fn lemma_joined_text_append(a: Seq<SegmentView>, b: Seq<SegmentView>)
    ensures
        joined_text(a + b) == joined_text(a) + joined_text(b),
    decreases a.len(),
{
    if a.len() > 0 {
        assert((a + b).drop_first() =~= a.drop_first() + b);
        lemma_joined_text_append(a.drop_first(), b);
        assert(joined_text(a + b) =~= joined_text(a) + joined_text(b));
    } else {
        assert(a + b =~= b);
        assert(joined_text(a) + joined_text(b) =~= joined_text(b));
    }
}

proof fn lemma_joined_one(x: SegmentView)
    ensures
        joined_text(seq![x]) == x.text,
{
    assert(seq![x].drop_first() =~= Seq::<SegmentView>::empty());
    assert(joined_text(Seq::<SegmentView>::empty()) == Seq::<char>::empty());
    assert(joined_text(seq![x]) =~= x.text);
}

proof fn lemma_segments_join(s: Seq<char>, i: int)
    requires
        0 <= i <= s.len(),
    ensures
        joined_text(segments_from(s, i)) == s.subrange(i, s.len() as int),
    decreases s.len() - i,
{
    if i < s.len() {
        let j = next_token(s, i);
        lemma_next_token(s, i);
        let before = if j > i {
            seq![SegmentView { text: s.subrange(i, j), kind: SegmentKind::Plain }]
        } else {
            Seq::empty()
        };
        assert(joined_text(before) == s.subrange(i, j)) by {
            if j > i {
                lemma_joined_one(SegmentView { text: s.subrange(i, j), kind: SegmentKind::Plain });
            } else {
                assert(s.subrange(i, j) =~= Seq::<char>::empty());
            }
        }
        if j >= s.len() {
            assert(j == s.len());
        } else {
            let k = token_at(s, j)->0;
            lemma_token_nonempty(k);
            let t = token(k);
            let one = seq![SegmentView { text: t, kind: token_kind(k) }];
            lemma_joined_one(SegmentView { text: t, kind: token_kind(k) });
            lemma_segments_join(s, j + t.len());
            lemma_joined_text_append(before + one, segments_from(s, j + t.len()));
            lemma_joined_text_append(before, one);
            assert(s.subrange(j, j + t.len()) == t);
            assert(s.subrange(i, s.len() as int) =~= s.subrange(i, j) + t + s.subrange(
                j + t.len(),
                s.len() as int,
            ));
        }
    } else {
        assert(s.subrange(i, s.len() as int) =~= Seq::<char>::empty());
    }
}

/// Highlighting never alters the evidence: the pieces of a raw line, joined
/// back together, are the line.
pub proof fn lemma_highlight_keeps_the_line(line: Seq<char>)
    ensures
        joined_text(highlight_spec(line)) == line,
{
    if line.len() == 0 {
        lemma_joined_one(SegmentView { text: Seq::empty(), kind: SegmentKind::Plain });
        assert(line =~= Seq::<char>::empty());
    } else {
        lemma_segments_join(line, 0);
        assert(line.subrange(0, line.len() as int) =~= line);
    }
}

fn token_text(k: usize) -> (r: &'static str)
    requires
        k < 12,
    ensures
        r@ == token(k as int),
{
    if k == 0 {
        "Memory cgroup out of memory"
    } else if k == 1 {
        "page allocation failure"
    } else if k == 2 {
        "invoked oom-killer"
    } else if k == 3 {
        "Killed process"
    } else if k == 4 {
        "Out of memory"
    } else if k == 5 {
        "oom_score_adj"
    } else if k == 6 {
        "Task state"
    } else if k == 7 {
        "constraint"
    } else if k == 8 {
        "Total swap"
    } else if k == 9 {
        "Free swap"
    } else if k == 10 {
        "Mem-Info"
    } else {
        "GFP_"
    }
}

fn token_at_exec(v: &Vec<char>, j: usize) -> (r: Option<usize>)
    ensures
        r matches Some(k) ==> Some(k as int) == token_at(v@, j as int),
        r is None ==> token_at(v@, j as int) is None,
{
    let mut k: usize = 0;
    while k < 12
        invariant
            k <= 12,
            token_at(v@, j as int) == token_from(v@, j as int, k as int),
        decreases 12 - k,
    {
        if lit_at(v, j, token_text(k)) {
            return Some(k);
        }
        k = k + 1;
    }
    None
}

/// The pieces of a raw kernel line: the phrases that mark a kill and its
/// context, and the plain text between them.
pub fn highlight_raw_line(line: &str) -> (r: Vec<Segment>)
    ensures
        segments_view(r@) == highlight_spec(line@),
{
    let v = chars_of(line);
    let n = v.len();
    let mut out: Vec<Segment> = Vec::new();
    if n == 0 {
        out.push(Segment { text: String::new(), kind: SegmentKind::Plain });
        assert(segments_view(out@) =~= highlight_spec(line@));
        return out;
    }
    let ghost s = v@;
    let mut i: usize = 0;
    while i < n
        invariant
            s == v@,
            s == line@,
            n == v.len() > 0,
            i <= n,
            segments_view(out@) + segments_from(s, i as int) == segments_from(s, 0),
        decreases n - i,
    {
        // find the next phrase
        let mut j: usize = i;
        let mut found: Option<usize> = None;
        while j < n
            invariant
                s == v@,
                n == v.len(),
                i <= j <= n,
                forall|m: int| i <= m < j ==> #[trigger] token_at(s, m) is None,
                found matches Some(k) ==> j < n && Some(k as int) == token_at(s, j as int),
            ensures
                i <= j <= n,
                forall|m: int| i <= m < j ==> #[trigger] token_at(s, m) is None,
                found matches Some(k) ==> j < n && Some(k as int) == token_at(s, j as int),
                found is None ==> j == n,
            decreases n - j,
        {
            match token_at_exec(&v, j) {
                Some(k) => {
                    found = Some(k);
                    break;
                },
                None => {
                    j = j + 1;
                },
            }
        }
        proof {
            lemma_next_token_skip(s, i as int, j as int);
            lemma_next_token(s, i as int);
            if found is None {
                assert(next_token(s, j as int) == s.len());
            }
        }
        let ghost rest = segments_from(s, i as int);
        let ghost before_out = segments_view(out@);
        if j > i {
            let plain = string_of(&v, i, j);
            out.push(Segment { text: plain, kind: SegmentKind::Plain });
        }
        match found {
            None => {
                assert(segments_view(out@) =~= before_out + rest);
                i = n;
                assert(segments_from(s, n as int) =~= Seq::<SegmentView>::empty());
                assert(segments_view(out@) + segments_from(s, i as int) =~= segments_from(s, 0));
            },
            Some(k) => {
                let t = token_text(k);
                proof {
                    lemma_token_from(s, j as int, 0);
                    lemma_token_nonempty(k as int);
                }
                out.push(Segment { text: String::from_str(t), kind: if k < 5 {
                    SegmentKind::Critical
                } else {
                    SegmentKind::Context
                } });
                let len = char_len(t);
                let ghost next = j + token(k as int).len();
                assert(segments_view(out@) + segments_from(s, next) =~= before_out + rest);
                i = j + len;
            },
        }
    }
    assert(segments_from(s, n as int) =~= Seq::<SegmentView>::empty());
    assert(segments_view(out@) =~= segments_view(out@) + segments_from(s, n as int));
    out
}

// ---------------------------------------------------------------------------
// The investigation pane

pub open spec fn bullets(s: Seq<Seq<char>>) -> Seq<LineView> {
    s.map_values(|t: Seq<char>| LineView::Bullet(t))
}

/// The warning that leads the pane when the victim was not the largest task:
/// it names the largest one.
pub open spec fn culprit_spec(e: EventView) -> Seq<LineView> {
    if victim_was_largest_spec(e) == Some(false) {
        let top = by_rss_desc(e.processes)[0];
        seq![
            LineView::Alert(
                " ⚠ CULPRIT MISMATCH: Victim was collateral damage! Real culprit: "@ + name_and_pid(
                    top.name,
                    top.pid,
                ),
            ),
            LineView::Blank,
        ]
    } else {
        Seq::empty()
    }
}

pub open spec fn summary_section(e: EventView) -> Seq<LineView> {
    seq![
        LineView::Section("SUMMARY"@),
        LineView::Row("Victim"@, name_and_pid(e.victim_name, e.victim_pid), Tone::Text),
        LineView::Impact(ram_share_spec(e)),
        LineView::Row("Cause"@, scope_label_spec(e), Tone::Text),
        LineView::Row("Scope"@, scope_short_spec(e), Tone::Text),
    ] + bullets(summary_spec(e)) + seq![LineView::Blank, LineView::Section("DIAGNOSIS"@)] + bullets(
        diagnosis_spec(e),
    )
}

pub open spec fn memory_section(e: EventView) -> Seq<LineView> {
    seq![
        LineView::Blank,
        LineView::Section("MEMORY"@),
        LineView::Row("RSS"@, exact_memory_spec(rss_total_spec(e)), Tone::Text),
        LineView::Row("Anonymous RSS"@, exact_memory_spec(e.anon_rss_kb), Tone::Text),
        LineView::Row("File RSS"@, exact_memory_spec(e.file_rss_kb), Tone::Text),
        LineView::Row("Shared RSS"@, exact_memory_spec(e.shmem_rss_kb), Tone::Text),
        LineView::Row("Virtual memory"@, exact_memory_spec(e.total_vm_kb), Tone::Muted),
        LineView::Row("Swap"@, swap_spec(e.mem), Tone::Muted),
    ] + match ram_share_spec(e) {
        Some((rss, total)) => seq![LineView::RamImpact(rss, total)],
        None => Seq::empty(),
    }
}

pub open spec fn system_section(e: EventView) -> Seq<LineView> {
    seq![
        LineView::Blank,
        LineView::Section("SYSTEM"@),
        LineView::Row("Trigger"@, present_spec(e.trigger_process), Tone::Text),
        LineView::Row("Allocation"@, allocation_spec(e), Tone::Text),
        LineView::Row("Constraint"@, present_spec(e.constraint), Tone::Text),
        LineView::Row("OOM score"@, option_i32_spec(e.oom_score_adj), Tone::Text),
        LineView::Row("UID"@, option_u32_spec(e.uid), Tone::Text),
        LineView::Row("Cgroup"@, present_spec(e.cgroup), Tone::Text),
        LineView::Row("Limit cgroup"@, present_spec(e.limit_cgroup), Tone::Text),
        LineView::Row("Workload"@, workload_spec(e), Tone::Text),
    ]
}

pub open spec fn timeline_section(e: EventView, when: Seq<char>) -> Seq<LineView> {
    seq![
        LineView::Blank,
        LineView::Section("TIMELINE"@),
        LineView::Row("Timestamp"@, when, Tone::Text),
        LineView::Row("Classification"@, scope_label_spec(e), Tone::Text),
        LineView::Row("Confirmation"@, reaper_spec(e), if e.reaped {
            Tone::Good
        } else {
            Tone::Warning
        }),
    ]
}

/// A row of the task snapshot: `"  {pid:>7}  {name:<24}  {memory}"`.
pub open spec fn task_row(p: ProcessView) -> Seq<char> {
    "  "@ + pad_start(decimal(p.pid as nat), 7) + "  "@ + pad_end(p.name, 24) + "  "@ + exact_memory_spec(
        Some(p.rss_kb),
    )
}

pub open spec fn task_rows(s: Seq<ProcessView>) -> Seq<LineView> {
    s.map_values(|p: ProcessView| LineView::Plain(task_row(p)))
}

/// The task snapshot, largest resident set first.
pub open spec fn task_section(e: EventView) -> Seq<LineView> {
    seq![LineView::Blank, LineView::Section("TASK SNAPSHOT"@)] + if e.processes.len() == 0 {
        seq![LineView::Muted("  "@ + missing())]
    } else {
        task_rows(by_rss_desc(e.processes))
    }
}

/// Every line of the investigation pane, `when` being the timestamp row's text.
pub open spec fn detail_spec(e: EventView, when: Seq<char>) -> Seq<LineView> {
    culprit_spec(e) + summary_section(e) + memory_section(e) + system_section(e) + timeline_section(e, when)
        + task_section(e)
}

fn push_row(v: &mut Vec<DetailLine>, label: &str, value: String, tone: Tone)
    ensures
        lines_view(final(v)@) == lines_view(old(v)@).push(LineView::Row(label@, value@, tone)),
{
    push_line(v, DetailLine::Row(text(label), value, tone));
}

fn push_bullets(v: &mut Vec<DetailLine>, lines: &Vec<String>)
    ensures
        lines_view(final(v)@) == lines_view(old(v)@) + bullets(strings_view(lines@)),
{
    let ghost start = lines_view(v@);
    let ghost all = strings_view(lines@);
    let mut k: usize = 0;
    while k < lines.len()
        invariant
            k <= lines.len(),
            all == strings_view(lines@),
            lines_view(v@) == start + bullets(all.take(k as int)),
        decreases lines.len() - k,
    {
        push_line(v, DetailLine::Bullet(lines[k].clone()));
        assert(bullets(all.take(k + 1)) =~= bullets(all.take(k as int)).push(LineView::Bullet(all[k as int])));
        k = k + 1;
    }
    assert(all.take(lines.len() as int) =~= all);
}

fn name_and_pid_text(name: &String, pid: u32) -> (r: String)
    ensures
        r@ == name_and_pid(name@, pid),
{
    let mut r = String::new();
    r.append(name.as_str());
    r.append(" (PID ");
    push_decimal(&mut r, pid as u128);
    r.append(")");
    assert(r@ =~= name_and_pid(name@, pid));
    r
}

fn push_culprit(v: &mut Vec<DetailLine>, event: &OomEvent)
    ensures
        lines_view(final(v)@) == lines_view(old(v)@) + culprit_spec(event@),
{
    let ghost start = lines_view(v@);
    match event.victim_was_largest() {
        Some(false) => {
            let top = event.top_consumers(1);
            proof {
                lemma_by_rss_desc(event@.processes);
                assert(event@.processes.len() > 0);
                assert(refs_view(top@).len() == 1);
                assert(top@.len() == 1);
                assert(refs_view(top@)[0] == top@[0]@);
            }
            let mut alert = text(" ⚠ CULPRIT MISMATCH: Victim was collateral damage! Real culprit: ");
            let who = name_and_pid_text(&top[0].name, top[0].pid);
            alert.append(who.as_str());
            push_line(v, DetailLine::Alert(alert));
            push_line(v, DetailLine::Blank);
            assert(lines_view(v@) =~= start + culprit_spec(event@));
        },
        _ => {
            assert(lines_view(v@) =~= start + culprit_spec(event@));
        },
    }
}

fn push_summary(v: &mut Vec<DetailLine>, event: &OomEvent)
    ensures
        lines_view(final(v)@) == lines_view(old(v)@) + summary_section(event@),
{
    let ghost start = lines_view(v@);
    let investigation = investigate(event);
    push_line(v, DetailLine::Section(text("SUMMARY")));
    push_row(v, "Victim", name_and_pid_text(&event.victim_name, event.victim_pid), Tone::Text);
    push_line(v, DetailLine::Impact(event.rss_share_parts()));
    push_row(v, "Cause", text(scope_label(event)), Tone::Text);
    push_row(v, "Scope", text(scope_short(event)), Tone::Text);
    push_bullets(v, &investigation.summary);
    push_line(v, DetailLine::Blank);
    push_line(v, DetailLine::Section(text("DIAGNOSIS")));
    push_bullets(v, &investigation.diagnosis);
    assert(lines_view(v@) =~= start + summary_section(event@));
}

fn push_memory(v: &mut Vec<DetailLine>, event: &OomEvent)
    ensures
        lines_view(final(v)@) == lines_view(old(v)@) + memory_section(event@),
{
    let ghost start = lines_view(v@);
    push_line(v, DetailLine::Blank);
    push_line(v, DetailLine::Section(text("MEMORY")));
    push_row(v, "RSS", exact_memory(event.rss_total_kb()), Tone::Text);
    push_row(v, "Anonymous RSS", exact_memory(event.anon_rss_kb), Tone::Text);
    push_row(v, "File RSS", exact_memory(event.file_rss_kb), Tone::Text);
    push_row(v, "Shared RSS", exact_memory(event.shmem_rss_kb), Tone::Text);
    push_row(v, "Virtual memory", exact_memory(event.total_vm_kb), Tone::Muted);
    push_row(v, "Swap", swap(event), Tone::Muted);
    match event.rss_share_parts() {
        Some((rss, total)) => push_line(v, DetailLine::RamImpact(rss, total)),
        None => {},
    }
    assert(lines_view(v@) =~= start + memory_section(event@));
}

fn push_system(v: &mut Vec<DetailLine>, event: &OomEvent)
    ensures
        lines_view(final(v)@) == lines_view(old(v)@) + system_section(event@),
{
    let ghost start = lines_view(v@);
    push_line(v, DetailLine::Blank);
    push_line(v, DetailLine::Section(text("SYSTEM")));
    push_row(v, "Trigger", present(event.trigger_process.clone()), Tone::Text);
    push_row(v, "Allocation", allocation(event), Tone::Text);
    push_row(v, "Constraint", present(event.constraint.clone()), Tone::Text);
    push_row(v, "OOM score", option_i32(event.oom_score_adj), Tone::Text);
    push_row(v, "UID", option_u32(event.uid), Tone::Text);
    push_row(v, "Cgroup", present(event.cgroup.clone()), Tone::Text);
    push_row(v, "Limit cgroup", present(event.limit_cgroup.clone()), Tone::Text);
    push_row(v, "Workload", workload(event), Tone::Text);
    assert(lines_view(v@) =~= start + system_section(event@));
}

fn push_timeline(v: &mut Vec<DetailLine>, event: &OomEvent, when_text: String)
    ensures
        lines_view(final(v)@) == lines_view(old(v)@) + timeline_section(event@, when_text@),
{
    let ghost start = lines_view(v@);
    let ghost when = when_text@;
    push_line(v, DetailLine::Blank);
    push_line(v, DetailLine::Section(text("TIMELINE")));
    push_row(v, "Timestamp", when_text, Tone::Text);
    push_row(v, "Classification", text(scope_label(event)), Tone::Text);
    let tone = if event.reaped {
        Tone::Good
    } else {
        Tone::Warning
    };
    push_row(v, "Confirmation", text(reaper(event)), tone);
    assert(lines_view(v@) =~= start + timeline_section(event@, when));
}

fn task_row_text(p: &ProcessEntry) -> (r: String)
    ensures
        r@ == task_row(p@),
{
    let mut r = text("  ");
    let pid = decimal_string(p.pid as u64);
    push_padded_start(&mut r, &pid, 7);
    r.append("  ");
    push_padded_end(&mut r, &p.name, 24);
    r.append("  ");
    let m = exact_memory(Some(p.rss_kb));
    r.append(m.as_str());
    assert(r@ =~= task_row(p@));
    r
}

fn push_tasks(v: &mut Vec<DetailLine>, event: &OomEvent)
    ensures
        lines_view(final(v)@) == lines_view(old(v)@) + task_section(event@),
{
    let ghost start = lines_view(v@);
    push_line(v, DetailLine::Blank);
    push_line(v, DetailLine::Section(text("TASK SNAPSHOT")));
    let ghost head = lines_view(v@);
    if event.processes.len() == 0 {
        let mut m = text("  ");
        let missing_marker = missing_text();
        m.append(missing_marker.as_str());
        push_line(v, DetailLine::Muted(m));
        assert(lines_view(v@) =~= start + task_section(event@));
    } else {
        let sorted = event.top_consumers(usize::MAX);
        let ghost order = refs_view(sorted@);
        proof {
            lemma_by_rss_desc(event@.processes);
            assert(order =~= by_rss_desc(event@.processes));
        }
        let mut k: usize = 0;
        while k < sorted.len()
            invariant
                k <= sorted.len(),
                order == refs_view(sorted@),
                lines_view(v@) == head + task_rows(order.take(k as int)),
            decreases sorted.len() - k,
        {
            let row = task_row_text(sorted[k]);
            push_line(v, DetailLine::Plain(row));
            proof {
                assert(order[k as int] == sorted@[k as int]@);
                assert(task_rows(order.take(k + 1)) =~= task_rows(order.take(k as int)).push(
                    LineView::Plain(task_row(order[k as int])),
                ));
            }
            k = k + 1;
        }
        assert(order.take(sorted.len() as int) =~= order);
        assert(lines_view(v@) =~= start + task_section(event@));
    }
}

/// Every line of the investigation pane for an event, `when_text` being what
/// its timestamp row shows: the culprit warning when the victim was not the
/// largest task, then the summary, diagnosis, memory, system, timeline and
/// task-snapshot sections.
pub fn detail_lines(event: &OomEvent, when_text: String) -> (r: Vec<DetailLine>)
    ensures
        lines_view(r@) == detail_spec(event@, when_text@),
{
    let ghost when = when_text@;
    let mut v: Vec<DetailLine> = Vec::new();
    assert(lines_view(v@) =~= Seq::<LineView>::empty());
    push_culprit(&mut v, event);
    push_summary(&mut v, event);
    push_memory(&mut v, event);
    push_system(&mut v, event);
    push_timeline(&mut v, event, when_text);
    push_tasks(&mut v, event);
    assert(lines_view(v@) =~= detail_spec(event@, when));
    v
}

/// What the investigation pane promises: it opens with the culprit warning
/// exactly when the victim was not the largest task, naming the largest; and
/// after its `TASK SNAPSHOT` heading come the tasks, largest first in the
/// order `top_consumers` gives them, or the missing marker when the kernel
/// listed none.
pub proof fn lemma_detail_pane_laws(e: EventView, when: Seq<char>)
    ensures
        (detail_spec(e, when)[0] is Alert) <==> victim_was_largest_spec(e) == Some(false),
        victim_was_largest_spec(e) == Some(false) ==> detail_spec(e, when)[0] == LineView::Alert(
            " ⚠ CULPRIT MISMATCH: Victim was collateral damage! Real culprit: "@ + name_and_pid(
                by_rss_desc(e.processes)[0].name,
                by_rss_desc(e.processes)[0].pid,
            ),
        ),
        ({
            let d = detail_spec(e, when);
            let rows = if e.processes.len() == 0 {
                seq![LineView::Muted("  "@ + missing())]
            } else {
                task_rows(by_rss_desc(e.processes))
            };
            &&& d.len() > rows.len()
            &&& d[d.len() - rows.len() - 1] == LineView::Section("TASK SNAPSHOT"@)
            &&& d.skip(d.len() - rows.len()) == rows
        }),
{
    let d = detail_spec(e, when);
    let head = culprit_spec(e) + summary_section(e) + memory_section(e) + system_section(e) + timeline_section(
        e,
        when,
    );
    let rows = if e.processes.len() == 0 {
        seq![LineView::Muted("  "@ + missing())]
    } else {
        task_rows(by_rss_desc(e.processes))
    };
    assert(d == head + (seq![LineView::Blank, LineView::Section("TASK SNAPSHOT"@)] + rows));
    assert(d.skip(d.len() - rows.len()) =~= rows);
    assert(d[d.len() - rows.len() - 1] == LineView::Section("TASK SNAPSHOT"@));
    if victim_was_largest_spec(e) == Some(false) {
        assert(d[0] == culprit_spec(e)[0]);
    } else {
        assert(culprit_spec(e) =~= Seq::<LineView>::empty());
        assert(d[0] == summary_section(e)[0]);
    }
}

/// The length of the scope tag that opens a timeline entry (`"  [HOST] · "`
/// or `"  [CGROUP] · "`).
pub open spec fn scope_tag_len(e: EventView) -> int {
    if e.memcg_kill {
        ("  [CGROUP] · "@).len() as int
    } else {
        ("  [HOST] · "@).len() as int
    }
}

/// The timeline entry says where the kill happened and whether the reaper
/// confirmed it: it opens with the tag `[CGROUP]` exactly for a memory-cgroup
/// kill and `[HOST]` exactly for any other; right after the tag stands
/// "✓ reaped" exactly when the reaping was confirmed, and "⧖ pending" exactly
/// when it was not; and it ends with the raw timestamp.
pub proof fn lemma_timeline_shows_the_reaping(e: EventView)
    ensures
        starts_with(timeline_context_spec(e), "  [CGROUP]"@) <==> e.memcg_kill,
        starts_with(timeline_context_spec(e), "  [HOST]"@) <==> !e.memcg_kill,
        e.timestamp matches Some(ts) ==> ends_with(timeline_context_spec(e), ts),
        has_at(timeline_context_spec(e), scope_tag_len(e), "✓ reaped"@) <==> e.reaped,
        has_at(timeline_context_spec(e), scope_tag_len(e), "⧖ pending"@) <==> !e.reaped,
{
    reveal_strlit("  [");
    reveal_strlit("CGROUP");
    reveal_strlit("HOST");
    reveal_strlit("] · ");
    reveal_strlit("  [CGROUP] · ");
    reveal_strlit("  [HOST] · ");
    reveal_strlit("✓ reaped");
    reveal_strlit("⧖ pending");
    reveal_strlit("  [CGROUP]");
    reveal_strlit("  [HOST]");
    let t = timeline_context_spec(e);
    let cg = "  [CGROUP]"@;
    let ho = "  [HOST]"@;
    if e.memcg_kill {
        assert(t.subrange(0, cg.len() as int) =~= cg);
        if starts_with(t, ho) {
            assert(t.subrange(0, ho.len() as int)[3] == t[3]);
        }
    } else {
        assert(t.subrange(0, ho.len() as int) =~= ho);
        if starts_with(t, cg) {
            assert(t.subrange(0, cg.len() as int)[3] == t[3]);
        }
    }
    if let Some(ts) = e.timestamp {
        assert(t.subrange(t.len() - ts.len(), t.len() as int) =~= ts);
    }
    let p = scope_tag_len(e);
    let ok = "✓ reaped"@;
    let wait = "⧖ pending"@;
    let tag = "  ["@ + (if e.memcg_kill {
        "CGROUP"@
    } else {
        "HOST"@
    }) + "] · "@;
    assert(tag.len() == p);
    if e.reaped {
        assert(t.subrange(p, p + ok.len()) =~= ok);
        if has_at(t, p, wait) {
            assert(t.subrange(p, p + wait.len())[0] == t[p]);
        }
    } else {
        assert(t.subrange(p, p + wait.len()) =~= wait);
        if has_at(t, p, ok) {
            assert(t.subrange(p, p + ok.len())[0] == t[p]);
        }
    }
}

} // verus!
