//! Reassembles the scattered `printk` lines of an OOM kill into events.
//!
//! The kernel does NOT print one tidy OOM record - it prints several
//! independent printk lines in sequence, e.g:
//!
//!   [ 767.925606] stress invoked oom-killer: gfp_mask=0x..., order=0, oom_score_adj=0
//!   [ 767.925620] oom-kill:constraint=CONSTRAINT_NONE,nodemask=(null),cpuset=/,
//!                 mems_allowed=0,global_oom,task_memcg=/user.slice/user-1000.slice/session-1.scope,
//!                 task=stress,pid=1433,uid=1000
//!   [ 767.925620] Out of memory: Killed process 1433 (stress) total-vm:265804kB,
//!                 anon-rss:222856kB, file-rss:0kB, shmem-rss:0kB, UID:1000
//!                 pgtables:496kB oom_score_adj:0
//!   [ 767.973170] oom_reaper: reaped process 1433 (stress), now anon-rss:0kB, ...
//!
//! A single event is reconstructed by remembering the most recent
//! "invoked oom-killer" / "oom-kill:constraint=" lines and attaching them
//! to the "Killed process" line that follows, since that's the only line
//! guaranteed to exist for every real kill.
//!
//! Each line shape is a small grammar, stated below as a function on the
//! line's characters. Where a shape says "white space", "digit" or "word
//! character" it means the Unicode classes `\s`, `\d` and `\w` of the regex
//! crate; `[0-9]` means the ASCII digits.

use vstd::prelude::*;
use crate::container::opt_view;
use crate::model::{events_view, processes_view, strings_view, EventView, MemInfo, OomEvent, ProcessEntry, ProcessView};
use crate::tasks::{empty_table, recorded_mem, table_step, TableState};
use crate::text::{
    char_len, chars_of, decimal, has_at, has_at_ascii_ci, lemma_next_index_of, lines, lit_at, lit_at_ascii_ci,
    line_bounds, next_index_of, parse_i32, parse_i32_spec, parse_u32, parse_u32_spec, parse_u64,
    parse_u64_spec, push_chars, string_of, string_of_all, sub_vec, trim, trim_bounds, decimal_string,
};

verus! {

// ---------------------------------------------------------------------------
// Character classes
//
// `\s` is the Unicode `White_Space` property, which is short enough to write
// down. For `\d` and `\w` the ASCII members are fixed by their definition,
// and for the rest the regex crate is asked.

/// Whether the regex crate's `pattern` matches the single character `c`.
pub uninterp spec fn regex_matches_char(pattern: Seq<char>, c: char) -> bool;

/// The patterns of the two classes the grammar asks the regex crate about.
pub open spec fn digit_pattern() -> Seq<char> {
    "^\\d$"@
}

pub open spec fn word_pattern() -> Seq<char> {
    "^\\w$"@
}

/// The regex class `\s`: the Unicode `White_Space` property, as the regex
/// crate documents it.
pub open spec fn regex_space(c: char) -> bool {
    crate::text::std_white_space(c)
}

/// The regex class `\d`: among ASCII, `0` to `9`; beyond ASCII, as the regex
/// crate decides (Unicode `Decimal_Number`).
pub open spec fn regex_digit(c: char) -> bool {
    if (c as u32) < 128 {
        '0' <= c && c <= '9'
    } else {
        regex_matches_char(digit_pattern(), c)
    }
}

/// The regex class `\w`: among ASCII, letters, digits and `_`; beyond ASCII,
/// as the regex crate decides (Unicode word characters).
pub open spec fn regex_word(c: char) -> bool {
    if (c as u32) < 128 {
        ('0' <= c && c <= '9') || ('a' <= c && c <= 'z') || ('A' <= c && c <= 'Z') || c == '_'
    } else {
        regex_matches_char(word_pattern(), c)
    }
}

/// `regex::Regex::new(pattern)` and `is_match` on the character `c` alone: a
/// function of the pattern and the character. The patterns asked for are
/// valid, so building the regex does not fail.
#[verifier::external_body]
fn regex_class(pattern: &str, c: char) -> (b: bool)
    requires
        pattern@ == digit_pattern() || pattern@ == word_pattern(),
    ensures
        b == regex_matches_char(pattern@, c),
{
    let mut buf = [0u8; 4];
    regex::Regex::new(pattern).unwrap().is_match(c.encode_utf8(&mut buf))
}

fn is_space(c: char) -> (b: bool)
    ensures
        b == regex_space(c),
{
    let u = c as u32;
    (0x09 <= u && u <= 0x0D) || u == 0x20 || u == 0x85 || u == 0xA0 || u == 0x1680 || (0x2000 <= u && u
        <= 0x200A) || u == 0x2028 || u == 0x2029 || u == 0x202F || u == 0x205F || u == 0x3000
}

fn is_digit(c: char) -> (b: bool)
    ensures
        b == regex_digit(c),
{
    if (c as u32) < 128 {
        '0' <= c && c <= '9'
    } else {
        regex_class("^\\d$", c)
    }
}

fn is_word(c: char) -> (b: bool)
    ensures
        b == regex_word(c),
{
    if (c as u32) < 128 {
        ('0' <= c && c <= '9') || ('a' <= c && c <= 'z') || ('A' <= c && c <= 'Z') || c == '_'
    } else {
        regex_class("^\\w$", c)
    }
}

pub open spec fn space_class() -> spec_fn(char) -> bool {
    |c: char| regex_space(c)
}

pub open spec fn non_space_class() -> spec_fn(char) -> bool {
    |c: char| !regex_space(c)
}

pub open spec fn digit_class() -> spec_fn(char) -> bool {
    |c: char| regex_digit(c)
}

pub open spec fn ascii_digit_class() -> spec_fn(char) -> bool {
    |c: char| '0' <= c && c <= '9'
}

pub open spec fn comma_or_space_class() -> spec_fn(char) -> bool {
    |c: char| c == ',' || regex_space(c)
}

/// The first index at or after `i` whose character is not in class `p`.
pub open spec fn skip_while(s: Seq<char>, i: int, p: spec_fn(char) -> bool) -> int
    decreases s.len() - i,
{
    if 0 <= i < s.len() && p(s[i]) {
        skip_while(s, i + 1, p)
    } else {
        i
    }
}

pub proof fn lemma_skip_while(s: Seq<char>, i: int, p: spec_fn(char) -> bool)
    requires
        0 <= i <= s.len(),
    ensures
        i <= skip_while(s, i, p) <= s.len(),
        skip_while(s, i, p) < s.len() ==> !p(s[skip_while(s, i, p)]),
        forall|k: int| i <= k < skip_while(s, i, p) ==> p(#[trigger] s[k]),
    decreases s.len() - i,
{
    if i < s.len() && p(s[i]) {
        lemma_skip_while(s, i + 1, p);
    }
}

pub(crate) fn skip_space(s: &Vec<char>, i: usize) -> (r: usize)
    requires
        i <= s.len(),
    ensures
        r == skip_while(s@, i as int, space_class()),
        i <= r <= s.len(),
{
    let mut j = i;
    while j < s.len() && is_space(s[j])
        invariant
            i <= j <= s.len(),
            skip_while(s@, j as int, space_class()) == skip_while(s@, i as int, space_class()),
        decreases s.len() - j,
    {
        j = j + 1;
    }
    j
}

pub(crate) fn skip_non_space(s: &Vec<char>, i: usize) -> (r: usize)
    requires
        i <= s.len(),
    ensures
        r == skip_while(s@, i as int, non_space_class()),
        i <= r <= s.len(),
{
    let mut j = i;
    while j < s.len() && !is_space(s[j])
        invariant
            i <= j <= s.len(),
            skip_while(s@, j as int, non_space_class()) == skip_while(s@, i as int, non_space_class()),
        decreases s.len() - j,
    {
        j = j + 1;
    }
    j
}

fn skip_digits(s: &Vec<char>, i: usize) -> (r: usize)
    requires
        i <= s.len(),
    ensures
        r == skip_while(s@, i as int, digit_class()),
        i <= r <= s.len(),
{
    let mut j = i;
    while j < s.len() && is_digit(s[j])
        invariant
            i <= j <= s.len(),
            skip_while(s@, j as int, digit_class()) == skip_while(s@, i as int, digit_class()),
        decreases s.len() - j,
    {
        j = j + 1;
    }
    j
}

pub(crate) fn skip_ascii_digits(s: &Vec<char>, i: usize) -> (r: usize)
    requires
        i <= s.len(),
    ensures
        r == skip_while(s@, i as int, ascii_digit_class()),
        i <= r <= s.len(),
{
    let mut j = i;
    while j < s.len() && '0' <= s[j] && s[j] <= '9'
        invariant
            i <= j <= s.len(),
            skip_while(s@, j as int, ascii_digit_class()) == skip_while(s@, i as int, ascii_digit_class()),
        decreases s.len() - j,
    {
        j = j + 1;
    }
    j
}

fn skip_comma_or_space(s: &Vec<char>, i: usize) -> (r: usize)
    requires
        i <= s.len(),
    ensures
        r == skip_while(s@, i as int, comma_or_space_class()),
        i <= r <= s.len(),
{
    let mut j = i;
    while j < s.len() && (s[j] == ',' || is_space(s[j]))
        invariant
            i <= j <= s.len(),
            skip_while(s@, j as int, comma_or_space_class()) == skip_while(s@, i as int, comma_or_space_class()),
        decreases s.len() - j,
    {
        j = j + 1;
    }
    j
}

// ---------------------------------------------------------------------------
// Line prefixes

/// `[ 767.925606] rest...` at index `o` (raw dmesg / kernel uptime):
/// `\[\s*([0-9]+\.[0-9]+)\]\s*`. Gives the bounds of the uptime and the
/// start of the rest.
pub open spec fn uptime_bracket(s: Seq<char>, o: int) -> Option<(int, int, int)> {
    if !(0 <= o < s.len() && s[o] == '[') {
        None
    } else {
        let a = skip_while(s, o + 1, space_class());
        let d1 = skip_while(s, a, ascii_digit_class());
        if d1 > a && d1 < s.len() && s[d1] == '.' {
            let d2 = skip_while(s, d1 + 1, ascii_digit_class());
            if d2 > d1 + 1 && d2 < s.len() && s[d2] == ']' {
                Some((a, d2, skip_while(s, d2 + 1, space_class())))
            } else {
                None
            }
        } else {
            None
        }
    }
}

/// `[Sat Jul 18 09:03:34 2026] rest...` (`dmesg -T`): `^\[([^\]]+)\]\s*`.
/// Gives the end of the timestamp (which starts at 1) and the start of the rest.
pub open spec fn bracket_prefix(s: Seq<char>) -> Option<(int, int)> {
    if s.len() == 0 || s[0] != '[' {
        None
    } else {
        let e = next_index_of(s, 1, ']');
        if 1 < e < s.len() {
            Some((e, skip_while(s, e + 1, space_class())))
        } else {
            None
        }
    }
}

/// Two digits, a colon, two digits, a colon, two digits at `t`: `\d{2}:\d{2}:\d{2}`.
pub open spec fn clock_at(s: Seq<char>, t: int) -> bool {
    &&& 0 <= t
    &&& t + 8 <= s.len()
    &&& regex_digit(s[t]) && regex_digit(s[t + 1]) && s[t + 2] == ':'
    &&& regex_digit(s[t + 3]) && regex_digit(s[t + 4]) && s[t + 5] == ':'
    &&& regex_digit(s[t + 6]) && regex_digit(s[t + 7])
}

/// `Mar 24 18:41:04 host kernel: rest...` (syslog / journalctl -o short):
/// `^(\w{3}\s+\d{1,2}\s+\d{2}:\d{2}:\d{2})\s+\S+\s+(?:kernel:\s*)?`.
/// Gives the end of the timestamp (which starts at 0) and the start of the rest.
pub open spec fn syslog_prefix(s: Seq<char>) -> Option<(int, int)> {
    if s.len() < 3 || !(regex_word(s[0]) && regex_word(s[1]) && regex_word(s[2])) {
        None
    } else {
        let a = skip_while(s, 3, space_class());
        if a == 3 || a >= s.len() || !regex_digit(s[a]) {
            None
        } else {
            let e = if a + 1 < s.len() && regex_digit(s[a + 1]) {
                a + 2
            } else {
                a + 1
            };
            if e >= s.len() || !regex_space(s[e]) {
                None
            } else {
                let t = skip_while(s, e, space_class());
                if !clock_at(s, t) {
                    None
                } else {
                    let h = skip_while(s, t + 8, space_class());
                    let he = skip_while(s, h, non_space_class());
                    let w = skip_while(s, he, space_class());
                    if h == t + 8 || he == h || w == he {
                        None
                    } else if has_at(s, w, "kernel:"@) {
                        Some((t + 8, skip_while(s, w + 7, space_class())))
                    } else {
                        Some((t + 8, w))
                    }
                }
            }
        }
    }
}

/// The timestamp a line carries and where the rest of it starts. An uptime
/// is spelled `+<seconds>s`. rsyslog writes a syslog prefix and then the
/// kernel's own uptime bracket; both are stripped and the syslog time is kept.
pub open spec fn strip_prefix_spec(line: Seq<char>) -> (Option<Seq<char>>, int) {
    match uptime_bracket(line, 0) {
        Some((a, d, r)) => (Some(seq!['+'] + line.subrange(a, d) + seq!['s']), r),
        None => match bracket_prefix(line) {
            Some((e, r)) => (Some(line.subrange(1, e)), r),
            None => match syslog_prefix(line) {
                Some((te, r)) => match uptime_bracket(line, r) {
                    Some((_a, _d, r2)) => (Some(line.take(te)), r2),
                    None => (Some(line.take(te)), r),
                },
                None => (None, 0),
            },
        },
    }
}

fn uptime_bracket_exec(s: &Vec<char>, o: usize) -> (r: Option<(usize, usize, usize)>)
    ensures
        match uptime_bracket(s@, o as int) {
            Some((a, d, rest)) => r == Some((a as usize, d as usize, rest as usize)) && o < a <= d
                < rest <= s.len(),
            None => r is None,
        },
{
    if !(o < s.len() && s[o] == '[') {
        return None;
    }
    let a = skip_space(s, o + 1);
    let d1 = skip_ascii_digits(s, a);
    if d1 > a && d1 < s.len() && s[d1] == '.' {
        let d2 = skip_ascii_digits(s, d1 + 1);
        if d2 > d1 + 1 && d2 < s.len() && s[d2] == ']' {
            let rest = skip_space(s, d2 + 1);
            return Some((a, d2, rest));
        }
    }
    None
}

fn bracket_prefix_exec(s: &Vec<char>) -> (r: Option<(usize, usize)>)
    ensures
        match bracket_prefix(s@) {
            Some((e, rest)) => r == Some((e as usize, rest as usize)) && 1 < e < rest <= s.len(),
            None => r is None,
        },
{
    if s.len() == 0 || s[0] != '[' {
        return None;
    }
    let mut e: usize = 1;
    while e < s.len() && s[e] != ']'
        invariant
            1 <= e <= s.len(),
            next_index_of(s@, e as int, ']') == next_index_of(s@, 1, ']'),
        decreases s.len() - e,
    {
        e = e + 1;
    }
    if 1 < e && e < s.len() {
        let rest = skip_space(s, e + 1);
        Some((e, rest))
    } else {
        None
    }
}

fn clock_at_exec(s: &Vec<char>, t: usize) -> (b: bool)
    ensures
        b == clock_at(s@, t as int),
{
    t <= s.len() && s.len() - t >= 8 && is_digit(s[t]) && is_digit(s[t + 1]) && s[t + 2] == ':'
        && is_digit(s[t + 3]) && is_digit(s[t + 4]) && s[t + 5] == ':' && is_digit(s[t + 6])
        && is_digit(s[t + 7])
}

fn syslog_prefix_exec(s: &Vec<char>) -> (r: Option<(usize, usize)>)
    ensures
        match syslog_prefix(s@) {
            Some((te, rest)) => r == Some((te as usize, rest as usize)) && te <= rest <= s.len(),
            None => r is None,
        },
{
    if s.len() < 3 || !(is_word(s[0]) && is_word(s[1]) && is_word(s[2])) {
        return None;
    }
    let a = skip_space(s, 3);
    if a == 3 || a >= s.len() || !is_digit(s[a]) {
        return None;
    }
    let e = if a + 1 < s.len() && is_digit(s[a + 1]) {
        a + 2
    } else {
        a + 1
    };
    if e >= s.len() || !is_space(s[e]) {
        return None;
    }
    let t = skip_space(s, e);
    if !clock_at_exec(s, t) {
        return None;
    }
    let h = skip_space(s, t + 8);
    let he = skip_non_space(s, h);
    let w = skip_space(s, he);
    if h == t + 8 || he == h || w == he {
        return None;
    }
    proof {
        reveal_strlit("kernel:");
    }
    if lit_at(s, w, "kernel:") {
        Some((t + 8, skip_space(s, w + 7)))
    } else {
        Some((t + 8, w))
    }
}

/// Strips a dmesg/syslog prefix off a line, returning the timestamp and the
/// rest of the line. If no known prefix matches, the whole line is the rest
/// and there is no timestamp.
pub fn strip_prefix(line: &str) -> (r: (Option<String>, String))
    ensures
        opt_view(r.0) == strip_prefix_spec(line@).0,
        r.1@ == line@.skip(strip_prefix_spec(line@).1),
{
    let v = chars_of(line);
    let (ts, rest) = strip_prefix_chars(&v);
    let tail = string_of(&v, rest, v.len());
    assert(v@.subrange(rest as int, v@.len() as int) =~= line@.skip(rest as int));
    (ts, tail)
}

/// Strips a dmesg/syslog prefix off a line, returning the timestamp and the
/// index where the rest of the line starts. If no known prefix matches, the
/// whole line is the rest and there is no timestamp.
fn strip_prefix_chars(line: &Vec<char>) -> (r: (Option<String>, usize))
    ensures
        opt_view(r.0) == strip_prefix_spec(line@).0,
        r.1 == strip_prefix_spec(line@).1,
        r.1 <= line.len(),
{
    if let Some((a, d, rest)) = uptime_bracket_exec(line, 0) {
        let mut ts = String::new();
        ts.push('+');
        push_chars(&mut ts, line, a, d);
        ts.push('s');
        assert(ts@ =~= seq!['+'] + line@.subrange(a as int, d as int) + seq!['s']);
        return (Some(ts), rest);
    }
    if let Some((e, rest)) = bracket_prefix_exec(line) {
        return (Some(string_of(line, 1, e)), rest);
    }
    if let Some((te, rest)) = syslog_prefix_exec(line) {
        assert(line@.subrange(0, te as int) =~= line@.take(te as int));
        let ts = string_of(line, 0, te);
        if let Some((_a, _d, rest2)) = uptime_bracket_exec(line, rest) {
            return (Some(ts), rest2);
        }
        return (Some(ts), rest);
    }
    (None, 0)
}

// ---------------------------------------------------------------------------
// The trigger line: `<proc> invoked oom-killer: gfp_mask=<gfp>, order=<n>`
//
// `^(.+?)\s+invoked oom-killer:\s*gfp_mask=(\S+),\s*order=(\d+)`: the process
// name is the shortest prefix after which the rest matches; the mask is the
// longest run of non-space characters that is followed by `,` and the order.

/// `\s*order=(\d+)` at `q`: the bounds of the digits.
pub open spec fn order_after(s: Seq<char>, q: int) -> Option<(int, int)> {
    let q2 = skip_while(s, q, space_class());
    if has_at(s, q2, "order="@) {
        let d = skip_while(s, q2 + 6, digit_class());
        if d > q2 + 6 {
            Some((q2 + 6, d))
        } else {
            None
        }
    } else {
        None
    }
}

/// The last comma in `s[g+1..=k]` that the order follows.
pub open spec fn mask_end(s: Seq<char>, g: int, k: int) -> Option<int>
    decreases k - g,
{
    if k <= g {
        None
    } else if s[k] == ',' && order_after(s, k + 1) is Some {
        Some(k)
    } else {
        mask_end(s, g, k - 1)
    }
}

/// With the process name ending at `p`: the bounds of the mask and of the order.
pub open spec fn trigger_at(s: Seq<char>, p: int) -> Option<(int, int, int, int)> {
    let i = skip_while(s, p, space_class());
    if i > p && has_at(s, i, "invoked oom-killer:"@) {
        let j = skip_while(s, i + 19, space_class());
        if has_at(s, j, "gfp_mask="@) {
            let g = j + 9;
            let e = skip_while(s, g, non_space_class());
            match mask_end(s, g, e - 1) {
                Some(k) => match order_after(s, k + 1) {
                    Some((o1, o2)) => Some((g, k, o1, o2)),
                    None => None,
                },
                None => None,
            }
        } else {
            None
        }
    } else {
        None
    }
}

/// The shortest process name ending at or after `p` that the rest follows.
pub open spec fn trigger_from(s: Seq<char>, p: int) -> Option<(int, int, int, int, int)>
    decreases s.len() - p,
{
    if p < 1 || p >= s.len() {
        None
    } else {
        match trigger_at(s, p) {
            Some((g, k, o1, o2)) => Some((p, g, k, o1, o2)),
            None => trigger_from(s, p + 1),
        }
    }
}

/// The trigger line, if `s` is one: the end of the process name, the bounds
/// of the mask and the bounds of the order digits.
pub open spec fn trigger_spec(s: Seq<char>) -> Option<(int, int, int, int, int)> {
    trigger_from(s, 1)
}

fn order_after_exec(s: &Vec<char>, q: usize) -> (r: Option<(usize, usize)>)
    requires
        q <= s.len(),
    ensures
        match order_after(s@, q as int) {
            Some((a, b)) => r == Some((a as usize, b as usize)) && q <= a < b <= s.len(),
            None => r is None,
        },
{
    let q2 = skip_space(s, q);
    proof {
        reveal_strlit("order=");
    }
    if lit_at(s, q2, "order=") {
        let d = skip_digits(s, q2 + 6);
        if d > q2 + 6 {
            return Some((q2 + 6, d));
        }
    }
    None
}

fn mask_end_exec(s: &Vec<char>, g: usize, e: usize) -> (r: Option<usize>)
    requires
        g < e <= s.len(),
    ensures
        match mask_end(s@, g as int, e - 1) {
            Some(k) => r == Some(k as usize) && g < k < e,
            None => r is None,
        },
{
    let mut k = e - 1;
    while k > g
        invariant
            g <= k < e <= s.len(),
            mask_end(s@, g as int, k as int) == mask_end(s@, g as int, e - 1),
        decreases k,
    {
        if s[k] == ',' && order_after_exec(s, k + 1).is_some() {
            return Some(k);
        }
        k = k - 1;
    }
    None
}

fn trigger_at_exec(s: &Vec<char>, p: usize) -> (r: Option<(usize, usize, usize, usize)>)
    requires
        p <= s.len(),
    ensures
        match trigger_at(s@, p as int) {
            Some((g, k, o1, o2)) => r == Some((g as usize, k as usize, o1 as usize, o2 as usize)) && p
                < g < k < o1 < o2 <= s.len(),
            None => r is None,
        },
{
    let i = skip_space(s, p);
    proof {
        reveal_strlit("invoked oom-killer:");
        reveal_strlit("gfp_mask=");
    }
    if i > p && lit_at(s, i, "invoked oom-killer:") {
        let j = skip_space(s, i + 19);
        if lit_at(s, j, "gfp_mask=") {
            let g = j + 9;
            let e = skip_non_space(s, g);
            if e == g {
                assert(mask_end(s@, g as int, e - 1) is None);
                return None;
            }
            match mask_end_exec(s, g, e) {
                Some(k) => match order_after_exec(s, k + 1) {
                    Some((o1, o2)) => {
                        return Some((g, k, o1, o2));
                    },
                    None => {
                        return None;
                    },
                },
                None => {
                    return None;
                },
            }
        }
    }
    None
}

fn trigger_exec(s: &Vec<char>) -> (r: Option<(usize, usize, usize, usize, usize)>)
    ensures
        match trigger_spec(s@) {
            Some((p, g, k, o1, o2)) => r == Some(
                (p as usize, g as usize, k as usize, o1 as usize, o2 as usize),
            ) && 1 <= p < g < k < o1 < o2 <= s.len(),
            None => r is None,
        },
{
    let mut p: usize = 1;
    while p < s.len()
        invariant
            1 <= p,
            p <= s.len() || s.len() == 0,
            trigger_from(s@, p as int) == trigger_from(s@, 1),
        decreases s.len() - p,
    {
        if let Some((g, k, o1, o2)) = trigger_at_exec(s, p) {
            return Some((p, g, k, o1, o2));
        }
        p = p + 1;
    }
    None
}

// ---------------------------------------------------------------------------
// The constraint line:
// `oom-kill:constraint=<c>,...,oom_memcg=<limit>,task_memcg=<cg>,task=<t>,pid=<n>,uid=<n>`
//
// `^oom-kill:constraint=(\S+?),.*?task_memcg=(\S+?),task=(.+?),pid=(\d+),uid=(\d+)`:
// every part is the shortest that lets the rest match. The cgroup whose
// limit was breached is the `oom_memcg=` field, when the kernel printed one,
// up to the `,` before `task_memcg=`.

/// `,pid=<digits>,uid=<digit>` at `q`.
pub open spec fn pid_uid_at(s: Seq<char>, q: int) -> bool {
    &&& has_at(s, q, ",pid="@)
    &&& skip_while(s, q + 5, digit_class()) > q + 5
    &&& has_at(s, skip_while(s, q + 5, digit_class()), ",uid="@)
    &&& skip_while(s, q + 5, digit_class()) + 5 < s.len()
    &&& regex_digit(s[skip_while(s, q + 5, digit_class()) + 5])
}

/// Some `,pid=...,uid=...` starts at or after `q`.
pub open spec fn pid_uid_from(s: Seq<char>, q: int) -> bool
    decreases s.len() - q,
{
    if q < 0 || q >= s.len() {
        false
    } else {
        pid_uid_at(s, q) || pid_uid_from(s, q + 1)
    }
}

/// With the cgroup starting at `m`: its end, the first `,task=` inside the
/// run of non-space characters from `m + 1` on, when the task and ids follow.
pub open spec fn memcg_end(s: Seq<char>, m: int) -> Option<int> {
    let e = skip_while(s, m, non_space_class());
    match find_from(s, m + 1, ",task="@) {
        Some(j) => if j < e && pid_uid_from(s, j + 7) {
            Some(j)
        } else {
            None
        },
        None => None,
    }
}

/// The first index at or after `i` where `lit` occurs.
pub open spec fn find_from(s: Seq<char>, i: int, lit: Seq<char>) -> Option<int>
    decreases s.len() - i,
{
    if i < 0 || i >= s.len() {
        if i == s.len() && lit.len() == 0 {
            Some(i)
        } else {
            None
        }
    } else if has_at(s, i, lit) {
        Some(i)
    } else {
        find_from(s, i + 1, lit)
    }
}

/// The first `task_memcg=` at or after `t` whose cgroup and tail match:
/// the bounds of the cgroup.
pub open spec fn memcg_from(s: Seq<char>, t: int) -> Option<(int, int)>
    decreases s.len() - t,
{
    if t < 0 || t >= s.len() {
        None
    } else if has_at(s, t, "task_memcg="@) && memcg_end(s, t + 11) is Some {
        Some((t + 11, memcg_end(s, t + 11)->0))
    } else {
        memcg_from(s, t + 1)
    }
}

/// The non-empty `oom_memcg=` field in `s[from..to]` when a `,` follows it
/// right before `to`: the bounds of its value.
pub open spec fn limit_in(s: Seq<char>, from: int, to: int) -> Option<(int, int)> {
    match find_from(s, from, "oom_memcg="@) {
        Some(o) => if o + 10 < to - 1 && to <= s.len() && s[to - 1] == ',' {
            Some((o + 10, to - 1))
        } else {
            None
        },
        None => None,
    }
}

/// The constraint line, if `s` is one: the bounds of the constraint, of the
/// task's cgroup, and of the limit cgroup when there is one.
pub open spec fn constraint_spec(s: Seq<char>) -> Option<(int, int, int, int, Option<(int, int)>)> {
    if !has_at(s, 0, "oom-kill:constraint="@) {
        None
    } else {
        let e = skip_while(s, 20, non_space_class());
        let k = next_index_of(s, 21, ',');
        if 20 < e && k < e {
            match memcg_from(s, k + 1) {
                Some((m, j)) => Some((20, k, m, j, limit_in(s, k + 1, m - 11))),
                None => None,
            }
        } else {
            None
        }
    }
}

fn pid_uid_at_exec(s: &Vec<char>, q: usize) -> (b: bool)
    requires
        q <= s.len(),
    ensures
        b == pid_uid_at(s@, q as int),
{
    proof {
        reveal_strlit(",pid=");
        reveal_strlit(",uid=");
    }
    if !lit_at(s, q, ",pid=") {
        return false;
    }
    let d = skip_digits(s, q + 5);
    d > q + 5 && lit_at(s, d, ",uid=") && d + 5 < s.len() && is_digit(s[d + 5])
}

fn pid_uid_from_exec(s: &Vec<char>, q: usize) -> (b: bool)
    requires
        q <= s.len(),
    ensures
        b == pid_uid_from(s@, q as int),
{
    let mut i = q;
    while i < s.len()
        invariant
            q <= i <= s.len(),
            pid_uid_from(s@, i as int) == pid_uid_from(s@, q as int),
        decreases s.len() - i,
    {
        if pid_uid_at_exec(s, i) {
            return true;
        }
        i = i + 1;
    }
    false
}

pub(crate) fn find_from_exec(s: &Vec<char>, i: usize, lit: &str) -> (r: Option<usize>)
    requires
        i <= s.len(),
    ensures
        match find_from(s@, i as int, lit@) {
            Some(j) => r == Some(j as usize) && i <= j <= s.len(),
            None => r is None,
        },
{
    let mut j = i;
    while j < s.len()
        invariant
            i <= j <= s.len(),
            find_from(s@, j as int, lit@) == find_from(s@, i as int, lit@),
        decreases s.len() - j,
    {
        if lit_at(s, j, lit) {
            return Some(j);
        }
        j = j + 1;
    }
    let l = chars_of(lit);
    if l.len() == 0 {
        Some(j)
    } else {
        None
    }
}

fn memcg_end_exec(s: &Vec<char>, m: usize) -> (r: Option<usize>)
    requires
        m < s.len(),
    ensures
        match memcg_end(s@, m as int) {
            Some(j) => r == Some(j as usize) && m < j < s.len(),
            None => r is None,
        },
{
    let e = skip_non_space(s, m);
    match find_from_exec(s, m + 1, ",task=") {
        Some(j) => {
            if j < e && s.len() - j >= 7 && pid_uid_from_exec(s, j + 7) {
                Some(j)
            } else {
                proof {
                    if j < e && j + 7 > s.len() {
                        assert(!pid_uid_from(s@, j + 7));
                    }
                }
                None
            }
        },
        None => None,
    }
}

fn memcg_from_exec(s: &Vec<char>, t: usize) -> (r: Option<(usize, usize)>)
    requires
        t <= s.len(),
    ensures
        match memcg_from(s@, t as int) {
            Some((m, j)) => r == Some((m as usize, j as usize)) && t + 11 <= m < j < s.len(),
            None => r is None,
        },
{
    proof {
        reveal_strlit("task_memcg=");
    }
    let mut i = t;
    while i < s.len()
        invariant
            t <= i <= s.len(),
            memcg_from(s@, i as int) == memcg_from(s@, t as int),
        decreases s.len() - i,
    {
        if lit_at(s, i, "task_memcg=") && s.len() - i > 11 {
            if let Some(j) = memcg_end_exec(s, i + 11) {
                return Some((i + 11, j));
            }
        }
        proof {
            if has_at(s@, i as int, "task_memcg="@) && i + 11 >= s.len() {
                // the cgroup would start at the end of the line: no `,task=` after it
                assert(skip_while(s@, i + 11, non_space_class()) == i + 11);
                lemma_find_from_bounds(s@, i + 12, ",task="@);
            }
        }
        i = i + 1;
    }
    None
}

proof fn lemma_find_from_bounds(s: Seq<char>, i: int, lit: Seq<char>)
    requires
        i >= 0,
    ensures
        find_from(s, i, lit) matches Some(j) ==> i <= j <= s.len(),
    decreases s.len() - i,
{
    if 0 <= i < s.len() && !has_at(s, i, lit) {
        lemma_find_from_bounds(s, i + 1, lit);
    }
}

fn limit_in_exec(s: &Vec<char>, from: usize, to: usize) -> (r: Option<(usize, usize)>)
    requires
        from <= to <= s.len(),
    ensures
        match limit_in(s@, from as int, to as int) {
            Some((a, b)) => r == Some((a as usize, b as usize)) && from <= a < b <= s.len(),
            None => r is None,
        },
{
    proof {
        reveal_strlit("oom_memcg=");
        lemma_find_from_bounds(s@, from as int, "oom_memcg="@);
    }
    match find_from_exec(s, from, "oom_memcg=") {
        Some(o) => {
            if o < to && to - o > 11 && s[to - 1] == ',' {
                Some((o + 10, to - 1))
            } else {
                None
            }
        },
        None => None,
    }
}

fn constraint_exec(s: &Vec<char>) -> (r: Option<(usize, usize, usize, usize, Option<(usize, usize)>)>)
    ensures
        match constraint_spec(s@) {
            Some((c0, k, m, j, lim)) => {
                &&& r matches Some((rc0, rk, rm, rj, rlim))
                &&& rc0 == c0 && rk == k && rm == m && rj == j
                &&& c0 < k < m < j < s.len()
                &&& match lim {
                    Some((a, b)) => rlim == Some((a as usize, b as usize)) && 0 <= a < b <= s.len(),
                    None => rlim is None,
                }
            },
            None => r is None,
        },
{
    proof {
        reveal_strlit("oom-kill:constraint=");
    }
    if !lit_at(s, 0, "oom-kill:constraint=") {
        return None;
    }
    let e = skip_non_space(s, 20);
    if e <= 20 {
        return None;
    }
    let mut k: usize = 21;
    while k < s.len() && s[k] != ','
        invariant
            21 <= k <= s.len(),
            next_index_of(s@, k as int, ',') == next_index_of(s@, 21, ','),
        decreases s.len() - k,
    {
        k = k + 1;
    }
    if k >= e {
        return None;
    }
    match memcg_from_exec(s, k + 1) {
        Some((m, j)) => {
            let lim = limit_in_exec(s, k + 1, m - 11);
            Some((20, k, m, j, lim))
        },
        None => None,
    }
}

// ---------------------------------------------------------------------------
// The kill line:
// `Out of memory: Killed process <pid> (<name>) total-vm:<n>kB, anon-rss:<n>kB,
//  file-rss:<n>kB, shmem-rss:<n>kB, UID:<n> pgtables:<n>kB oom_score_adj:<n>`
//
// `^(?i:(?:Memory cgroup )?Out of memory(?: \(oom_kill_allocating_task\))?:)\s*Killed process\s+(\d+)
//  \s*\(([^)]+)\)(?:,\s*UID\s*(\d+))?[,\s]*total-vm:(\d+)kB,\s*anon-rss:(\d+)kB,\s*file-rss:(\d+)kB,
//  \s*shmem-rss:(\d+)kB(?:,\s*UID:(\d+))?\s*pgtables:(\d+)kB\s*oom_score_adj:(-?\d+)`
// The message before `Killed process` is one of the three the kernel prints,
// in any letter case.

/// The bounds of the fields a kill line carries.
pub struct KillFields {
    /// The kill satisfied a memory cgroup's limit.
    pub memcg: bool,
    pub pid: (int, int),
    pub name: (int, int),
    pub uid1: Option<(int, int)>,
    pub vm: (int, int),
    pub anon: (int, int),
    pub file: (int, int),
    pub shmem: (int, int),
    pub uid2: Option<(int, int)>,
    pub pgtables: (int, int),
    pub adj: (int, int),
}

/// A run of at least one digit at `i`: its end.
pub open spec fn digits_at(s: Seq<char>, i: int) -> Option<int> {
    let d = skip_while(s, i, digit_class());
    if d > i {
        Some(d)
    } else {
        None
    }
}

/// `lit` at `i`, then a run of digits, then `unit`: the bounds of the digits.
pub open spec fn field_at(s: Seq<char>, i: int, lit: Seq<char>, unit: Seq<char>) -> Option<(int, int)> {
    if has_at(s, i, lit) {
        match digits_at(s, i + lit.len()) {
            Some(d) => if has_at(s, d, unit) {
                Some((i + lit.len(), d))
            } else {
                None
            },
            None => None,
        }
    } else {
        None
    }
}

/// The message that opens a kill line: whether it names a memory cgroup, and
/// where it ends.
pub open spec fn kill_message(s: Seq<char>) -> Option<(bool, int)> {
    let memcg = has_at_ascii_ci(s, 0, "Memory cgroup "@);
    let m: int = if memcg {
        14
    } else {
        0
    };
    if !has_at_ascii_ci(s, m, "Out of memory"@) {
        None
    } else if has_at_ascii_ci(s, m + 13, " (oom_kill_allocating_task):"@) {
        Some((memcg, m + 41))
    } else if has_at_ascii_ci(s, m + 13, ":"@) {
        Some((memcg, m + 14))
    } else {
        None
    }
}

/// `Killed process <pid> (<name>)` after the message ending at `h`: the
/// bounds of the pid and the name.
pub open spec fn victim_at(s: Seq<char>, h: int) -> Option<((int, int), (int, int))> {
    let k = skip_while(s, h, space_class());
    if !has_at(s, k, "Killed process"@) {
        None
    } else {
        let w = skip_while(s, k + 14, space_class());
        match digits_at(s, w) {
            Some(d) => if w > k + 14 {
                let n = skip_while(s, d, space_class());
                if n < s.len() && s[n] == '(' {
                    let ne = next_index_of(s, n + 1, ')');
                    if n + 1 < ne < s.len() {
                        Some(((w, d), (n + 1, ne)))
                    } else {
                        None
                    }
                } else {
                    None
                }
            } else {
                None
            },
            None => None,
        }
    }
}

/// `,\s*<lit>\s*(\d+)` at `i`, when present: the bounds of the digits.
pub open spec fn optional_uid(s: Seq<char>, i: int, lit: Seq<char>, space_after: bool) -> Option<(int, int)> {
    if 0 <= i < s.len() && s[i] == ',' {
        let u = skip_while(s, i + 1, space_class());
        if has_at(s, u, lit) {
            let v = if space_after {
                skip_while(s, u + lit.len(), space_class())
            } else {
                u + lit.len()
            };
            match digits_at(s, v) {
                Some(d) => Some((v, d)),
                None => None,
            }
        } else {
            None
        }
    } else {
        None
    }
}

/// The index after an optional match.
pub open spec fn after_optional(o: Option<(int, int)>, i: int) -> int {
    match o {
        Some((_a, d)) => d,
        None => i,
    }
}

/// The memory fields from `total-vm:` on, starting at `i`:
/// vm, anon, file, shmem, the second UID and where the rest starts.
pub open spec fn memory_fields(s: Seq<char>, i: int) -> Option<
    ((int, int), (int, int), (int, int), (int, int), Option<(int, int)>, int),
> {
    let x = skip_while(s, i, comma_or_space_class());
    match field_at(s, x, "total-vm:"@, "kB,"@) {
        None => None,
        Some(vm) => match field_at(s, skip_while(s, vm.1 + 3, space_class()), "anon-rss:"@, "kB,"@) {
            None => None,
            Some(anon) => match field_at(
                s,
                skip_while(s, anon.1 + 3, space_class()),
                "file-rss:"@,
                "kB,"@,
            ) {
                None => None,
                Some(file) => match field_at(
                    s,
                    skip_while(s, file.1 + 3, space_class()),
                    "shmem-rss:"@,
                    "kB"@,
                ) {
                    None => None,
                    Some(shmem) => {
                        let uid2 = optional_uid(s, shmem.1 + 2, "UID:"@, false);
                        Some((vm, anon, file, shmem, uid2, after_optional(uid2, shmem.1 + 2)))
                    },
                },
            },
        },
    }
}

/// `\s*pgtables:(\d+)kB\s*oom_score_adj:(-?\d+)` at `i`: the bounds of both numbers.
pub open spec fn score_fields(s: Seq<char>, i: int) -> Option<((int, int), (int, int))> {
    match field_at(s, skip_while(s, i, space_class()), "pgtables:"@, "kB"@) {
        None => None,
        Some(pgt) => {
            let a = skip_while(s, pgt.1 + 2, space_class());
            if has_at(s, a, "oom_score_adj:"@) {
                let v = a + 14;
                if v < s.len() && s[v] == '-' {
                    match digits_at(s, v + 1) {
                        Some(d) => Some((pgt, (v, d))),
                        None => None,
                    }
                } else {
                    match digits_at(s, v) {
                        Some(d) => Some((pgt, (v, d))),
                        None => None,
                    }
                }
            } else {
                None
            }
        },
    }
}

/// The kill line, if `s` is one.
pub open spec fn kill_spec(s: Seq<char>) -> Option<KillFields> {
    match kill_message(s) {
        None => None,
        Some((memcg, h)) => match victim_at(s, h) {
            None => None,
            Some((pid, name)) => {
                let uid1 = optional_uid(s, name.1 + 1, "UID"@, true);
                match memory_fields(s, after_optional(uid1, name.1 + 1)) {
                    None => None,
                    Some((vm, anon, file, shmem, uid2, r)) => match score_fields(s, r) {
                        None => None,
                        Some((pgtables, adj)) => Some(
                            KillFields {
                                memcg,
                                pid,
                                name,
                                uid1,
                                vm,
                                anon,
                                file,
                                shmem,
                                uid2,
                                pgtables,
                                adj,
                            },
                        ),
                    },
                }
            },
        },
    }
}

// ---------------------------------------------------------------------------
// The reaper line: `oom_reaper: reaped process <pid> (<name>)...`
//
// `^oom_reaper:\s*reaped process\s+(\d+)\s*\(([^)]+)\)`

/// The reaper line, if `s` is one: the bounds of the pid.
pub open spec fn reaper_spec(s: Seq<char>) -> Option<(int, int)> {
    if !has_at(s, 0, "oom_reaper:"@) {
        None
    } else {
        let a = skip_while(s, 11, space_class());
        if !has_at(s, a, "reaped process"@) {
            None
        } else {
            let b = skip_while(s, a + 14, space_class());
            match digits_at(s, b) {
                Some(d) => if b > a + 14 {
                    let c = skip_while(s, d, space_class());
                    if c < s.len() && s[c] == '(' {
                        let e = next_index_of(s, c + 1, ')');
                        if c + 1 < e < s.len() {
                            Some((b, d))
                        } else {
                            None
                        }
                    } else {
                        None
                    }
                } else {
                    None
                },
                None => None,
            }
        }
    }
}

/// Exec bounds of a kill line; see [`KillFields`].
pub struct KillBounds {
    pub memcg: bool,
    pub pid: (usize, usize),
    pub name: (usize, usize),
    pub uid1: Option<(usize, usize)>,
    pub vm: (usize, usize),
    pub anon: (usize, usize),
    pub file: (usize, usize),
    pub shmem: (usize, usize),
    pub uid2: Option<(usize, usize)>,
    pub pgtables: (usize, usize),
    pub adj: (usize, usize),
}

pub open spec fn pair_int(p: (usize, usize)) -> (int, int) {
    (p.0 as int, p.1 as int)
}

pub open spec fn opt_pair_int(p: Option<(usize, usize)>) -> Option<(int, int)> {
    match p {
        Some(q) => Some(pair_int(q)),
        None => None,
    }
}

pub open spec fn pair_within(p: (usize, usize), n: nat) -> bool {
    p.0 <= p.1 <= n
}

pub open spec fn opt_pair_within(p: Option<(usize, usize)>, n: nat) -> bool {
    match p {
        Some(q) => pair_within(q, n),
        None => true,
    }
}

impl KillBounds {
    pub open spec fn fields(self) -> KillFields {
        KillFields {
            memcg: self.memcg,
            pid: pair_int(self.pid),
            name: pair_int(self.name),
            uid1: opt_pair_int(self.uid1),
            vm: pair_int(self.vm),
            anon: pair_int(self.anon),
            file: pair_int(self.file),
            shmem: pair_int(self.shmem),
            uid2: opt_pair_int(self.uid2),
            pgtables: pair_int(self.pgtables),
            adj: pair_int(self.adj),
        }
    }

    pub open spec fn within(self, n: nat) -> bool {
        &&& pair_within(self.pid, n)
        &&& pair_within(self.name, n)
        &&& opt_pair_within(self.uid1, n)
        &&& pair_within(self.vm, n)
        &&& pair_within(self.anon, n)
        &&& pair_within(self.file, n)
        &&& pair_within(self.shmem, n)
        &&& opt_pair_within(self.uid2, n)
        &&& pair_within(self.pgtables, n)
        &&& pair_within(self.adj, n)
    }
}

fn digits_at_exec(s: &Vec<char>, i: usize) -> (r: Option<usize>)
    requires
        i <= s.len(),
    ensures
        match digits_at(s@, i as int) {
            Some(d) => r == Some(d as usize) && i < d <= s.len(),
            None => r is None,
        },
{
    let d = skip_digits(s, i);
    if d > i {
        Some(d)
    } else {
        None
    }
}

fn field_at_exec(s: &Vec<char>, i: usize, lit: &str, unit: &str) -> (r: Option<(usize, usize)>)
    requires
        i <= s.len(),
    ensures
        match field_at(s@, i as int, lit@, unit@) {
            Some((a, d)) => r == Some((a as usize, d as usize)) && i <= a < d && d + unit@.len()
                <= s.len(),
            None => r is None,
        },
{
    if !lit_at(s, i, lit) {
        return None;
    }
    let n = chars_of(lit).len();
    match digits_at_exec(s, i + n) {
        Some(d) => {
            if lit_at(s, d, unit) {
                Some((i + n, d))
            } else {
                None
            }
        },
        None => None,
    }
}

fn optional_uid_exec(s: &Vec<char>, i: usize, lit: &str, space_after: bool) -> (r: Option<(usize, usize)>)
    requires
        i <= s.len(),
    ensures
        match optional_uid(s@, i as int, lit@, space_after) {
            Some((a, d)) => r == Some((a as usize, d as usize)) && i < a < d <= s.len(),
            None => r is None,
        },
{
    if i < s.len() && s[i] == ',' {
        let u = skip_space(s, i + 1);
        if lit_at(s, u, lit) {
            let n = chars_of(lit).len();
            let v = if space_after {
                skip_space(s, u + n)
            } else {
                u + n
            };
            return match digits_at_exec(s, v) {
                Some(d) => Some((v, d)),
                None => None,
            };
        }
    }
    None
}

fn kill_message_exec(s: &Vec<char>) -> (r: Option<(bool, usize)>)
    ensures
        match kill_message(s@) {
            Some((memcg, h)) => r == Some((memcg, h as usize)) && h <= s.len(),
            None => r is None,
        },
{
    proof {
        reveal_strlit("Memory cgroup ");
        reveal_strlit("Out of memory");
        reveal_strlit(" (oom_kill_allocating_task):");
        reveal_strlit(":");
    }
    let memcg = lit_at_ascii_ci(s, 0, "Memory cgroup ");
    let m: usize = if memcg {
        14
    } else {
        0
    };
    if !lit_at_ascii_ci(s, m, "Out of memory") {
        None
    } else if lit_at_ascii_ci(s, m + 13, " (oom_kill_allocating_task):") {
        Some((memcg, m + 41))
    } else if lit_at_ascii_ci(s, m + 13, ":") {
        Some((memcg, m + 14))
    } else {
        None
    }
}

fn victim_at_exec(s: &Vec<char>, h: usize) -> (r: Option<((usize, usize), (usize, usize))>)
    requires
        h <= s.len(),
    ensures
        match victim_at(s@, h as int) {
            Some(((a, d), (b, e))) => r == Some(((a as usize, d as usize), (b as usize, e as usize)))
                && h < a < d < b < e < s.len(),
            None => r is None,
        },
{
    proof {
        reveal_strlit("Killed process");
    }
    let k = skip_space(s, h);
    if !lit_at(s, k, "Killed process") {
        return None;
    }
    let w = skip_space(s, k + 14);
    match digits_at_exec(s, w) {
        Some(d) => {
            if w > k + 14 {
                let n = skip_space(s, d);
                if n < s.len() && s[n] == '(' {
                    let mut ne = n + 1;
                    while ne < s.len() && s[ne] != ')'
                        invariant
                            n + 1 <= ne <= s.len(),
                            next_index_of(s@, ne as int, ')') == next_index_of(s@, n + 1, ')'),
                        decreases s.len() - ne,
                    {
                        ne = ne + 1;
                    }
                    if n + 1 < ne && ne < s.len() {
                        return Some(((w, d), (n + 1, ne)));
                    }
                }
            }
            None
        },
        None => None,
    }
}

fn memory_fields_exec(s: &Vec<char>, i: usize) -> (r: Option<
    ((usize, usize), (usize, usize), (usize, usize), (usize, usize), Option<(usize, usize)>, usize),
>)
    requires
        i <= s.len(),
    ensures
        match memory_fields(s@, i as int) {
            Some((vm, anon, file, shmem, uid2, rest)) => {
                &&& r matches Some((rvm, ranon, rfile, rshmem, ruid2, rrest))
                &&& pair_int(rvm) == vm && pair_int(ranon) == anon && pair_int(rfile) == file
                &&& pair_int(rshmem) == shmem && opt_pair_int(ruid2) == uid2 && rrest == rest
                &&& pair_within(rvm, s@.len()) && pair_within(ranon, s@.len())
                &&& pair_within(rfile, s@.len()) && pair_within(rshmem, s@.len())
                &&& opt_pair_within(ruid2, s@.len()) && rrest <= s.len()
            },
            None => r is None,
        },
{
    proof {
        reveal_strlit("kB,");
        reveal_strlit("kB");
    }
    let x = skip_comma_or_space(s, i);
    let vm = match field_at_exec(s, x, "total-vm:", "kB,") {
        Some(f) => f,
        None => return None,
    };
    let anon = match field_at_exec(s, skip_space(s, vm.1 + 3), "anon-rss:", "kB,") {
        Some(f) => f,
        None => return None,
    };
    let file = match field_at_exec(s, skip_space(s, anon.1 + 3), "file-rss:", "kB,") {
        Some(f) => f,
        None => return None,
    };
    let shmem = match field_at_exec(s, skip_space(s, file.1 + 3), "shmem-rss:", "kB") {
        Some(f) => f,
        None => return None,
    };
    let uid2 = optional_uid_exec(s, shmem.1 + 2, "UID:", false);
    let rest = match uid2 {
        Some((_a, d)) => d,
        None => shmem.1 + 2,
    };
    Some((vm, anon, file, shmem, uid2, rest))
}

fn score_fields_exec(s: &Vec<char>, i: usize) -> (r: Option<((usize, usize), (usize, usize))>)
    requires
        i <= s.len(),
    ensures
        match score_fields(s@, i as int) {
            Some((pgt, adj)) => {
                &&& r matches Some((rp, ra))
                &&& pair_int(rp) == pgt && pair_int(ra) == adj
                &&& pair_within(rp, s@.len()) && pair_within(ra, s@.len())
            },
            None => r is None,
        },
{
    proof {
        reveal_strlit("kB");
        reveal_strlit("oom_score_adj:");
    }
    let pgt = match field_at_exec(s, skip_space(s, i), "pgtables:", "kB") {
        Some(f) => f,
        None => return None,
    };
    let a = skip_space(s, pgt.1 + 2);
    if !lit_at(s, a, "oom_score_adj:") {
        return None;
    }
    let v = a + 14;
    if v < s.len() && s[v] == '-' {
        match digits_at_exec(s, v + 1) {
            Some(d) => Some((pgt, (v, d))),
            None => None,
        }
    } else {
        match digits_at_exec(s, v) {
            Some(d) => Some((pgt, (v, d))),
            None => None,
        }
    }
}

fn kill_exec(s: &Vec<char>) -> (r: Option<KillBounds>)
    ensures
        match kill_spec(s@) {
            Some(f) => r matches Some(b) && b.fields() == f && b.within(s@.len()),
            None => r is None,
        },
{
    let (memcg, h) = match kill_message_exec(s) {
        Some(m) => m,
        None => return None,
    };
    let (pid, name) = match victim_at_exec(s, h) {
        Some(v) => v,
        None => return None,
    };
    let uid1 = optional_uid_exec(s, name.1 + 1, "UID", true);
    let after = match uid1 {
        Some((_a, d)) => d,
        None => name.1 + 1,
    };
    let (vm, anon, file, shmem, uid2, rest) = match memory_fields_exec(s, after) {
        Some(m) => m,
        None => return None,
    };
    let (pgtables, adj) = match score_fields_exec(s, rest) {
        Some(f) => f,
        None => return None,
    };
    Some(KillBounds { memcg, pid, name, uid1, vm, anon, file, shmem, uid2, pgtables, adj })
}

fn reaper_exec(s: &Vec<char>) -> (r: Option<(usize, usize)>)
    ensures
        match reaper_spec(s@) {
            Some((b, d)) => r == Some((b as usize, d as usize)) && b < d <= s.len(),
            None => r is None,
        },
{
    proof {
        reveal_strlit("oom_reaper:");
        reveal_strlit("reaped process");
    }
    if !lit_at(s, 0, "oom_reaper:") {
        return None;
    }
    let a = skip_space(s, 11);
    if !lit_at(s, a, "reaped process") {
        return None;
    }
    let b = skip_space(s, a + 14);
    match digits_at_exec(s, b) {
        Some(d) => {
            if b > a + 14 {
                let c = skip_space(s, d);
                if c < s.len() && s[c] == '(' {
                    let mut e = c + 1;
                    while e < s.len() && s[e] != ')'
                        invariant
                            c + 1 <= e <= s.len(),
                            next_index_of(s@, e as int, ')') == next_index_of(s@, c + 1, ')'),
                        decreases s.len() - e,
                    {
                        e = e + 1;
                    }
                    if c + 1 < e && e < s.len() {
                        return Some((b, d));
                    }
                }
            }
            None
        },
        None => None,
    }
}

// ---------------------------------------------------------------------------
// Reassembling events

/// The part of a line after its prefix, with white space trimmed.
pub open spec fn line_body(line: Seq<char>) -> Seq<char> {
    trim(line.subrange(strip_prefix_spec(line).1, line.len() as int))
}

pub open spec fn part(s: Seq<char>, p: (int, int)) -> Seq<char> {
    s.subrange(p.0, p.1)
}

pub open spec fn u32_or_zero(o: Option<u32>) -> u32 {
    match o {
        Some(v) => v,
        None => 0,
    }
}

/// A trigger line's process (trimmed), allocation mask and order.
pub open spec fn trigger_value(body: Seq<char>) -> Option<(Seq<char>, Seq<char>, u32)> {
    match trigger_spec(body) {
        Some((p, g, k, o1, o2)) => Some(
            (trim(body.take(p)), body.subrange(g, k), u32_or_zero(parse_u32_spec(body.subrange(o1, o2)))),
        ),
        None => None,
    }
}

/// A constraint line's constraint, the victim's cgroup, and the limit cgroup.
pub open spec fn constraint_value(body: Seq<char>) -> Option<(Seq<char>, Seq<char>, Option<Seq<char>>)> {
    match constraint_spec(body) {
        Some((c0, k, m, j, lim)) => Some(
            (
                body.subrange(c0, k),
                body.subrange(m, j),
                match lim {
                    Some(l) => Some(part(body, l)),
                    None => None,
                },
            ),
        ),
        None => None,
    }
}

/// A kill line's victim PID; a PID that does not fit is read as 0.
pub open spec fn kill_pid(body: Seq<char>, f: KillFields) -> u32 {
    u32_or_zero(parse_u32_spec(part(body, f.pid)))
}

/// The index of the reaper line for `pid_text` among `lines[j..end]`; the
/// search gives up at the next trigger line.
pub open spec fn reaper_scan(lines: Seq<Seq<char>>, j: int, end: int, pid_text: Seq<char>) -> Option<int>
    decreases end - j,
{
    if j < 0 || j >= end || j >= lines.len() {
        None
    } else {
        let b = line_body(lines[j]);
        match reaper_spec(b) {
            Some(r) => if part(b, r) == pid_text {
                Some(j)
            } else if trigger_spec(b) is Some {
                None
            } else {
                reaper_scan(lines, j + 1, end, pid_text)
            },
            None => if trigger_spec(b) is Some {
                None
            } else {
                reaper_scan(lines, j + 1, end, pid_text)
            },
        }
    }
}

/// The event a kill line makes, with the pending trigger and constraint
/// context, its raw lines, and whether the reaper confirmed it.
pub open spec fn kill_event(
    body: Seq<char>,
    f: KillFields,
    timestamp: Option<Seq<char>>,
    trigger: Option<(Seq<char>, Seq<char>, u32)>,
    constraint: Option<(Seq<char>, Seq<char>, Option<Seq<char>>)>,
    raw: Seq<Seq<char>>,
    reaped: bool,
    processes: Seq<ProcessView>,
    mem: Option<MemInfo>,
) -> EventView {
    EventView {
        timestamp,
        occurred_at: None,
        trigger_process: match trigger {
            Some(t) => Some(t.0),
            None => None,
        },
        gfp_mask: match trigger {
            Some(t) => Some(t.1),
            None => None,
        },
        order: match trigger {
            Some(t) => Some(t.2),
            None => None,
        },
        constraint: match constraint {
            Some(c) => Some(c.0),
            None => None,
        },
        cgroup: match constraint {
            Some(c) => Some(c.1),
            None => None,
        },
        limit_cgroup: match constraint {
            Some(c) => c.2,
            None => None,
        },
        memcg_kill: f.memcg || (constraint matches Some(c) && c.0 == "CONSTRAINT_MEMCG"@),
        victim_name: part(body, f.name),
        victim_pid: kill_pid(body, f),
        uid: match f.uid1 {
            Some(u) => parse_u32_spec(part(body, u)),
            None => match f.uid2 {
                Some(u) => parse_u32_spec(part(body, u)),
                None => None,
            },
        },
        total_vm_kb: parse_u64_spec(part(body, f.vm)),
        anon_rss_kb: parse_u64_spec(part(body, f.anon)),
        file_rss_kb: parse_u64_spec(part(body, f.file)),
        shmem_rss_kb: parse_u64_spec(part(body, f.shmem)),
        pgtables_kb: parse_u64_spec(part(body, f.pgtables)),
        oom_score_adj: parse_i32_spec(part(body, f.adj)),
        reaped,
        processes,
        mem,
        raw_lines: raw,
    }
}

/// What the parser carries from line to line.
pub struct ParseState {
    /// The events reconstructed so far.
    pub events: Seq<EventView>,
    /// The last trigger line not yet consumed by a kill.
    pub trigger: Option<(Seq<char>, Seq<char>, u32)>,
    /// The last constraint line not yet consumed by a kill.
    pub constraint: Option<(Seq<char>, Seq<char>, Option<Seq<char>>)>,
    /// The raw lines gathered for the next event.
    pub raw: Seq<Seq<char>>,
    /// The process table and memory figures of the report being read.
    pub table: TableState,
}

/// At most this many context lines are kept for one event, so that unrelated
/// log spam does not pile up forever.
pub const MAX_PENDING_LINES: usize = 200;

/// How far ahead of a kill line the reaper confirmation is looked for.
pub const REAPER_LOOKAHEAD: usize = 20;

/// The parser's state after reading line `i` of `lines`.
pub open spec fn step(st: ParseState, lines: Seq<Seq<char>>, i: int) -> ParseState {
    let line = lines[i];
    let ts = strip_prefix_spec(line).0;
    let body = line_body(line);
    if body.len() == 0 {
        st
    } else {
        match trigger_value(body) {
            Some(t) => ParseState { trigger: Some(t), raw: st.raw.push(line), table: empty_table(), ..st },
            None => match constraint_value(body) {
                Some(c) => ParseState { constraint: Some(c), raw: st.raw.push(line), ..st },
                None => match kill_spec(body) {
                    Some(f) => {
                        let raw1 = st.raw.push(line);
                        let reap = reaper_scan(
                            lines,
                            i + 1,
                            i + 1 + REAPER_LOOKAHEAD,
                            decimal(kill_pid(body, f) as nat),
                        );
                        let raw2 = match reap {
                            Some(j) => raw1.push(lines[j]),
                            None => raw1,
                        };
                        let ev = kill_event(
                            body,
                            f,
                            ts,
                            st.trigger,
                            st.constraint,
                            raw2,
                            reap is Some,
                            st.table.processes,
                            recorded_mem(st.table.mem),
                        );
                        ParseState {
                            events: st.events.push(ev),
                            trigger: None,
                            constraint: None,
                            raw: Seq::empty(),
                            table: empty_table(),
                        }
                    },
                    None => {
                        let st1 = ParseState { table: table_step(st.table, body), ..st };
                        if (st.trigger is Some || st.constraint is Some) && st.raw.len() < MAX_PENDING_LINES {
                            ParseState { raw: st.raw.push(line), ..st1 }
                        } else {
                            st1
                        }
                    },
                },
            },
        }
    }
}

pub open spec fn initial_state() -> ParseState {
    ParseState {
        events: Seq::empty(),
        trigger: None,
        constraint: None,
        raw: Seq::empty(),
        table: empty_table(),
    }
}

/// The parser's state after the first `n` lines.
pub open spec fn run(lines: Seq<Seq<char>>, n: int) -> ParseState
    decreases n,
{
    if n <= 0 {
        initial_state()
    } else {
        step(run(lines, n - 1), lines, n - 1)
    }
}

/// The events reconstructed from a whole log, in the order of their kill lines.
pub open spec fn parse_log_spec(text: Seq<char>) -> Seq<EventView> {
    run(lines(text), lines(text).len() as int).events
}

/// The lines of `text`, as character vectors.
fn split_into_lines(text: &str) -> (ls: Vec<Vec<char>>)
    ensures
        ls@.len() == lines(text@).len(),
        forall|k: int| 0 <= k < ls@.len() ==> (#[trigger] ls@[k])@ == lines(text@)[k],
{
    let chars = chars_of(text);
    let bounds = line_bounds(&chars);
    let mut ls: Vec<Vec<char>> = Vec::new();
    let mut k: usize = 0;
    while k < bounds.len()
        invariant
            k <= bounds.len(),
            chars@ == text@,
            bounds@.len() == lines(chars@).len(),
            forall|j: int|
                0 <= j < bounds@.len() ==> {
                    &&& (#[trigger] bounds@[j]).0 <= bounds@[j].1 <= chars@.len()
                    &&& chars@.subrange(bounds@[j].0 as int, bounds@[j].1 as int) == lines(chars@)[j]
                },
            ls@.len() == k,
            forall|j: int| 0 <= j < k ==> (#[trigger] ls@[j])@ == lines(text@)[j],
        decreases bounds.len() - k,
    {
        let (a, b) = bounds[k];
        ls.push(sub_vec(&chars, a, b));
        k = k + 1;
    }
    ls
}

/// A line's timestamp and its trimmed body.
fn analyse_line(line: &Vec<char>) -> (r: (Option<String>, Vec<char>))
    ensures
        opt_view(r.0) == strip_prefix_spec(line@).0,
        r.1@ == line_body(line@),
{
    let (ts, rest) = strip_prefix_chars(line);
    let (a, b) = trim_bounds(line, rest, line.len());
    (ts, sub_vec(line, a, b))
}

/// The pending context of a constraint line.
pub struct PendingConstraint {
    pub constraint: String,
    pub cgroup: String,
    pub limit: Option<String>,
    /// The constraint is `CONSTRAINT_MEMCG`.
    pub memcg: bool,
}

pub open spec fn trigger_view(t: Option<(String, String, u32)>) -> Option<(Seq<char>, Seq<char>, u32)> {
    match t {
        Some(t) => Some((t.0@, t.1@, t.2)),
        None => None,
    }
}

pub open spec fn constraint_view(c: Option<PendingConstraint>) -> Option<(Seq<char>, Seq<char>, Option<Seq<char>>)> {
    match c {
        Some(c) => Some((c.constraint@, c.cgroup@, opt_view(c.limit))),
        None => None,
    }
}

pub open spec fn constraint_wf(c: Option<PendingConstraint>) -> bool {
    c matches Some(c) ==> (c.memcg == (c.constraint@ == "CONSTRAINT_MEMCG"@))
}

fn trigger_value_exec(body: &Vec<char>) -> (r: Option<(String, String, u32)>)
    ensures
        trigger_view(r) == trigger_value(body@),
{
    match trigger_exec(body) {
        Some((p, g, k, o1, o2)) => {
            let (a, b) = trim_bounds(body, 0, p);
            assert(body@.subrange(0, p as int) =~= body@.take(p as int));
            let order = match parse_u32(body, o1, o2) {
                Some(v) => v,
                None => 0,
            };
            Some((string_of(body, a, b), string_of(body, g, k), order))
        },
        None => None,
    }
}

fn constraint_value_exec(body: &Vec<char>) -> (r: Option<PendingConstraint>)
    ensures
        constraint_view(r) == constraint_value(body@),
        constraint_wf(r),
{
    let ghost spec_r = constraint_spec(body@);
    match constraint_exec(body) {
        Some((c0, k, m, j, lim)) => {
            let n = char_len("CONSTRAINT_MEMCG");
            let memcg = k - c0 == n && lit_at(body, c0, "CONSTRAINT_MEMCG");
            proof {
                if memcg {
                    assert(body@.subrange(c0 as int, k as int) =~= "CONSTRAINT_MEMCG"@);
                } else if k - c0 == n {
                    assert(!has_at(body@, c0 as int, "CONSTRAINT_MEMCG"@));
                }
            }
            let limit = match lim {
                Some((a, b)) => {
                    proof {
                        let (_c0, _k, _m, _j, l) = spec_r.unwrap();
                        let (la, lb) = l.unwrap();
                        assert(a == la && b == lb);
                    }
                    Some(string_of(body, a, b))
                },
                None => None,
            };
            Some(
                PendingConstraint {
                    constraint: string_of(body, c0, k),
                    cgroup: string_of(body, m, j),
                    limit,
                    memcg,
                },
            )
        },
        None => None,
    }
}

/// The index of the reaper line for `pid_text` among `lines[j..end]`.
fn reaper_scan_exec(lines: &Vec<Vec<char>>, j: usize, end: usize, pid_text: &Vec<char>) -> (r: Option<usize>)
    ensures
        match reaper_scan(lines@.map_values(|l: Vec<char>| l@), j as int, end as int, pid_text@) {
            Some(k) => r == Some(k as usize) && j <= k < end && k < lines@.len(),
            None => r is None,
        },
{
    let ghost ls = lines@.map_values(|l: Vec<char>| l@);
    let mut k = j;
    while k < end && k < lines.len()
        invariant
            j <= k,
            ls == lines@.map_values(|l: Vec<char>| l@),
            reaper_scan(ls, k as int, end as int, pid_text@) == reaper_scan(ls, j as int, end as int, pid_text@),
        decreases end - k,
    {
        let (_ts, b) = analyse_line(&lines[k]);
        assert(ls[k as int] == lines@[k as int]@);
        if let Some((x, y)) = reaper_exec(&b) {
            let same = y - x == pid_text.len() && region_equals(&b, x, pid_text);
            proof {
                if same {
                    assert(b@.subrange(x as int, y as int) =~= pid_text@);
                } else if y - x == pid_text.len() {
                    assert(!(b@.subrange(x as int, y as int) =~= pid_text@));
                }
            }
            if same {
                return Some(k);
            }
        }
        if trigger_exec(&b).is_some() {
            return None;
        }
        k = k + 1;
    }
    None
}

/// Whether `t` occurs in `s` at index `i`.
fn region_equals(s: &Vec<char>, i: usize, t: &Vec<char>) -> (b: bool)
    requires
        i <= s.len(),
    ensures
        b == (i + t@.len() <= s.len() && s@.subrange(i as int, i + t@.len()) == t@),
{
    if t.len() > s.len() - i {
        return false;
    }
    let mut k: usize = 0;
    while k < t.len()
        invariant
            k <= t.len(),
            i + t.len() <= s.len(),
            forall|j: int| 0 <= j < k ==> #[trigger] s@[i + j] == t@[j],
        decreases t.len() - k,
    {
        if s[i + k] != t[k] {
            proof {
                if s@.subrange(i as int, i + t@.len()) == t@ {
                    assert(s@.subrange(i as int, i + t@.len())[k as int] == s@[i + k]);
                }
            }
            return false;
        }
        k = k + 1;
    }
    assert forall|j: int| 0 <= j < t@.len() implies #[trigger] s@.subrange(i as int, i + t@.len())[j] == t@[j] by {
        assert(s@[i + j] == t@[j]);
    }
    assert(s@.subrange(i as int, i + t@.len()) =~= t@);
    true
}

fn parse_field_u64(body: &Vec<char>, p: (usize, usize)) -> (r: Option<u64>)
    requires
        pair_within(p, body@.len()),
    ensures
        r == parse_u64_spec(part(body@, pair_int(p))),
{
    parse_u64(body, p.0, p.1)
}

fn parse_field_u32(body: &Vec<char>, p: (usize, usize)) -> (r: Option<u32>)
    requires
        pair_within(p, body@.len()),
    ensures
        r == parse_u32_spec(part(body@, pair_int(p))),
{
    parse_u32(body, p.0, p.1)
}

/// The event a kill line makes; see [`kill_event`].
fn build_event(
    body: &Vec<char>,
    f: &KillBounds,
    timestamp: Option<String>,
    trigger: Option<(String, String, u32)>,
    constraint: Option<PendingConstraint>,
    raw: Vec<String>,
    reaped: bool,
    processes: Vec<ProcessEntry>,
    mem: Option<MemInfo>,
) -> (e: OomEvent)
    requires
        f.within(body@.len()),
        constraint_wf(constraint),
    ensures
        e@ == kill_event(
            body@,
            f.fields(),
            opt_view(timestamp),
            trigger_view(trigger),
            constraint_view(constraint),
            strings_view(raw@),
            reaped,
            processes_view(processes@),
            mem,
        ),
{
    let (trigger_process, gfp_mask, order) = match trigger {
        Some((p, g, o)) => (Some(p), Some(g), Some(o)),
        None => (None, None, None),
    };
    let (cons, cgroup, limit_cgroup, memcg_constraint) = match constraint {
        Some(c) => (Some(c.constraint), Some(c.cgroup), c.limit, c.memcg),
        None => (None, None, None, false),
    };
    let uid = match f.uid1 {
        Some(u) => parse_field_u32(body, u),
        None => match f.uid2 {
            Some(u) => parse_field_u32(body, u),
            None => None,
        },
    };
    let victim_pid = match parse_field_u32(body, f.pid) {
        Some(v) => v,
        None => 0,
    };
    let e = OomEvent {
        timestamp,
        occurred_at: None,
        trigger_process,
        gfp_mask,
        order,
        constraint: cons,
        cgroup,
        limit_cgroup,
        memcg_kill: f.memcg || memcg_constraint,
        victim_name: string_of(body, f.name.0, f.name.1),
        victim_pid,
        uid,
        total_vm_kb: parse_field_u64(body, f.vm),
        anon_rss_kb: parse_field_u64(body, f.anon),
        file_rss_kb: parse_field_u64(body, f.file),
        shmem_rss_kb: parse_field_u64(body, f.shmem),
        pgtables_kb: parse_field_u64(body, f.pgtables),
        oom_score_adj: match parse_i32(body, f.adj.0, f.adj.1) {
            Some(v) => Some(v),
            None => None,
        },
        reaped,
        processes,
        mem,
        raw_lines: raw,
    };
    e
}


/// A reaper search that runs past the last line stops there.
proof fn lemma_reaper_scan_clip(lines: Seq<Seq<char>>, j: int, end: int, pid_text: Seq<char>)
    requires
        0 <= j,
        lines.len() <= end,
    ensures
        reaper_scan(lines, j, end, pid_text) == reaper_scan(lines, j, lines.len() as int, pid_text),
    decreases lines.len() - j,
{
    if j < lines.len() {
        lemma_reaper_scan_clip(lines, j + 1, end, pid_text);
    }
}

/// Appends a copy of `line` to `raw`.
fn push_line(raw: &mut Vec<String>, line: &Vec<char>)
    ensures
        strings_view(final(raw)@) == strings_view(old(raw)@).push(line@),
{
    let s = string_of_all(line);
    raw.push(s);
    assert(strings_view(raw@) =~= strings_view(old(raw)@).push(line@));
}


pub open spec fn columns_view(c: Option<usize>) -> Option<nat> {
    match c {
        Some(n) => Some(n as nat),
        None => None,
    }
}

fn push_process(v: &mut Vec<ProcessEntry>, p: ProcessEntry)
    ensures
        processes_view(final(v)@) == processes_view(old(v)@).push(p@),
{
    v.push(p);
    assert(processes_view(v@) =~= processes_view(old(v)@).push(p@));
}

fn recorded_mem_exec(m: MemInfo) -> (r: Option<MemInfo>)
    ensures
        r == recorded_mem(m),
{
    if m.total_ram_kb.is_some() || m.swap_total_kb.is_some() || m.swap_free_kb.is_some() {
        Some(m)
    } else {
        None
    }
}


pub open spec fn table_view(columns: Option<usize>, procs: Seq<ProcessEntry>, mem: MemInfo) -> TableState {
    TableState { columns: columns_view(columns), processes: processes_view(procs), mem }
}

/// Reads a line that is neither a trigger, a constraint nor a kill into the
/// pending process table and memory figures.
fn table_line(columns: &mut Option<usize>, procs: &mut Vec<ProcessEntry>, mem: &mut MemInfo, body: &Vec<char>)
    ensures
        table_view(*final(columns), final(procs)@, *final(mem)) == table_step(
            table_view(*old(columns), old(procs)@, *old(mem)),
            body@,
        ),
{
    let ghost t0 = table_view(*columns, procs@, *mem);
    match crate::tasks::header_columns_exec(body) {
        Some(c) => {
            *columns = Some(c);
            *procs = Vec::new();
            assert(processes_view(procs@) =~= Seq::<ProcessView>::empty());
            assert(table_view(*columns, procs@, *mem) == table_step(t0, body@));
        },
        None => {
            let row = match *columns {
                Some(c) => crate::tasks::task_row_exec(body, c),
                None => None,
            };
            proof {
                assert(row is Some == (match t0.columns {
                    Some(c) => crate::tasks::task_row(body@, c),
                    None => None,
                }) is Some);
            }
            match row {
                Some(p) => {
                    push_process(procs, p);
                    assert(table_view(*columns, procs@, *mem) == table_step(t0, body@));
                },
                None => {
                    *mem = crate::tasks::mem_update_exec(*mem, body);
                    assert(table_view(*columns, procs@, *mem) == table_step(t0, body@));
                },
            }
        },
    }
}

/// What the parser carries from line to line, besides the events.
struct Pending {
    trigger: Option<(String, String, u32)>,
    constraint: Option<PendingConstraint>,
    raw: Vec<String>,
    columns: Option<usize>,
    procs: Vec<ProcessEntry>,
    mem: MemInfo,
}

spec fn state_of(events: Seq<OomEvent>, p: Pending) -> ParseState {
    ParseState {
        events: events_view(events),
        trigger: trigger_view(p.trigger),
        constraint: constraint_view(p.constraint),
        raw: strings_view(p.raw@),
        table: table_view(p.columns, p.procs@, p.mem),
    }
}

spec fn lines_view(lvec: Seq<Vec<char>>) -> Seq<Seq<char>> {
    lvec.map_values(|l: Vec<char>| l@)
}

/// Reads kill line `i`, whose timestamp and body are given: the event it
/// makes, with the pending context and the reaper's confirmation.
fn read_kill(
    events: &mut Vec<OomEvent>,
    p: &mut Pending,
    lvec: &Vec<Vec<char>>,
    i: usize,
    ts: Option<String>,
    body: &Vec<char>,
    f: KillBounds,
)
    requires
        i < lvec.len(),
        constraint_wf(old(p).constraint),
        f.within(body@.len()),
        Some(f.fields()) == kill_spec(body@),
        body@ == line_body(lvec@[i as int]@),
        opt_view(ts) == strip_prefix_spec(lvec@[i as int]@).0,
    ensures
        constraint_wf(final(p).constraint),
        ({
            let ls = lines_view(lvec@);
            let st = state_of(old(events)@, *old(p));
            let line = ls[i as int];
            let raw1 = st.raw.push(line);
            let reap = reaper_scan(ls, i + 1, i + 1 + REAPER_LOOKAHEAD, decimal(kill_pid(body@, f.fields()) as nat));
            let raw2 = match reap {
                Some(j) => raw1.push(ls[j]),
                None => raw1,
            };
            let ev = kill_event(
                body@,
                f.fields(),
                opt_view(ts),
                st.trigger,
                st.constraint,
                raw2,
                reap is Some,
                st.table.processes,
                recorded_mem(st.table.mem),
            );
            state_of(final(events)@, *final(p)) == (ParseState {
                events: st.events.push(ev),
                trigger: None,
                constraint: None,
                raw: Seq::empty(),
                table: empty_table(),
            })
        }),
{
    let ghost ls = lines_view(lvec@);
    let ghost st = state_of(events@, *p);
    let line = &lvec[i];
    push_line(&mut p.raw, line);
    let pid = match parse_field_u32(body, f.pid) {
        Some(v) => v,
        None => 0,
    };
    let pid_string = decimal_string(pid as u64);
    let pid_text = chars_of(pid_string.as_str());
    let end = if lvec.len() - (i + 1) > REAPER_LOOKAHEAD {
        i + 1 + REAPER_LOOKAHEAD
    } else {
        lvec.len()
    };
    proof {
        assert(lvec@.map_values(|l: Vec<char>| l@) =~= ls);
        if end == lvec.len() {
            lemma_reaper_scan_clip(ls, i + 1, i + 1 + REAPER_LOOKAHEAD, pid_text@);
        }
    }
    let reap = reaper_scan_exec(lvec, i + 1, end, &pid_text);
    match reap {
        Some(j) => {
            assert(lvec@[j as int]@ == ls[j as int]);
            push_line(&mut p.raw, &lvec[j]);
        },
        None => {},
    }
    let t = p.trigger.take();
    let c = p.constraint.take();
    let mut collected: Vec<String> = Vec::new();
    std::mem::swap(&mut collected, &mut p.raw);
    let mut tasks: Vec<ProcessEntry> = Vec::new();
    std::mem::swap(&mut tasks, &mut p.procs);
    let recorded = recorded_mem_exec(p.mem);
    p.mem = MemInfo { total_ram_kb: None, swap_total_kb: None, swap_free_kb: None };
    p.columns = None;
    let ev = build_event(body, &f, ts, t, c, collected, reap.is_some(), tasks, recorded);
    let ghost before = events@;
    events.push(ev);
    proof {
        assert(events_view(events@) =~= events_view(before).push(ev@));
        assert(strings_view(p.raw@) =~= Seq::<Seq<char>>::empty());
        assert(processes_view(p.procs@) =~= Seq::<ProcessView>::empty());
    }
}

/// Reads line `i` of the log.
fn read_line(events: &mut Vec<OomEvent>, p: &mut Pending, lvec: &Vec<Vec<char>>, i: usize)
    requires
        i < lvec.len(),
        constraint_wf(old(p).constraint),
    ensures
        constraint_wf(final(p).constraint),
        state_of(final(events)@, *final(p)) == step(state_of(old(events)@, *old(p)), lines_view(lvec@), i as int),
{
    let ghost ls = lines_view(lvec@);
    let line = &lvec[i];
    assert(line@ == ls[i as int]);
    let (ts, body) = analyse_line(line);
    if body.len() == 0 {
        return;
    }
    match trigger_value_exec(&body) {
        Some(t) => {
            p.trigger = Some(t);
            push_line(&mut p.raw, line);
            p.columns = None;
            p.procs = Vec::new();
            p.mem = MemInfo { total_ram_kb: None, swap_total_kb: None, swap_free_kb: None };
            proof {
                assert(processes_view(p.procs@) =~= Seq::<ProcessView>::empty());
            }
        },
        None => match constraint_value_exec(&body) {
            Some(c) => {
                p.constraint = Some(c);
                push_line(&mut p.raw, line);
            },
            None => match kill_exec(&body) {
                Some(f) => {
                    read_kill(events, p, lvec, i, ts, &body, f);
                },
                None => {
                    let pending = p.trigger.is_some() || p.constraint.is_some();
                    table_line(&mut p.columns, &mut p.procs, &mut p.mem, &body);
                    if pending && p.raw.len() < MAX_PENDING_LINES {
                        push_line(&mut p.raw, line);
                    }
                },
            },
        },
    }
}

/// Reconstructs the OOM-kill events of a kernel log.
///
/// The kernel logs one event as several lines (trigger, constraint, the
/// process table and memory figures, kill, reaper confirmation); the context
/// is carried forward until the next kill line consumes it, a new trigger
/// starts a new report, and each event keeps the raw lines it was built from.
pub fn parse_log(text: &str) -> (events: Vec<OomEvent>)
    ensures
        events_view(events@) == parse_log_spec(text@),
{
    let lvec = split_into_lines(text);
    let ghost ls = lines(text@);
    proof {
        assert(lines_view(lvec@) =~= ls);
    }
    let mut events: Vec<OomEvent> = Vec::new();
    let mut p = Pending {
        trigger: None,
        constraint: None,
        raw: Vec::new(),
        columns: None,
        procs: Vec::new(),
        mem: MemInfo { total_ram_kb: None, swap_total_kb: None, swap_free_kb: None },
    };
    proof {
        assert(events_view(events@) =~= Seq::<EventView>::empty());
        assert(strings_view(p.raw@) =~= Seq::<Seq<char>>::empty());
        assert(processes_view(p.procs@) =~= Seq::<ProcessView>::empty());
        assert(state_of(events@, p) == run(ls, 0));
    }
    let mut i: usize = 0;
    while i < lvec.len()
        invariant
            i <= lvec.len(),
            ls == lines(text@),
            lines_view(lvec@) == ls,
            state_of(events@, p) == run(ls, i as int),
            constraint_wf(p.constraint),
        decreases lvec.len() - i,
    {
        read_line(&mut events, &mut p, &lvec, i);
        i = i + 1;
    }
    events
}

// ---------------------------------------------------------------------------
// What the reconstruction promises

/// Line `i` is a kill line: not blank, not a trigger or constraint line, and
/// a `Killed process` report.
pub open spec fn is_kill_line(lines: Seq<Seq<char>>, i: int) -> bool {
    let body = line_body(lines[i]);
    &&& body.len() > 0
    &&& trigger_value(body) is None
    &&& constraint_value(body) is None
    &&& kill_spec(body) is Some
}

/// How many of the first `n` lines are kill lines.
pub open spec fn kill_lines_before(lines: Seq<Seq<char>>, n: int) -> nat
    decreases n,
{
    if n <= 0 {
        0
    } else {
        kill_lines_before(lines, n - 1) + if is_kill_line(lines, n - 1) {
            1nat
        } else {
            0nat
        }
    }
}

/// Every line of the log is read once, and every kill line makes exactly one
/// event: after `n` lines there are as many events as kill lines among them.
pub proof fn lemma_one_event_per_kill_line(lines: Seq<Seq<char>>, n: int)
    requires
        0 <= n <= lines.len(),
    ensures
        run(lines, n).events.len() == kill_lines_before(lines, n),
    decreases n,
{
    if n > 0 {
        lemma_one_event_per_kill_line(lines, n - 1);
    }
}

proof fn lemma_reaper_scan_in_range(lines: Seq<Seq<char>>, j: int, end: int, pid_text: Seq<char>)
    ensures
        reaper_scan(lines, j, end, pid_text) matches Some(k) ==> j <= k < lines.len() && 0 <= k,
    decreases end - j,
{
    if 0 <= j < end && j < lines.len() {
        lemma_reaper_scan_in_range(lines, j + 1, end, pid_text);
    }
}

/// Line `m` is the reaper's confirmation for the process whose PID is spelled
/// `pid_text`.
pub open spec fn reaps_at(lines: Seq<Seq<char>>, m: int, pid_text: Seq<char>) -> bool {
    let b = line_body(lines[m]);
    reaper_spec(b) matches Some(r) && part(b, r) == pid_text
}

/// The reaper search, stated directly: it finds line `k` exactly when `k` is
/// the first line of `lines[j..end]` that confirms the reaping, and no line
/// before it starts a new report (`invoked oom-killer`).
pub proof fn lemma_reaper_scan_finds(lines: Seq<Seq<char>>, j: int, end: int, pid_text: Seq<char>, k: int)
    requires
        0 <= j,
    ensures
        reaper_scan(lines, j, end, pid_text) == Some(k) <==> {
            &&& j <= k < end
            &&& k < lines.len()
            &&& reaps_at(lines, k, pid_text)
            &&& forall|m: int| j <= m < k ==> !#[trigger] reaps_at(lines, m, pid_text) && trigger_spec(
                line_body(lines[m]),
            ) is None
        },
    decreases end - j,
{
    if j < end && j < lines.len() {
        lemma_reaper_scan_finds(lines, j + 1, end, pid_text, k);
        if reaps_at(lines, j, pid_text) {
            assert(reaper_scan(lines, j, end, pid_text) == Some(j));
        } else if trigger_spec(line_body(lines[j])) is Some {
            assert(reaper_scan(lines, j, end, pid_text) is None);
        } else {
            assert(reaper_scan(lines, j, end, pid_text) == reaper_scan(lines, j + 1, end, pid_text));
            if k > j {
                assert((forall|m: int| j <= m < k ==> !#[trigger] reaps_at(lines, m, pid_text) && trigger_spec(
                    line_body(lines[m]),
                ) is None) <==> (forall|m: int| j + 1 <= m < k ==> !#[trigger] reaps_at(lines, m, pid_text)
                    && trigger_spec(line_body(lines[m])) is None)) by {
                    if forall|m: int| j + 1 <= m < k ==> !#[trigger] reaps_at(lines, m, pid_text) && trigger_spec(
                        line_body(lines[m]),
                    ) is None {
                        assert forall|m: int| j <= m < k implies !#[trigger] reaps_at(lines, m, pid_text)
                            && trigger_spec(line_body(lines[m])) is None by {
                            if m > j {
                                assert(!reaps_at(lines, m, pid_text));
                            }
                        }
                    }
                }
            }
        }
    }
}

/// Line `j` confirms the reaping for the kill at line `i`: it is one of the
/// next twenty lines, it confirms the reaping of the PID spelled `pid_text`,
/// and no line between the two confirms it or starts a new report.
pub open spec fn confirms_reaping(lines: Seq<Seq<char>>, i: int, j: int, pid_text: Seq<char>) -> bool {
    &&& i < j <= i + REAPER_LOOKAHEAD
    &&& j < lines.len()
    &&& reaps_at(lines, j, pid_text)
    &&& forall|m: int| i < m < j ==> !#[trigger] reaps_at(lines, m, pid_text) && trigger_spec(
        line_body(lines[m]),
    ) is None
}

/// The events of the first `m` lines stay, unchanged and in order, as more
/// lines are read.
proof fn lemma_run_events_grow(lines: Seq<Seq<char>>, m: int, n: int)
    requires
        0 <= m <= n <= lines.len(),
    ensures
        run(lines, m).events.len() <= run(lines, n).events.len(),
        run(lines, n).events.take(run(lines, m).events.len() as int) == run(lines, m).events,
    decreases n - m,
{
    if m < n {
        lemma_run_events_grow(lines, m, n - 1);
        let a = run(lines, m).events;
        let b = run(lines, n - 1).events;
        let c = run(lines, n).events;
        assert(c == b || c == b.push(c.last()));
        assert(c.take(a.len() as int) =~= a);
    } else {
        assert(run(lines, n).events.take(run(lines, m).events.len() as int) =~= run(lines, m).events);
    }
}

/// Each kill line makes its own event, in the order of the log: the kill line
/// that comes after `n` others makes the event at index `n`, which names the
/// victim it names, holds the kill line among its raw lines (last, or just
/// before the reaper's line), and is reaped exactly when the reaper search
/// from the next line finds a confirmation.
pub proof fn lemma_each_kill_line_makes_its_event(text: Seq<char>, i: int)
    requires
        0 <= i < lines(text).len(),
        is_kill_line(lines(text), i),
    ensures
        ({
            let ls = lines(text);
            let n = kill_lines_before(ls, i) as int;
            let body = line_body(ls[i]);
            let f = kill_spec(body)->0;
            let reap = reaper_scan(ls, i + 1, i + 1 + REAPER_LOOKAHEAD, decimal(kill_pid(body, f) as nat));
            let e = parse_log_spec(text)[n];
            &&& n < parse_log_spec(text).len()
            &&& e.victim_pid == kill_pid(body, f)
            &&& e.victim_name == part(body, f.name)
            &&& e.reaped == (reap is Some)
            &&& match reap {
                Some(j) => e.raw_lines.len() >= 2 && e.raw_lines[e.raw_lines.len() - 2] == ls[i]
                    && e.raw_lines.last() == ls[j],
                None => e.raw_lines.len() >= 1 && e.raw_lines.last() == ls[i],
            }
        }),
{
    let ls = lines(text);
    lemma_one_event_per_kill_line(ls, i);
    lemma_run_events_grow(ls, i + 1, ls.len() as int);
    let before = run(ls, i).events;
    let after = run(ls, i + 1).events;
    assert(after.len() == before.len() + 1);
    assert(parse_log_spec(text)[before.len() as int] == after.take(after.len() as int)[before.len() as int]);
}

/// Everything the parser holds after `n` lines was read from the log.
pub open spec fn drawn_from_log(st: ParseState, lines: Seq<Seq<char>>) -> bool {
    &&& forall|k: int| 0 <= k < st.raw.len() ==> lines.contains(#[trigger] st.raw[k])
    &&& forall|i: int, k: int|
        0 <= i < st.events.len() && 0 <= k < st.events[i].raw_lines.len() ==> lines.contains(
            #[trigger] st.events[i].raw_lines[k],
        )
}

proof fn lemma_run_drawn_from_log(lines: Seq<Seq<char>>, n: int)
    requires
        0 <= n <= lines.len(),
    ensures
        drawn_from_log(run(lines, n), lines),
    decreases n,
{
    if n > 0 {
        lemma_run_drawn_from_log(lines, n - 1);
        let st = run(lines, n - 1);
        let i = n - 1;
        assert(lines.contains(lines[i]));
        let body = line_body(lines[i]);
        if body.len() > 0 && trigger_value(body) is None && constraint_value(body) is None {
            match kill_spec(body) {
                Some(f) => {
                    let reap = reaper_scan(lines, i + 1, i + 1 + REAPER_LOOKAHEAD, decimal(kill_pid(body, f) as nat));
                    lemma_reaper_scan_in_range(lines, i + 1, i + 1 + REAPER_LOOKAHEAD, decimal(kill_pid(body, f) as nat));
                    match reap {
                        Some(j) => {
                            assert(lines.contains(lines[j]));
                        },
                        None => {},
                    }
                },
                None => {},
            }
        }
    }
}

/// The raw evidence of every reconstructed event is made of lines of the
/// log itself, unmodified.
pub proof fn lemma_raw_lines_come_from_the_log(text: Seq<char>)
    ensures
        forall|i: int, k: int|
            0 <= i < parse_log_spec(text).len() && 0 <= k < parse_log_spec(text)[i].raw_lines.len()
                ==> lines(text).contains(#[trigger] parse_log_spec(text)[i].raw_lines[k]),
{
    lemma_run_drawn_from_log(lines(text), lines(text).len() as int);
}


/// `a` is `b` with some of its items left out: the items of `a` appear in `b`,
/// in the same order.
pub open spec fn in_order_within(a: Seq<Seq<char>>, b: Seq<Seq<char>>) -> bool
    decreases b.len(),
{
    if a.len() == 0 {
        true
    } else if b.len() == 0 {
        false
    } else {
        (a.last() == b.last() && in_order_within(a.drop_last(), b.drop_last())) || in_order_within(
            a,
            b.drop_last(),
        )
    }
}

proof fn lemma_in_order_push_both(a: Seq<Seq<char>>, b: Seq<Seq<char>>, x: Seq<char>)
    requires
        in_order_within(a, b),
    ensures
        in_order_within(a.push(x), b.push(x)),
{
    assert(a.push(x).drop_last() =~= a);
    assert(b.push(x).drop_last() =~= b);
}

proof fn lemma_in_order_extend(a: Seq<Seq<char>>, lines: Seq<Seq<char>>, m: int, k: int)
    requires
        0 <= m <= k <= lines.len(),
        in_order_within(a, lines.take(m)),
    ensures
        in_order_within(a, lines.take(k)),
    decreases k - m,
{
    if m < k {
        lemma_in_order_extend(a, lines, m, k - 1);
        assert(lines.take(k).drop_last() =~= lines.take(k - 1));
    }
}

/// What the parser holds after `n` lines keeps the log's order: the pending
/// lines are in order among the lines read, and each event's raw lines in
/// order among all the log's lines.
pub open spec fn kept_in_order(st: ParseState, lines: Seq<Seq<char>>, n: int) -> bool {
    &&& in_order_within(st.raw, lines.take(n))
    &&& forall|e: int| 0 <= e < st.events.len() ==> in_order_within(#[trigger] st.events[e].raw_lines, lines)
}

proof fn lemma_run_kept_in_order(lines: Seq<Seq<char>>, n: int)
    requires
        0 <= n <= lines.len(),
    ensures
        kept_in_order(run(lines, n), lines, n),
    decreases n,
{
    if n > 0 {
        lemma_run_kept_in_order(lines, n - 1);
        let st = run(lines, n - 1);
        let i = n - 1;
        let line = lines[i];
        assert(lines.take(n) =~= lines.take(i).push(line));
        lemma_in_order_push_both(st.raw, lines.take(i), line);
        lemma_in_order_extend(st.raw, lines, i, n);
        let body = line_body(line);
        if body.len() > 0 && trigger_value(body) is None && constraint_value(body) is None {
            match kill_spec(body) {
                Some(f) => {
                    let pid = decimal(kill_pid(body, f) as nat);
                    let reap = reaper_scan(lines, i + 1, i + 1 + REAPER_LOOKAHEAD, pid);
                    lemma_reaper_scan_in_range(lines, i + 1, i + 1 + REAPER_LOOKAHEAD, pid);
                    let raw1 = st.raw.push(line);
                    lemma_in_order_extend(raw1, lines, n, lines.len() as int);
                    match reap {
                        Some(j) => {
                            lemma_in_order_extend(raw1, lines, n, j);
                            assert(lines.take(j + 1) =~= lines.take(j).push(lines[j]));
                            lemma_in_order_push_both(raw1, lines.take(j), lines[j]);
                            lemma_in_order_extend(raw1.push(lines[j]), lines, j + 1, lines.len() as int);
                        },
                        None => {},
                    }
                    assert(lines.take(lines.len() as int) =~= lines);
                    let st2 = run(lines, n);
                    assert forall|e: int| 0 <= e < st2.events.len() implies in_order_within(
                        #[trigger] st2.events[e].raw_lines,
                        lines,
                    ) by {
                        if e < st.events.len() {
                            assert(st2.events[e] == st.events[e]);
                        }
                    }
                },
                None => {},
            }
        }
    }
}

/// The raw lines of each event keep the log's order: they are lines of the
/// log, taken in the order they were written.
pub proof fn lemma_raw_lines_keep_the_log_order(text: Seq<char>)
    ensures
        forall|e: int|
            0 <= e < parse_log_spec(text).len() ==> in_order_within(#[trigger] parse_log_spec(text)[e].raw_lines, lines(text)),
{
    lemma_run_kept_in_order(lines(text), lines(text).len() as int);
}

/// `p` is a task listed by a row of the log, under some table header.
pub open spec fn listed_in_log(lines: Seq<Seq<char>>, p: ProcessView) -> bool {
    exists|k: int, c: nat| 0 <= k < lines.len() && #[trigger] crate::tasks::task_row(line_body(lines[k]), c) == Some(p)
}

pub open spec fn tasks_listed(st: ParseState, lines: Seq<Seq<char>>) -> bool {
    &&& forall|k: int| 0 <= k < st.table.processes.len() ==> listed_in_log(lines, #[trigger] st.table.processes[k])
    &&& forall|i: int, k: int|
        0 <= i < st.events.len() && 0 <= k < st.events[i].processes.len() ==> listed_in_log(
            lines,
            #[trigger] st.events[i].processes[k],
        )
}

proof fn lemma_run_tasks_listed(lines: Seq<Seq<char>>, n: int)
    requires
        0 <= n <= lines.len(),
    ensures
        tasks_listed(run(lines, n), lines),
    decreases n,
{
    if n > 0 {
        lemma_run_tasks_listed(lines, n - 1);
        let st = run(lines, n - 1);
        let i = n - 1;
        let body = line_body(lines[i]);
        if body.len() > 0 && trigger_value(body) is None && constraint_value(body) is None && kill_spec(body) is None {
            if crate::tasks::header_columns(body) is None {
                match st.table.columns {
                    Some(c) => match crate::tasks::task_row(body, c) {
                        Some(p) => {
                            assert(listed_in_log(lines, p)) by {
                                assert(crate::tasks::task_row(line_body(lines[i]), c) == Some(p));
                            }
                        },
                        None => {},
                    },
                    None => {},
                }
            }
        }
    }
}

/// Nothing is invented about the machine's tasks: every task an event lists
/// is one that a row of the log's process table printed.
pub proof fn lemma_tasks_come_from_the_log(text: Seq<char>)
    ensures
        forall|i: int, k: int|
            0 <= i < parse_log_spec(text).len() && 0 <= k < parse_log_spec(text)[i].processes.len()
                ==> listed_in_log(lines(text), #[trigger] parse_log_spec(text)[i].processes[k]),
{
    lemma_run_tasks_listed(lines(text), lines(text).len() as int);
}

/// A trigger line starts a new report: whatever process table or memory
/// figures an earlier, unfinished report left behind are dropped.
pub proof fn lemma_trigger_starts_a_new_report(st: ParseState, lines: Seq<Seq<char>>, i: int)
    requires
        0 <= i < lines.len(),
        line_body(lines[i]).len() > 0,
        trigger_value(line_body(lines[i])) is Some,
    ensures
        step(st, lines, i).table == empty_table(),
        step(st, lines, i).events == st.events,
{
}

proof fn lemma_confirms_reaping(ls: Seq<Seq<char>>, i: int, pid_text: Seq<char>)
    requires
        0 <= i,
    ensures
        reaper_scan(ls, i + 1, i + 1 + REAPER_LOOKAHEAD, pid_text) matches Some(j) ==> confirms_reaping(
            ls,
            i,
            j,
            pid_text,
        ),
        forall|j: int| #[trigger] confirms_reaping(ls, i, j, pid_text) ==> reaper_scan(
            ls,
            i + 1,
            i + 1 + REAPER_LOOKAHEAD,
            pid_text,
        ) == Some(j),
{
    let end = i + 1 + REAPER_LOOKAHEAD;
    assert forall|j: int| #[trigger] confirms_reaping(ls, i, j, pid_text) implies reaper_scan(
        ls,
        i + 1,
        end,
        pid_text,
    ) == Some(j) by {
        lemma_reaper_scan_finds(ls, i + 1, end, pid_text, j);
    }
    if let Some(j) = reaper_scan(ls, i + 1, end, pid_text) {
        lemma_reaper_scan_finds(ls, i + 1, end, pid_text, j);
    }
}

/// The reaper law, in one statement: the event a kill line makes is reaped
/// exactly when one of the next twenty lines confirms the reaping of its
/// victim's PID with no new report (`invoked oom-killer`) before it; that
/// line is then the event's last raw line.
pub proof fn lemma_reaped_exactly_when_confirmed(text: Seq<char>, i: int)
    requires
        0 <= i < lines(text).len(),
        is_kill_line(lines(text), i),
    ensures
        ({
            let ls = lines(text);
            let e = parse_log_spec(text)[kill_lines_before(ls, i) as int];
            let pid_text = decimal(e.victim_pid as nat);
            &&& e.reaped <==> exists|j: int| #[trigger] confirms_reaping(ls, i, j, pid_text)
            &&& forall|j: int| #[trigger] confirms_reaping(ls, i, j, pid_text) ==> e.raw_lines.last() == ls[j]
        }),
{
    let ls = lines(text);
    lemma_each_kill_line_makes_its_event(text, i);
    let e = parse_log_spec(text)[kill_lines_before(ls, i) as int];
    let pid_text = decimal(e.victim_pid as nat);
    lemma_confirms_reaping(ls, i, pid_text);
}

/// `skip_while` stops at the first index from `i` on whose character fails
/// `p`.
proof fn lemma_skip_to(s: Seq<char>, i: int, j: int, p: spec_fn(char) -> bool)
    requires
        0 <= i <= j <= s.len(),
        forall|k: int| i <= k < j ==> p(#[trigger] s[k]),
        j == s.len() || !p(s[j]),
    ensures
        skip_while(s, i, p) == j,
    decreases j - i,
{
    if i < j {
        lemma_skip_to(s, i + 1, j, p);
    }
}

pub open spec fn is_ascii_letter(c: char) -> bool {
    ('a' <= c && c <= 'z') || ('A' <= c && c <= 'Z')
}

/// `clock` is a time of day as syslog writes it, `hh:mm:ss`.
pub open spec fn is_clock(clock: Seq<char>) -> bool {
    &&& clock.len() == 8
    &&& clock[2] == ':' && clock[5] == ':'
    &&& forall|k: int| 0 <= k < 8 && k != 2 && k != 5 ==> crate::text::is_ascii_digit(#[trigger] clock[k])
}

/// A traditional syslog line, `<Mon> <day> <hh:mm:ss> <host> kernel: <body>`,
/// is read whatever the width of its day of month (one digit after padding
/// spaces, as in `Jan  5`, or two digits): its timestamp is the month, day
/// and time as written, and what follows `kernel: ` is the line's body, so
/// the line makes the event its body makes.
pub proof fn lemma_syslog_lines_are_stripped(
    month: Seq<char>,
    pad: Seq<char>,
    day: Seq<char>,
    clock: Seq<char>,
    host: Seq<char>,
    body: Seq<char>,
)
    requires
        month.len() == 3,
        forall|k: int| 0 <= k < 3 ==> is_ascii_letter(#[trigger] month[k]),
        pad.len() >= 1,
        forall|k: int| 0 <= k < pad.len() ==> #[trigger] pad[k] == ' ',
        1 <= day.len() <= 2,
        forall|k: int| 0 <= k < day.len() ==> crate::text::is_ascii_digit(#[trigger] day[k]),
        is_clock(clock),
        host.len() >= 1,
        forall|k: int| 0 <= k < host.len() ==> !regex_space(#[trigger] host[k]),
        body.len() == 0 || (!regex_space(body[0]) && body[0] != '['),
    ensures
        ({
            let stamp = month + pad + day + " "@ + clock;
            let line = stamp + " "@ + host + " kernel: "@ + body;
            &&& strip_prefix_spec(line) == (Some(stamp), line.len() - body.len())
            &&& line_body(line) == trim(body)
        }),
{
    reveal_strlit(" ");
    reveal_strlit(" kernel: ");
    reveal_strlit("kernel:");
    let stamp = month + pad + day + " "@ + clock;
    let line = stamp + " "@ + host + " kernel: "@ + body;
    let a: int = 3 + pad.len() as int;
    let e: int = a + day.len();
    let t: int = e + 1;
    let h: int = t + 9;
    let he: int = h + host.len();
    let w: int = he + 1;
    let r: int = w + 8;
    assert(stamp.len() == t + 8);
    assert(line.len() == r + body.len());
    assert forall|k: int| 0 <= k < 3 implies line[k] == month[k] by {}
    assert forall|k: int| 3 <= k < a implies #[trigger] line[k] == ' ' by {
        assert(line[k] == pad[k - 3]);
    }
    assert forall|k: int| a <= k < e implies #[trigger] line[k] == day[k - a] by {}
    assert(line[e] == ' ');
    assert forall|k: int| 0 <= k < 8 implies #[trigger] line[t + k] == clock[k] by {}
    assert(line[t + 8] == ' ');
    assert forall|k: int| h <= k < he implies #[trigger] line[k] == host[k - h] by {}
    assert(line[he] == ' ');
    assert(line.subrange(w, w + 7) =~= "kernel:"@);
    assert(line[w + 7] == ' ');
    assert forall|k: int| 0 <= k < body.len() implies #[trigger] line[r + k] == body[k] by {}
    // the classes of the characters met on the way
    assert(regex_space(' '));
    assert(line[0] != '[');
    assert(uptime_bracket(line, 0) is None);
    assert(bracket_prefix(line) is None);
    assert(regex_word(line[0]) && regex_word(line[1]) && regex_word(line[2]));
    lemma_skip_to(line, 3, a, space_class());
    assert(regex_digit(line[a]));
    if day.len() == 2 {
        assert(regex_digit(line[a + 1]));
    } else {
        assert(!regex_digit(line[a + 1]));
    }
    lemma_skip_to(line, e, t, space_class());
    assert(clock_at(line, t)) by {
        assert(regex_digit(line[t]) && regex_digit(line[t + 1]));
        assert(regex_digit(line[t + 3]) && regex_digit(line[t + 4]));
        assert(regex_digit(line[t + 6]) && regex_digit(line[t + 7]));
    }
    assert(!regex_space(line[h]));
    lemma_skip_to(line, t + 8, h, space_class());
    lemma_skip_to(line, h, he, non_space_class());
    assert(line[w] == 'k');
    lemma_skip_to(line, he, w, space_class());
    assert(has_at(line, w, "kernel:"@));
    if body.len() > 0 {
        assert(line[r] == body[0]);
    }
    lemma_skip_to(line, w + 7, r, space_class());
    assert(syslog_prefix(line) == Some((t + 8, r)));
    if r < line.len() {
        assert(line[r] == body[0]);
    }
    assert(uptime_bracket(line, r) is None);
    assert(line.take(t + 8) =~= stamp);
    assert(line.subrange(r, line.len() as int) =~= body);
}

} // verus!
