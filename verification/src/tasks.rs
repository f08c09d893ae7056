//! The process table and the `Mem-Info` block that the kernel prints with an
//! OOM report.
//!
//! ```text
//! [  pid  ]   uid  tgid total_vm      rss pgtables_bytes swapents oom_score_adj name
//! [    312]     0   312    12345     1234    98304        0             0 systemd-journal
//! 2097152 pages RAM
//! Free swap  = 0kB
//! Total swap = 0kB
//! ```
//!
//! The header names the columns, which differ between kernel versions (older
//! kernels print `nr_ptes` and `nr_pmds`, newer ones `pgtables_bytes`, the
//! newest also `rss_anon`, `rss_file` and `rss_shmem`); every layout starts
//! with `uid tgid total_vm rss` and ends with `swapents oom_score_adj name`,
//! and a row has one number per column before the name. Sizes are printed in
//! pages and kept in KiB (4 KiB pages).

use vstd::prelude::*;
use crate::model::{MemInfo, ProcessEntry, ProcessView};
use crate::parser::{
    ascii_digit_class, lemma_skip_while, non_space_class, skip_ascii_digits, skip_non_space, skip_space,
    skip_while, space_class,
};
use crate::text::{
    has_at, lit_at, parse_i32, parse_i32_spec, parse_u32, parse_u32_spec, parse_u64, parse_u64_spec,
    string_of,
};

verus! {

/// The white-space separated words of `s[i..]`, as bounds.
pub open spec fn word_spans(s: Seq<char>, i: int) -> Seq<(int, int)>
    decreases s.len() - i,
{
    if i < 0 || i >= s.len() {
        Seq::empty()
    } else {
        let a = skip_while(s, i, space_class());
        if a >= s.len() {
            Seq::empty()
        } else {
            let b = skip_while(s, a, non_space_class());
            proof {
                lemma_skip_while(s, i, space_class());
                lemma_skip_while(s, a, non_space_class());
            }
            seq![(a, b)] + word_spans(s, b)
        }
    }
}

pub open spec fn word(s: Seq<char>, w: (int, int)) -> Seq<char> {
    s.subrange(w.0, w.1)
}

/// `[`, optional spaces, `lit`, optional spaces, `]` at the start of `s`: the
/// index after the `]`.
pub open spec fn bracketed(s: Seq<char>, lit: Seq<char>) -> Option<int> {
    if s.len() > 0 && s[0] == '[' {
        let a = skip_while(s, 1, space_class());
        if has_at(s, a, lit) {
            let c = skip_while(s, a + lit.len(), space_class());
            if c < s.len() && s[c] == ']' {
                Some(c + 1)
            } else {
                None
            }
        } else {
            None
        }
    } else {
        None
    }
}

/// A task table's header: the number of numeric columns before `name`.
pub open spec fn header_columns(s: Seq<char>) -> Option<nat> {
    match bracketed(s, "pid"@) {
        Some(h) => {
            let ws = word_spans(s, h);
            let n = ws.len();
            if n >= 7 && word(s, ws[0]) == "uid"@ && word(s, ws[1]) == "tgid"@ && word(s, ws[2])
                == "total_vm"@ && word(s, ws[3]) == "rss"@ && word(s, ws[n - 3]) == "swapents"@ && word(
                s,
                ws[n - 2],
            ) == "oom_score_adj"@ && word(s, ws[n - 1]) == "name"@ {
                Some((n - 1) as nat)
            } else {
                None
            }
        },
        None => None,
    }
}

/// `[`, optional spaces, digits, optional spaces, `]` at the start of a task
/// row: the bounds of the PID and the index after the `]`.
pub open spec fn row_pid(s: Seq<char>) -> Option<(int, int, int)> {
    if s.len() > 0 && s[0] == '[' {
        let a = skip_while(s, 1, space_class());
        let b = skip_while(s, a, ascii_digit_class());
        let c = skip_while(s, b, space_class());
        if b > a && c < s.len() && s[c] == ']' {
            Some((a, b, c + 1))
        } else {
            None
        }
    } else {
        None
    }
}

/// A number of 4 KiB pages, in KiB, when it fits.
pub open spec fn pages_kb(p: Option<u64>) -> Option<u64> {
    match p {
        Some(v) => if v * 4 <= u64::MAX {
            Some((v * 4) as u64)
        } else {
            None
        },
        None => None,
    }
}

/// Words `from..to` of `ws` are all unsigned numbers.
pub open spec fn numbers_between(s: Seq<char>, ws: Seq<(int, int)>, from: int, to: int) -> bool {
    forall|k: int| from <= k < to ==> (#[trigger] parse_u64_spec(word(s, ws[k]))) is Some
}

/// A row of a task table with `c` numeric columns: the task it lists.
pub open spec fn task_row(s: Seq<char>, c: nat) -> Option<ProcessView> {
    match row_pid(s) {
        Some((a, b, h)) => {
            let ws = word_spans(s, h);
            if c >= 6 && ws.len() >= c + 1 {
                let pid = parse_u32_spec(s.subrange(a, b));
                let uid = parse_u32_spec(word(s, ws[0]));
                let tgid = parse_u32_spec(word(s, ws[1]));
                let vm = pages_kb(parse_u64_spec(word(s, ws[2])));
                let rss = pages_kb(parse_u64_spec(word(s, ws[3])));
                let swap = parse_u64_spec(word(s, ws[c - 2]));
                let adj = parse_i32_spec(word(s, ws[c - 1]));
                if pid is Some && uid is Some && tgid is Some && vm is Some && rss is Some && swap is Some
                    && adj is Some && numbers_between(s, ws, 4, c - 2) {
                    Some(
                        ProcessView {
                            pid: pid->0,
                            uid: uid->0,
                            tgid: tgid->0,
                            total_vm_kb: vm->0,
                            rss_kb: rss->0,
                            swapents: swap->0,
                            oom_score_adj: adj->0,
                            name: s.subrange(ws[c as int].0, s.len() as int),
                        },
                    )
                } else {
                    None
                }
            } else {
                None
            }
        },
        None => None,
    }
}

/// `<pages> pages RAM`: the machine's memory, in KiB.
pub open spec fn pages_ram(s: Seq<char>) -> Option<u64> {
    let b = skip_while(s, 0, ascii_digit_class());
    if b > 0 && s.skip(b) == " pages RAM"@ {
        pages_kb(parse_u64_spec(s.take(b)))
    } else {
        None
    }
}

/// `<lit> = <n>kB`: the figure, in KiB.
pub open spec fn swap_figure(s: Seq<char>, lit: Seq<char>) -> Option<u64> {
    if has_at(s, 0, lit) {
        let a = skip_while(s, lit.len() as int, space_class());
        if a < s.len() && s[a] == '=' {
            let d = skip_while(s, a + 1, space_class());
            let e = skip_while(s, d, ascii_digit_class());
            if e > d && s.skip(e) == "kB"@ {
                parse_u64_spec(s.subrange(d, e))
            } else {
                None
            }
        } else {
            None
        }
    } else {
        None
    }
}

/// What a `Mem-Info` line adds to what is known of the machine's memory.
pub open spec fn mem_update(m: MemInfo, s: Seq<char>) -> MemInfo {
    match pages_ram(s) {
        Some(t) => MemInfo { total_ram_kb: Some(t), ..m },
        None => match swap_figure(s, "Total swap"@) {
            Some(v) => MemInfo { swap_total_kb: Some(v), ..m },
            None => match swap_figure(s, "Free swap"@) {
                Some(v) => MemInfo { swap_free_kb: Some(v), ..m },
                None => m,
            },
        },
    }
}

/// The table and memory figures gathered for the report being read.
pub struct TableState {
    /// The numeric columns of the table's header, once one was read.
    pub columns: Option<nat>,
    pub processes: Seq<ProcessView>,
    pub mem: MemInfo,
}

pub open spec fn empty_table() -> TableState {
    TableState {
        columns: None,
        processes: Seq::empty(),
        mem: MemInfo { total_ram_kb: None, swap_total_kb: None, swap_free_kb: None },
    }
}

/// What a line that is neither a trigger, a constraint nor a kill adds: a
/// header starts a table, a row under a header adds its task, a `Mem-Info`
/// line its figure.
pub open spec fn table_step(t: TableState, s: Seq<char>) -> TableState {
    match header_columns(s) {
        Some(c) => TableState { columns: Some(c), processes: Seq::empty(), ..t },
        None => match (match t.columns {
            Some(c) => task_row(s, c),
            None => None,
        }) {
            Some(p) => TableState { processes: t.processes.push(p), ..t },
            None => TableState { mem: mem_update(t.mem, s), ..t },
        },
    }
}

/// The memory figures, if any was recorded.
pub open spec fn recorded_mem(m: MemInfo) -> Option<MemInfo> {
    if m.total_ram_kb is Some || m.swap_total_kb is Some || m.swap_free_kb is Some {
        Some(m)
    } else {
        None
    }
}

// ---------------------------------------------------------------------------
// Reading them

/// The words of `s[i..]`.
pub fn word_spans_exec(s: &Vec<char>, i: usize) -> (r: Vec<(usize, usize)>)
    requires
        i <= s.len(),
    ensures
        r@.len() == word_spans(s@, i as int).len(),
        forall|k: int|
            0 <= k < r@.len() ==> {
                &&& (#[trigger] r@[k]).0 <= r@[k].1 <= s@.len()
                &&& r@[k].0 as int == word_spans(s@, i as int)[k].0
                &&& r@[k].1 as int == word_spans(s@, i as int)[k].1
            },
{
    let mut r: Vec<(usize, usize)> = Vec::new();
    let mut j = i;
    while j < s.len()
        invariant
            i <= j <= s.len(),
            word_spans(s@, i as int) == r@.map_values(|p: (usize, usize)| (p.0 as int, p.1 as int)) + word_spans(
                s@,
                j as int,
            ),
            forall|k: int| 0 <= k < r@.len() ==> (#[trigger] r@[k]).0 <= r@[k].1 <= s@.len(),
        decreases s.len() - j,
    {
        let a = skip_space(s, j);
        if a >= s.len() {
            proof {
                assert(word_spans(s@, j as int) =~= Seq::<(int, int)>::empty());
            }
            j = s.len();
        } else {
            let b = skip_non_space(s, a);
            proof {
                lemma_skip_while(s@, a as int, non_space_class());
            }
            let ghost old_r = r@;
            r.push((a, b));
            proof {
                assert(r@.map_values(|p: (usize, usize)| (p.0 as int, p.1 as int)) =~= old_r.map_values(
                    |p: (usize, usize)| (p.0 as int, p.1 as int),
                ).push((a as int, b as int)));
                assert(word_spans(s@, i as int) =~= r@.map_values(|p: (usize, usize)| (p.0 as int, p.1 as int))
                    + word_spans(s@, b as int));
            }
            j = b;
        }
    }
    proof {
        assert(word_spans(s@, j as int) =~= Seq::<(int, int)>::empty());
        assert(word_spans(s@, i as int) =~= r@.map_values(|p: (usize, usize)| (p.0 as int, p.1 as int)));
        assert forall|k: int| 0 <= k < r@.len() implies r@[k].0 as int == word_spans(s@, i as int)[k].0
            && r@[k].1 as int == word_spans(s@, i as int)[k].1 by {
            assert(word_spans(s@, i as int)[k] == (r@[k].0 as int, r@[k].1 as int));
        }
    }
    r
}

/// Whether `s[a..b]` is exactly `lit`.
fn word_is(s: &Vec<char>, w: (usize, usize), lit: &str) -> (r: bool)
    requires
        w.0 <= w.1 <= s.len(),
    ensures
        r == (s@.subrange(w.0 as int, w.1 as int) == lit@),
{
    let n = crate::text::char_len(lit);
    if w.1 - w.0 != n {
        return false;
    }
    let r = lit_at(s, w.0, lit);
    proof {
        if r {
            assert(s@.subrange(w.0 as int, w.1 as int) =~= lit@);
        } else {
            assert(s@.subrange(w.0 as int, w.1 as int) != lit@) by {
                if s@.subrange(w.0 as int, w.1 as int) == lit@ {
                    assert(s@.subrange(w.0 as int, w.0 + lit@.len()) =~= lit@);
                }
            }
        }
    }
    r
}

fn bracketed_exec(s: &Vec<char>, lit: &str) -> (r: Option<usize>)
    ensures
        match bracketed(s@, lit@) {
            Some(h) => r == Some(h as usize) && 0 < h <= s@.len(),
            None => r is None,
        },
{
    if s.len() == 0 || s[0] != '[' {
        return None;
    }
    let a = skip_space(s, 1);
    if !lit_at(s, a, lit) {
        return None;
    }
    let n = crate::text::char_len(lit);
    let c = skip_space(s, a + n);
    if c < s.len() && s[c] == ']' {
        Some(c + 1)
    } else {
        None
    }
}

/// A task table's header: the number of numeric columns before `name`.
pub fn header_columns_exec(s: &Vec<char>) -> (r: Option<usize>)
    ensures
        match header_columns(s@) {
            Some(c) => r == Some(c as usize),
            None => r is None,
        },
        r matches Some(c) ==> header_columns(s@) == Some(c as nat),
{
    let h = match bracketed_exec(s, "pid") {
        Some(h) => h,
        None => return None,
    };
    let ws = word_spans_exec(s, h);
    let n = ws.len();
    if n < 7 {
        return None;
    }
    let ok = word_is(s, ws[0], "uid") && word_is(s, ws[1], "tgid") && word_is(s, ws[2], "total_vm")
        && word_is(s, ws[3], "rss") && word_is(s, ws[n - 3], "swapents") && word_is(
        s,
        ws[n - 2],
        "oom_score_adj",
    ) && word_is(s, ws[n - 1], "name");
    if ok {
        Some(n - 1)
    } else {
        None
    }
}

fn row_pid_exec(s: &Vec<char>) -> (r: Option<(usize, usize, usize)>)
    ensures
        match row_pid(s@) {
            Some((a, b, h)) => r == Some((a as usize, b as usize, h as usize)) && a < b <= h <= s@.len(),
            None => r is None,
        },
        r matches Some((a, b, h)) ==> row_pid(s@) == Some((a as int, b as int, h as int)),
{
    if s.len() == 0 || s[0] != '[' {
        return None;
    }
    let a = skip_space(s, 1);
    let b = skip_ascii_digits(s, a);
    let c = skip_space(s, b);
    if b > a && c < s.len() && s[c] == ']' {
        Some((a, b, c + 1))
    } else {
        None
    }
}

fn pages_kb_exec(p: Option<u64>) -> (r: Option<u64>)
    ensures
        r == pages_kb(p),
{
    match p {
        Some(v) => if v <= u64::MAX / 4 {
            Some(v * 4)
        } else {
            None
        },
        None => None,
    }
}

/// A row of a task table with `c` numeric columns: the task it lists.
pub fn task_row_exec(s: &Vec<char>, c: usize) -> (r: Option<ProcessEntry>)
    ensures
        match task_row(s@, c as nat) {
            Some(p) => r matches Some(e) && e@ == p,
            None => r is None,
        },
{
    let (a, b, h) = match row_pid_exec(s) {
        Some(x) => x,
        None => return None,
    };
    let ws = word_spans_exec(s, h);
    if c < 6 || ws.len() <= c {
        return None;
    }
    let ghost spans = word_spans(s@, h as int);
    let mut k: usize = 4;
    while k < c - 2
        invariant
            4 <= k <= c - 2,
            c >= 6,
            row_pid(s@) == Some((a as int, b as int, h as int)),
            ws@.len() >= c + 1,
            spans == word_spans(s@, h as int),
            ws@.len() == spans.len(),
            forall|j: int|
                0 <= j < ws@.len() ==> {
                    &&& (#[trigger] ws@[j]).0 <= ws@[j].1 <= s@.len()
                    &&& ws@[j].0 as int == spans[j].0
                    &&& ws@[j].1 as int == spans[j].1
                },
            numbers_between(s@, spans, 4, k as int),
        decreases c - 2 - k,
    {
        let (x, y) = ws[k];
        if parse_u64(s, x, y).is_none() {
            proof {
                assert(word(s@, spans[k as int]) == s@.subrange(x as int, y as int));
                assert(parse_u64_spec(word(s@, spans[k as int])) is None);
                assert(!numbers_between(s@, spans, 4, c - 2));
            }
            return None;
        }
        k = k + 1;
    }
    let pid = parse_u32(s, a, b);
    let uid = parse_u32(s, ws[0].0, ws[0].1);
    let tgid = parse_u32(s, ws[1].0, ws[1].1);
    let vm = pages_kb_exec(parse_u64(s, ws[2].0, ws[2].1));
    let rss = pages_kb_exec(parse_u64(s, ws[3].0, ws[3].1));
    let swap = parse_u64(s, ws[c - 2].0, ws[c - 2].1);
    let adj = parse_i32(s, ws[c - 1].0, ws[c - 1].1);
    match (pid, uid, tgid, vm, rss, swap, adj) {
        (Some(pid), Some(uid), Some(tgid), Some(total_vm_kb), Some(rss_kb), Some(swapents), Some(oom_score_adj)) => {
            let name = string_of(s, ws[c].0, s.len());
            Some(ProcessEntry { pid, uid, tgid, total_vm_kb, rss_kb, swapents, oom_score_adj, name })
        },
        _ => None,
    }
}

fn pages_ram_exec(s: &Vec<char>) -> (r: Option<u64>)
    ensures
        r == pages_ram(s@),
{
    let b = skip_ascii_digits(s, 0);
    if b == 0 {
        return None;
    }
    let n = crate::text::char_len(" pages RAM");
    if s.len() - b != n || !lit_at(s, b, " pages RAM") {
        proof {
            if s@.skip(b as int) == " pages RAM"@ {
                assert(s@.subrange(b as int, b + n) =~= " pages RAM"@);
            }
        }
        return None;
    }
    assert(s@.skip(b as int) =~= " pages RAM"@);
    assert(s@.subrange(0, b as int) =~= s@.take(b as int));
    pages_kb_exec(parse_u64(s, 0, b))
}

fn swap_figure_exec(s: &Vec<char>, lit: &str) -> (r: Option<u64>)
    ensures
        r == swap_figure(s@, lit@),
{
    if !lit_at(s, 0, lit) {
        return None;
    }
    let n = crate::text::char_len(lit);
    let a = skip_space(s, n);
    if !(a < s.len() && s[a] == '=') {
        return None;
    }
    let d = skip_space(s, a + 1);
    let e = skip_ascii_digits(s, d);
    if e <= d {
        return None;
    }
    let m = crate::text::char_len("kB");
    if s.len() - e != m || !lit_at(s, e, "kB") {
        proof {
            if s@.skip(e as int) == "kB"@ {
                assert(s@.subrange(e as int, e + m) =~= "kB"@);
            }
        }
        return None;
    }
    assert(s@.skip(e as int) =~= "kB"@);
    parse_u64(s, d, e)
}

/// What a `Mem-Info` line adds to what is known of the machine's memory.
pub fn mem_update_exec(m: MemInfo, s: &Vec<char>) -> (r: MemInfo)
    ensures
        r == mem_update(m, s@),
{
    match pages_ram_exec(s) {
        Some(t) => MemInfo { total_ram_kb: Some(t), ..m },
        None => match swap_figure_exec(s, "Total swap") {
            Some(v) => MemInfo { swap_total_kb: Some(v), ..m },
            None => match swap_figure_exec(s, "Free swap") {
                Some(v) => MemInfo { swap_free_kb: Some(v), ..m },
                None => m,
            },
        },
    }
}

} // verus!
