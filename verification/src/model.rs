//! The reconstructed OOM-kill event and the questions it answers.

use vstd::prelude::*;
use crate::container::opt_view;

verus! {

/// One row of the kernel's process table dump.
///
/// When the OOM killer fires it prints *every* eligible task with its memory
/// footprint, which is the only record of what the machine actually looked
/// like at that instant. It matters because the OOM killer picks the largest
/// RSS, which is frequently not the process that actually leaked - the real
/// culprit is often sitting a few rows down this table.
#[derive(Debug, Clone, PartialEq, Eq)]
pub struct ProcessEntry {
    pub pid: u32,
    pub uid: u32,
    pub tgid: u32,
    /// Virtual size, converted from the pages the kernel prints.
    pub total_vm_kb: u64,
    /// Resident size, converted from the pages the kernel prints.
    pub rss_kb: u64,
    pub swapents: u64,
    pub oom_score_adj: i32,
    pub name: String,
}

/// The abstract value of a [`ProcessEntry`].
pub struct ProcessView {
    pub pid: u32,
    pub uid: u32,
    pub tgid: u32,
    pub total_vm_kb: u64,
    pub rss_kb: u64,
    pub swapents: u64,
    pub oom_score_adj: i32,
    pub name: Seq<char>,
}

impl View for ProcessEntry {
    type V = ProcessView;

    open spec fn view(&self) -> ProcessView {
        ProcessView {
            pid: self.pid,
            uid: self.uid,
            tgid: self.tgid,
            total_vm_kb: self.total_vm_kb,
            rss_kb: self.rss_kb,
            swapents: self.swapents,
            oom_score_adj: self.oom_score_adj,
            name: self.name@,
        }
    }
}

impl Default for ProcessEntry {
    fn default() -> (r: Self)
        ensures
            r@ == (ProcessView {
                pid: 0,
                uid: 0,
                tgid: 0,
                total_vm_kb: 0,
                rss_kb: 0,
                swapents: 0,
                oom_score_adj: 0,
                name: Seq::empty(),
            }),
    {
        ProcessEntry {
            pid: 0,
            uid: 0,
            tgid: 0,
            total_vm_kb: 0,
            rss_kb: 0,
            swapents: 0,
            oom_score_adj: 0,
            name: String::new(),
        }
    }
}

/// The `Mem-Info` block: what the machine as a whole had left.
#[derive(Debug, Clone, Copy, PartialEq, Eq, Structural)]
pub struct MemInfo {
    pub total_ram_kb: Option<u64>,
    pub swap_total_kb: Option<u64>,
    pub swap_free_kb: Option<u64>,
}

impl Default for MemInfo {
    fn default() -> (r: Self)
        ensures
            r == (MemInfo { total_ram_kb: None, swap_total_kb: None, swap_free_kb: None }),
    {
        MemInfo { total_ram_kb: None, swap_total_kb: None, swap_free_kb: None }
    }
}

/// A single OOM-kill event reconstructed from kernel log lines.
///
/// The kernel actually logs an OOM event as *several* separate log lines
/// spread across a few milliseconds (trigger -> constraint/cgroup info ->
/// the actual kill -> optional reaper confirmation). `OomEvent` is the
/// clean, joined-up view of all of that.
#[derive(Debug, Clone)]
pub struct OomEvent {
    /// Raw timestamp string as found in the log (syslog time or kernel
    /// uptime in brackets). Kept as a string because the two source
    /// formats aren't directly comparable without extra context (boot time).
    pub timestamp: Option<String>,
    /// The timestamp resolved to real wall-clock time, in milliseconds since
    /// the Unix epoch, when that could be done safely. `None` for an
    /// uptime-based stamp from a log this machine did not produce, where
    /// anchoring it to the local boot time would be a confident lie rather
    /// than a missing value.
    pub occurred_at: Option<i64>,
    // --- who triggered the allocation that failed ---
    pub trigger_process: Option<String>,
    pub gfp_mask: Option<String>,
    pub order: Option<u32>,
    // --- where the kernel decided to kill ---
    pub constraint: Option<String>,
    pub cgroup: Option<String>,
    /// The cgroup whose *limit* was breached (`oom_memcg`), which is not
    /// always the cgroup the victim lived in. When a parent slice's limit
    /// kills a child, this is the one to go and raise.
    pub limit_cgroup: Option<String>,
    /// True when the kill satisfied a *cgroup memory limit* rather than
    /// global host exhaustion.
    pub memcg_kill: bool,
    // --- the victim ---
    pub victim_name: String,
    pub victim_pid: u32,
    pub uid: Option<u32>,
    pub total_vm_kb: Option<u64>,
    pub anon_rss_kb: Option<u64>,
    pub file_rss_kb: Option<u64>,
    pub shmem_rss_kb: Option<u64>,
    pub pgtables_kb: Option<u64>,
    pub oom_score_adj: Option<i32>,
    /// Whether the oom_reaper subsequently confirmed memory was reclaimed.
    pub reaped: bool,
    /// Every task the kernel listed at the moment of the kill, if it printed
    /// a process table. Empty when the log was truncated or the dump was
    /// suppressed (`oom_dump_tasks=0`).
    pub processes: Vec<ProcessEntry>,
    /// System-wide memory state, if a `Mem-Info` block accompanied the kill.
    pub mem: Option<MemInfo>,
    /// The log lines that make up this event, exactly as read -
    /// kept so the user can always drop down to "just show me dmesg".
    pub raw_lines: Vec<String>,
}

/// The abstract value of an [`OomEvent`].
pub struct EventView {
    pub timestamp: Option<Seq<char>>,
    pub occurred_at: Option<i64>,
    pub trigger_process: Option<Seq<char>>,
    pub gfp_mask: Option<Seq<char>>,
    pub order: Option<u32>,
    pub constraint: Option<Seq<char>>,
    pub cgroup: Option<Seq<char>>,
    pub limit_cgroup: Option<Seq<char>>,
    pub memcg_kill: bool,
    pub victim_name: Seq<char>,
    pub victim_pid: u32,
    pub uid: Option<u32>,
    pub total_vm_kb: Option<u64>,
    pub anon_rss_kb: Option<u64>,
    pub file_rss_kb: Option<u64>,
    pub shmem_rss_kb: Option<u64>,
    pub pgtables_kb: Option<u64>,
    pub oom_score_adj: Option<i32>,
    pub reaped: bool,
    pub processes: Seq<ProcessView>,
    pub mem: Option<MemInfo>,
    pub raw_lines: Seq<Seq<char>>,
}

pub open spec fn strings_view(v: Seq<String>) -> Seq<Seq<char>> {
    v.map_values(|s: String| s@)
}

pub open spec fn events_view(v: Seq<OomEvent>) -> Seq<EventView> {
    v.map_values(|e: OomEvent| e@)
}

pub open spec fn processes_view(v: Seq<ProcessEntry>) -> Seq<ProcessView> {
    v.map_values(|p: ProcessEntry| p@)
}

impl View for OomEvent {
    type V = EventView;

    open spec fn view(&self) -> EventView {
        EventView {
            timestamp: opt_view(self.timestamp),
            occurred_at: self.occurred_at,
            trigger_process: opt_view(self.trigger_process),
            gfp_mask: opt_view(self.gfp_mask),
            order: self.order,
            constraint: opt_view(self.constraint),
            cgroup: opt_view(self.cgroup),
            limit_cgroup: opt_view(self.limit_cgroup),
            memcg_kill: self.memcg_kill,
            victim_name: self.victim_name@,
            victim_pid: self.victim_pid,
            uid: self.uid,
            total_vm_kb: self.total_vm_kb,
            anon_rss_kb: self.anon_rss_kb,
            file_rss_kb: self.file_rss_kb,
            shmem_rss_kb: self.shmem_rss_kb,
            pgtables_kb: self.pgtables_kb,
            oom_score_adj: self.oom_score_adj,
            reaped: self.reaped,
            processes: processes_view(self.processes@),
            mem: self.mem,
            raw_lines: strings_view(self.raw_lines@),
        }
    }
}

/// An event with nothing recorded.
pub open spec fn empty_event() -> EventView {
    EventView {
        timestamp: None,
        occurred_at: None,
        trigger_process: None,
        gfp_mask: None,
        order: None,
        constraint: None,
        cgroup: None,
        limit_cgroup: None,
        memcg_kill: false,
        victim_name: Seq::empty(),
        victim_pid: 0,
        uid: None,
        total_vm_kb: None,
        anon_rss_kb: None,
        file_rss_kb: None,
        shmem_rss_kb: None,
        pgtables_kb: None,
        oom_score_adj: None,
        reaped: false,
        processes: Seq::empty(),
        mem: None,
        raw_lines: Seq::empty(),
    }
}

impl Default for OomEvent {
    fn default() -> (r: Self)
        ensures
            r@ == empty_event(),
    {
        let r = OomEvent {
            timestamp: None,
            occurred_at: None,
            trigger_process: None,
            gfp_mask: None,
            order: None,
            constraint: None,
            cgroup: None,
            limit_cgroup: None,
            memcg_kill: false,
            victim_name: String::new(),
            victim_pid: 0,
            uid: None,
            total_vm_kb: None,
            anon_rss_kb: None,
            file_rss_kb: None,
            shmem_rss_kb: None,
            pgtables_kb: None,
            oom_score_adj: None,
            reaped: false,
            processes: Vec::new(),
            mem: None,
            raw_lines: Vec::new(),
        };
        assert(processes_view(r.processes@) =~= Seq::<ProcessView>::empty());
        assert(strings_view(r.raw_lines@) =~= Seq::<Seq<char>>::empty());
        r
    }
}


// ---------------------------------------------------------------------------
// Questions asked of an event

/// The victim's resident memory (anon + file + shmem), in KB, when all three
/// parts were reported; a sum beyond `u64::MAX` saturates there.
pub open spec fn rss_total_spec(e: EventView) -> Option<u64> {
    match (e.anon_rss_kb, e.file_rss_kb, e.shmem_rss_kb) {
        (Some(a), Some(f), Some(s)) => Some(
            if a + f + s > u64::MAX {
                u64::MAX
            } else {
                (a + f + s) as u64
            },
        ),
        _ => None,
    }
}

/// Inserts `p` into `s` (largest resident set first) after every entry whose
/// resident set is at least as large, so that equal entries keep their order.
pub open spec fn insert_by_rss(s: Seq<ProcessView>, p: ProcessView) -> Seq<ProcessView>
    decreases s.len(),
{
    if s.len() == 0 {
        seq![p]
    } else if s[0].rss_kb < p.rss_kb {
        seq![p] + s
    } else {
        seq![s[0]] + insert_by_rss(s.drop_first(), p)
    }
}

/// `s` sorted by resident set, largest first; entries with equal resident
/// sets keep the order they were listed in (a stable sort).
pub open spec fn by_rss_desc(s: Seq<ProcessView>) -> Seq<ProcessView>
    decreases s.len(),
{
    if s.len() == 0 {
        s
    } else {
        insert_by_rss(by_rss_desc(s.drop_last()), s.last())
    }
}

/// Entry `i` has the largest resident set of the table (others may tie).
pub open spec fn is_largest(s: Seq<ProcessView>, i: int) -> bool {
    &&& 0 <= i < s.len()
    &&& forall|j: int| 0 <= j < s.len() ==> #[trigger] s[j].rss_kb <= s[i].rss_kb
}

/// Whether the victim was the biggest memory user the kernel listed (a tie
/// for the largest counts), if it listed any task.
pub open spec fn victim_was_largest_spec(e: EventView) -> Option<bool> {
    if e.processes.len() == 0 {
        None
    } else {
        Some(
            exists|i: int| #[trigger] is_largest(e.processes, i) && e.processes[i].pid == e.victim_pid,
        )
    }
}

pub open spec fn refs_view(v: Seq<&ProcessEntry>) -> Seq<ProcessView> {
    v.map_values(|p: &ProcessEntry| p@)
}

/// Inserting after the entries at least as large is splicing `p` in at the
/// first entry that is smaller.
proof fn lemma_insert_by_rss_at(s: Seq<ProcessView>, p: ProcessView, pos: int)
    requires
        0 <= pos <= s.len(),
        forall|j: int| 0 <= j < pos ==> #[trigger] s[j].rss_kb >= p.rss_kb,
        pos < s.len() ==> s[pos].rss_kb < p.rss_kb,
    ensures
        insert_by_rss(s, p) == s.take(pos) + seq![p] + s.skip(pos),
    decreases s.len(),
{
    if s.len() == 0 {
        assert(s.take(pos) + seq![p] + s.skip(pos) =~= seq![p]);
    } else if pos == 0 {
        assert(s.take(pos) + seq![p] + s.skip(pos) =~= seq![p] + s);
    } else {
        let t = s.drop_first();
        assert forall|j: int| 0 <= j < pos - 1 implies #[trigger] t[j].rss_kb >= p.rss_kb by {
            assert(t[j] == s[j + 1]);
        }
        lemma_insert_by_rss_at(t, p, pos - 1);
        assert(s.take(pos) + seq![p] + s.skip(pos) =~= seq![s[0]] + (t.take(pos - 1) + seq![p] + t.skip(
            pos - 1,
        )));
    }
}

/// The victim's resident set and the machine's total RAM, in KB, when both
/// were recorded and the total is not zero: the parts of its share of RAM.
pub open spec fn ram_share_spec(e: EventView) -> Option<(u64, u64)> {
    match (e.mem, rss_total_spec(e)) {
        (Some(m), Some(rss)) => match m.total_ram_kb {
            Some(total) => if total != 0 {
                Some((rss, total))
            } else {
                None
            },
            None => None,
        },
        _ => None,
    }
}

impl OomEvent {
    /// The victim's resident set and the machine's total RAM, in KB, of which
    /// the share of RAM is the quotient (absolute figures are meaningless
    /// without it: 400 MB is unremarkable on a 64 GB host and fatal on a
    /// 512 MB VM). `None` when either is unknown or the total is zero.
    pub fn rss_share_parts(&self) -> (r: Option<(u64, u64)>)
        ensures
            r == ram_share_spec(self@),
    {
        let total = match self.mem {
            Some(m) => match m.total_ram_kb {
                Some(t) => t,
                None => return None,
            },
            None => return None,
        };
        if total == 0 {
            return None;
        }
        match self.rss_total_kb() {
            Some(rss) => Some((rss, total)),
            None => None,
        }
    }

    /// Resident memory actually held by the victim at time of death
    /// (anon + file + shmem), in KB. Saturates rather than overflowing on
    /// hostile input.
    pub fn rss_total_kb(&self) -> (r: Option<u64>)
        ensures
            r == rss_total_spec(self@),
    {
        match (self.anon_rss_kb, self.file_rss_kb, self.shmem_rss_kb) {
            (Some(a), Some(f), Some(s)) => Some(a.saturating_add(f).saturating_add(s)),
            _ => None,
        }
    }

    /// Tasks from the process dump, largest resident set first, at most
    /// `limit` of them.
    pub fn top_consumers(&self, limit: usize) -> (r: Vec<&ProcessEntry>)
        ensures
            refs_view(r@) == by_rss_desc(processes_view(self.processes@)).take(
                if limit < self.processes@.len() {
                    limit as int
                } else {
                    self.processes@.len() as int
                },
            ),
    {
        let ghost all = processes_view(self.processes@);
        let mut sorted: Vec<&ProcessEntry> = Vec::new();
        let mut k: usize = 0;
        while k < self.processes.len()
            invariant
                k <= self.processes.len(),
                all == processes_view(self.processes@),
                refs_view(sorted@) == by_rss_desc(all.take(k as int)),
                sorted@.len() == k,
            decreases self.processes.len() - k,
        {
            let p = &self.processes[k];
            let ghost before = refs_view(sorted@);
            let mut pos: usize = 0;
            while pos < sorted.len() && sorted[pos].rss_kb >= p.rss_kb
                invariant
                    pos <= sorted.len(),
                    before == refs_view(sorted@),
                    forall|j: int| 0 <= j < pos ==> #[trigger] before[j].rss_kb >= p.rss_kb,
                decreases sorted.len() - pos,
            {
                pos = pos + 1;
            }
            proof {
                lemma_insert_by_rss_at(before, p@, pos as int);
                assert(all.take(k + 1).drop_last() =~= all.take(k as int));
                assert(all.take(k + 1).last() == p@);
            }
            sorted.insert(pos, p);
            proof {
                assert(refs_view(sorted@) =~= before.take(pos as int) + seq![p@] + before.skip(pos as int));
            }
            k = k + 1;
        }
        proof {
            assert(all.take(self.processes@.len() as int) =~= all);
        }
        let ghost full = refs_view(sorted@);
        sorted.truncate(limit);
        proof {
            let n = if limit < self.processes@.len() {
                limit as int
            } else {
                self.processes@.len() as int
            };
            assert(refs_view(sorted@) =~= full.take(n));
        }
        sorted
    }

    /// Whether the process the kernel killed was actually the biggest memory
    /// user: no listed task held more than it (a tie counts as the biggest).
    /// `None` when the kernel printed no process table.
    pub fn victim_was_largest(&self) -> (r: Option<bool>)
        ensures
            r == victim_was_largest_spec(self@),
    {
        let ghost s = processes_view(self.processes@);
        if self.processes.len() == 0 {
            return None;
        }
        let mut best: usize = 0;
        let mut k: usize = 1;
        while k < self.processes.len()
            invariant
                1 <= k <= self.processes.len(),
                best < k,
                s == processes_view(self.processes@),
                forall|j: int| 0 <= j < k ==> #[trigger] s[j].rss_kb <= s[best as int].rss_kb,
            decreases self.processes.len() - k,
        {
            if self.processes[k].rss_kb > self.processes[best].rss_kb {
                best = k;
            }
            k = k + 1;
        }
        let largest = self.processes[best].rss_kb;
        assert(is_largest(s, best as int));
        let mut found = false;
        let mut m: usize = 0;
        while m < self.processes.len()
            invariant
                m <= self.processes.len(),
                s == processes_view(self.processes@),
                is_largest(s, best as int),
                largest == s[best as int].rss_kb,
                found == exists|i: int| 0 <= i < m && #[trigger] is_largest(s, i) && s[i].pid == self.victim_pid,
            decreases self.processes.len() - m,
        {
            let hit = self.processes[m].pid == self.victim_pid && self.processes[m].rss_kb == largest;
            proof {
                assert(s[m as int] == self.processes@[m as int]@);
                if hit {
                    assert(is_largest(s, m as int));
                }
                if is_largest(s, m as int) {
                    assert(s[best as int].rss_kb <= s[m as int].rss_kb);
                }
            }
            found = found || hit;
            m = m + 1;
        }
        Some(found)
    }
}


/// Largest resident set first: no entry is larger than one before it.
pub open spec fn sorted_by_rss(s: Seq<ProcessView>) -> bool {
    forall|i: int, j: int| 0 <= i < j < s.len() ==> #[trigger] s[i].rss_kb >= #[trigger] s[j].rss_kb
}

proof fn lemma_insert_by_rss(s: Seq<ProcessView>, p: ProcessView)
    ensures
        insert_by_rss(s, p).len() == s.len() + 1,
        insert_by_rss(s, p).to_multiset() == s.to_multiset().insert(p),
        insert_by_rss(s, p)[0] == p || (s.len() > 0 && insert_by_rss(s, p)[0] == s[0]),
        sorted_by_rss(s) ==> sorted_by_rss(insert_by_rss(s, p)),
    decreases s.len(),
{
    broadcast use vstd::multiset::group_multiset_axioms;
    broadcast use vstd::seq_lib::group_to_multiset_ensures;

    let r = insert_by_rss(s, p);
    if s.len() == 0 {
        assert(r.to_multiset() =~= s.to_multiset().insert(p));
    } else if s[0].rss_kb < p.rss_kb {
        vstd::seq_lib::lemma_multiset_commutative(seq![p], s);
        assert(r.to_multiset() =~= s.to_multiset().insert(p));
    } else {
        let t = s.drop_first();
        lemma_insert_by_rss(t, p);
        let u = insert_by_rss(t, p);
        vstd::seq_lib::lemma_multiset_commutative(seq![s[0]], u);
        vstd::seq_lib::lemma_multiset_commutative(seq![s[0]], t);
        assert(seq![s[0]] + t =~= s);
        assert(r.to_multiset() =~= s.to_multiset().insert(p));
        if sorted_by_rss(s) {
            assert(sorted_by_rss(t)) by {
                assert forall|i: int, j: int| 0 <= i < j < t.len() implies #[trigger] t[i].rss_kb
                    >= #[trigger] t[j].rss_kb by {
                    assert(t[i] == s[i + 1] && t[j] == s[j + 1]);
                }
            }
            assert(u[0].rss_kb <= s[0].rss_kb) by {
                if t.len() > 0 && u[0] == t[0] {
                    assert(t[0] == s[1]);
                }
            }
            assert forall|i: int, j: int| 0 <= i < j < r.len() implies #[trigger] r[i].rss_kb
                >= #[trigger] r[j].rss_kb by {
                assert(r[j] == u[j - 1]);
                if i == 0 {
                    assert(r[0] == s[0]);
                    if j - 1 > 0 {
                        assert(u[0].rss_kb >= u[j - 1].rss_kb);
                    }
                } else {
                    assert(r[i] == u[i - 1]);
                }
            }
        }
    }
}

/// The order `top_consumers` hands tasks out in is a reordering of the
/// process table, largest resident set first.
pub proof fn lemma_by_rss_desc(s: Seq<ProcessView>)
    ensures
        by_rss_desc(s).to_multiset() == s.to_multiset(),
        by_rss_desc(s).len() == s.len(),
        sorted_by_rss(by_rss_desc(s)),
    decreases s.len(),
{
    broadcast use vstd::seq_lib::group_to_multiset_ensures;

    if s.len() > 0 {
        lemma_by_rss_desc(s.drop_last());
        lemma_insert_by_rss(by_rss_desc(s.drop_last()), s.last());
        assert(s.drop_last().push(s.last()) =~= s);
    }
}

/// The entries of `s` whose resident set is `v`, in the order listed.
pub open spec fn with_rss(s: Seq<ProcessView>, v: u64) -> Seq<ProcessView>
    decreases s.len(),
{
    if s.len() == 0 {
        Seq::empty()
    } else {
        (if s[0].rss_kb == v {
            seq![s[0]]
        } else {
            Seq::empty()
        }) + with_rss(s.drop_first(), v)
    }
}

proof fn lemma_with_rss_append(a: Seq<ProcessView>, b: Seq<ProcessView>, v: u64)
    ensures
        with_rss(a + b, v) == with_rss(a, v) + with_rss(b, v),
    decreases a.len(),
{
    if a.len() == 0 {
        assert(a + b =~= b);
        assert(with_rss(a, v) + with_rss(b, v) =~= with_rss(b, v));
    } else {
        assert((a + b).drop_first() =~= a.drop_first() + b);
        lemma_with_rss_append(a.drop_first(), b, v);
        assert(with_rss(a + b, v) =~= with_rss(a, v) + with_rss(b, v));
    }
}

proof fn lemma_with_rss_one(x: ProcessView, v: u64)
    ensures
        with_rss(seq![x], v) == (if x.rss_kb == v {
            seq![x]
        } else {
            Seq::<ProcessView>::empty()
        }),
{
    assert(seq![x].drop_first() =~= Seq::<ProcessView>::empty());
    assert(with_rss(Seq::<ProcessView>::empty(), v) == Seq::<ProcessView>::empty());
    assert(with_rss(seq![x], v) =~= (if x.rss_kb == v {
        seq![x]
    } else {
        Seq::<ProcessView>::empty()
    }));
}

proof fn lemma_with_rss_none(s: Seq<ProcessView>, v: u64)
    requires
        forall|k: int| 0 <= k < s.len() ==> #[trigger] s[k].rss_kb != v,
    ensures
        with_rss(s, v) == Seq::<ProcessView>::empty(),
    decreases s.len(),
{
    if s.len() > 0 {
        assert forall|k: int| 0 <= k < s.drop_first().len() implies #[trigger] s.drop_first()[k].rss_kb != v by {
            assert(s.drop_first()[k] == s[k + 1]);
        }
        lemma_with_rss_none(s.drop_first(), v);
        assert(with_rss(s, v) =~= Seq::<ProcessView>::empty());
    }
}

proof fn lemma_with_rss_insert(t: Seq<ProcessView>, p: ProcessView, v: u64)
    requires
        sorted_by_rss(t),
    ensures
        with_rss(insert_by_rss(t, p), v) == with_rss(t, v) + (if p.rss_kb == v {
            seq![p]
        } else {
            Seq::empty()
        }),
    decreases t.len(),
{
    let tail = if p.rss_kb == v {
        seq![p]
    } else {
        Seq::<ProcessView>::empty()
    };
    if t.len() == 0 {
        lemma_with_rss_one(p, v);
        assert(with_rss(t, v) + tail =~= tail);
    } else if t[0].rss_kb < p.rss_kb {
        lemma_with_rss_append(seq![p], t, v);
        lemma_with_rss_one(p, v);
        if p.rss_kb == v {
            assert forall|k: int| 0 <= k < t.len() implies #[trigger] t[k].rss_kb != v by {
                if k > 0 {
                    assert(t[0].rss_kb >= t[k].rss_kb);
                }
            }
            lemma_with_rss_none(t, v);
            assert(with_rss(insert_by_rss(t, p), v) =~= with_rss(t, v) + tail);
        } else {
            assert(with_rss(insert_by_rss(t, p), v) =~= with_rss(t, v) + tail);
        }
    } else {
        let rest = t.drop_first();
        assert(sorted_by_rss(rest)) by {
            assert forall|i: int, j: int| 0 <= i < j < rest.len() implies #[trigger] rest[i].rss_kb
                >= #[trigger] rest[j].rss_kb by {
                assert(rest[i] == t[i + 1] && rest[j] == t[j + 1]);
            }
        }
        lemma_with_rss_insert(rest, p, v);
        lemma_with_rss_append(seq![t[0]], insert_by_rss(rest, p), v);
        lemma_with_rss_append(seq![t[0]], rest, v);
        assert(seq![t[0]] + rest =~= t);
        assert(with_rss(insert_by_rss(t, p), v) =~= with_rss(t, v) + tail);
    }
}

/// `top_consumers` is a stable sort: tasks with equal resident sets come out
/// in the order the kernel listed them, and none left out of a shorter list
/// is larger than one kept (the order is largest first throughout).
pub proof fn lemma_top_consumers_are_stable(s: Seq<ProcessView>, v: u64)
    ensures
        with_rss(by_rss_desc(s), v) == with_rss(s, v),
        forall|i: int, j: int| 0 <= i < j < s.len() ==> #[trigger] by_rss_desc(s)[i].rss_kb
            >= #[trigger] by_rss_desc(s)[j].rss_kb,
    decreases s.len(),
{
    lemma_by_rss_desc(s);
    if s.len() > 0 {
        let init = s.drop_last();
        lemma_top_consumers_are_stable(init, v);
        lemma_by_rss_desc(init);
        lemma_with_rss_insert(by_rss_desc(init), s.last(), v);
        lemma_with_rss_append(init, seq![s.last()], v);
        lemma_with_rss_one(s.last(), v);
        assert(init + seq![s.last()] =~= s);
        assert(with_rss(by_rss_desc(s), v) =~= with_rss(s, v));
    }
}

/// Whenever the three parts of the resident set were reported and their sum
/// fits in a `u64`, `rss_total_kb` is exactly that sum.
pub proof fn lemma_rss_total_is_its_parts(e: EventView)
    requires
        e.anon_rss_kb is Some,
        e.file_rss_kb is Some,
        e.shmem_rss_kb is Some,
        e.anon_rss_kb->0 + e.file_rss_kb->0 + e.shmem_rss_kb->0 <= u64::MAX,
    ensures
        rss_total_spec(e) == Some((e.anon_rss_kb->0 + e.file_rss_kb->0 + e.shmem_rss_kb->0) as u64),
{
}


} // verus!
