//! Evidence-backed investigation text for the interactive console.
//!
//! This module deliberately turns only recorded fields into short conclusions.
//! It never parses raw text again and never fills gaps with guesses.

use vstd::prelude::*;
use crate::model::{
    by_rss_desc, refs_view, rss_total_spec, strings_view, victim_was_largest_spec, EventView, OomEvent,
};
use crate::text::{decimal, mib_text, push_decimal, push_mib, starts_with};

verus! {

/// The concise, first-screen explanation of an OOM incident.
#[derive(Debug, Clone, PartialEq, Eq)]
pub struct Investigation {
    pub summary: Vec<String>,
    pub diagnosis: Vec<String>,
}

/// `kb` in MiB with one decimal place (`"{:.1} MiB"`).
pub fn memory(kb: u64) -> (r: String)
    ensures
        r@ == mib_text(kb as nat),
{
    let mut r = String::new();
    push_mib(&mut r, kb);
    assert(r@ =~= mib_text(kb as nat));
    r
}

/// `"<name> (PID <pid>)"`.
pub open spec fn name_and_pid(name: Seq<char>, pid: u32) -> Seq<char> {
    name + " (PID "@ + decimal(pid as nat) + ")"@
}

/// The lines of the summary section.
pub open spec fn summary_spec(e: EventView) -> Seq<Seq<char>> {
    let scope = if e.memcg_kill {
        "Memory cgroup exhaustion"@
    } else {
        "Host-wide memory exhaustion"@
    };
    let first = scope + " caused the kernel to terminate "@ + name_and_pid(e.victim_name, e.victim_pid)
        + "."@;
    let rss = match rss_total_spec(e) {
        Some(kb) => "Victim RSS: "@ + mib_text(kb as nat) + "."@,
        None => "Victim RSS: not reported by kernel."@,
    };
    let anon = match e.anon_rss_kb {
        Some(a) => if e.file_rss_kb == Some(0u64) && e.shmem_rss_kb == Some(0u64) {
            seq!["Anonymous RSS accounts for "@ + mib_text(a as nat) + "."@]
        } else {
            Seq::empty()
        },
        None => Seq::empty(),
    };
    let alloc = match e.gfp_mask {
        Some(mask) => seq![
            match e.order {
                Some(o) => "Allocation failed: order "@ + decimal(o as nat) + " using "@ + mask + "."@,
                None => "Allocation mask: "@ + mask + "."@,
            },
        ],
        None => Seq::empty(),
    };
    seq![first, rss] + anon + alloc
}

/// The lines of the diagnosis section.
pub open spec fn diagnosis_spec(e: EventView) -> Seq<Seq<char>> {
    let cause = if e.memcg_kill {
        "Memory cgroup limit triggered the OOM killer."@
    } else {
        "Kernel invoked the host-wide OOM killer."@
    };
    let victim = name_and_pid(e.victim_name, e.victim_pid) + " was selected as the victim."@;
    let limit = match e.limit_cgroup {
        Some(l) => "Reported limit cgroup: "@ + l + "."@,
        None => if e.memcg_kill {
            "Cgroup limit path: not reported by kernel."@
        } else {
            "No cgroup limit was reported."@
        },
    };
    let trigger = match e.trigger_process {
        Some(t) => "Failed allocation was triggered by "@ + t + "."@,
        None => "Allocation trigger: not reported by kernel."@,
    };
    let largest = if victim_was_largest_spec(e) == Some(false) {
        let top = by_rss_desc(e.processes)[0];
        seq!["Largest recorded task: "@ + name_and_pid(top.name, top.pid) + "."@]
    } else {
        Seq::empty()
    };
    seq![cause, victim, limit, trigger] + largest
}

fn push_name_and_pid(s: &mut String, name: &String, pid: u32)
    ensures
        final(s)@ == old(s)@ + name_and_pid(name@, pid),
{
    let ghost start = s@;
    s.append(name.as_str());
    s.append(" (PID ");
    push_decimal(s, pid as u128);
    s.append(")");
    assert(s@ =~= start + name_and_pid(name@, pid));
}

fn push_line(v: &mut Vec<String>, line: String)
    ensures
        strings_view(final(v)@) == strings_view(old(v)@).push(line@),
{
    v.push(line);
    assert(strings_view(v@) =~= strings_view(old(v)@).push(line@));
}

/// Explains an incident from its recorded fields alone: at most five summary
/// lines and five diagnosis lines.
pub fn investigate(event: &OomEvent) -> (r: Investigation)
    ensures
        strings_view(r.summary@) == summary_spec(event@),
        strings_view(r.diagnosis@) == diagnosis_spec(event@),
        r.summary@.len() <= 5,
        r.diagnosis@.len() <= 5,
{
    let e = event;
    let mut summary: Vec<String> = Vec::new();
    let mut first = String::new();
    if e.memcg_kill {
        first.append("Memory cgroup exhaustion");
    } else {
        first.append("Host-wide memory exhaustion");
    }
    first.append(" caused the kernel to terminate ");
    push_name_and_pid(&mut first, &e.victim_name, e.victim_pid);
    first.append(".");
    proof {
        assert(strings_view(summary@) =~= Seq::<Seq<char>>::empty());
    }
    push_line(&mut summary, first);
    let mut rss = String::new();
    match e.rss_total_kb() {
        Some(kb) => {
            rss.append("Victim RSS: ");
            push_mib(&mut rss, kb);
            rss.append(".");
        },
        None => {
            rss.append("Victim RSS: not reported by kernel.");
        },
    }
    push_line(&mut summary, rss);
    let ghost two = strings_view(summary@);
    match e.anon_rss_kb {
        Some(a) => {
            if e.file_rss_kb == Some(0u64) && e.shmem_rss_kb == Some(0u64) {
                let mut line = String::new();
                line.append("Anonymous RSS accounts for ");
                push_mib(&mut line, a);
                line.append(".");
                push_line(&mut summary, line);
            }
        },
        None => {},
    }
    let ghost three = strings_view(summary@);
    match &e.gfp_mask {
        Some(mask) => {
            let mut line = String::new();
            match e.order {
                Some(o) => {
                    line.append("Allocation failed: order ");
                    push_decimal(&mut line, o as u128);
                    line.append(" using ");
                    line.append(mask.as_str());
                    line.append(".");
                },
                None => {
                    line.append("Allocation mask: ");
                    line.append(mask.as_str());
                    line.append(".");
                },
            }
            push_line(&mut summary, line);
        },
        None => {},
    }
    proof {
        let sp = summary_spec(event@);
        assert(strings_view(summary@) =~= sp);
    }
    let mut diagnosis: Vec<String> = Vec::new();
    proof {
        assert(strings_view(diagnosis@) =~= Seq::<Seq<char>>::empty());
    }
    if e.memcg_kill {
        push_line(&mut diagnosis, String::from_str("Memory cgroup limit triggered the OOM killer."));
    } else {
        push_line(&mut diagnosis, String::from_str("Kernel invoked the host-wide OOM killer."));
    }
    let mut victim = String::new();
    push_name_and_pid(&mut victim, &e.victim_name, e.victim_pid);
    victim.append(" was selected as the victim.");
    push_line(&mut diagnosis, victim);
    match &e.limit_cgroup {
        Some(l) => {
            let mut line = String::new();
            line.append("Reported limit cgroup: ");
            line.append(l.as_str());
            line.append(".");
            push_line(&mut diagnosis, line);
        },
        None => {
            if e.memcg_kill {
                push_line(&mut diagnosis, String::from_str("Cgroup limit path: not reported by kernel."));
            } else {
                push_line(&mut diagnosis, String::from_str("No cgroup limit was reported."));
            }
        },
    }
    match &e.trigger_process {
        Some(t) => {
            let mut line = String::new();
            line.append("Failed allocation was triggered by ");
            line.append(t.as_str());
            line.append(".");
            push_line(&mut diagnosis, line);
        },
        None => {
            push_line(&mut diagnosis, String::from_str("Allocation trigger: not reported by kernel."));
        },
    }
    let ghost four = strings_view(diagnosis@);
    proof {
        let sp = diagnosis_spec(event@);
        assert(four =~= sp.take(4));
    }
    let was_largest = e.victim_was_largest();
    if was_largest == Some(false) {
        let top = e.top_consumers(1);
        proof {
            assert(e.processes@.len() > 0);
            crate::model::lemma_by_rss_desc(event@.processes);
            assert(refs_view(top@).len() == 1);
            assert(refs_view(top@)[0] == top@[0]@);
        }
        let largest = top[0];
        let mut line = String::new();
        line.append("Largest recorded task: ");
        push_name_and_pid(&mut line, &largest.name, largest.pid);
        line.append(".");
        push_line(&mut diagnosis, line);
    }
    proof {
        let dp = diagnosis_spec(event@);
        assert(strings_view(diagnosis@) =~= dp);
    }
    Investigation { summary, diagnosis }
}

/// The text that opens the diagnosis line naming the largest task.
pub open spec fn largest_prefix() -> Seq<char> {
    "Largest recorded task:"@
}

proof fn lemma_first_char_differs(x: Seq<char>, p: Seq<char>)
    requires
        x.len() > 0,
        p.len() > 0,
        x[0] != p[0],
    ensures
        !starts_with(x, p),
{
    if starts_with(x, p) {
        assert(x.subrange(0, p.len() as int)[0] == x[0]);
    }
}

proof fn lemma_victim_line(name: Seq<char>, pid: u32)
    requires
        !starts_with(name, largest_prefix()),
    ensures
        !starts_with(name_and_pid(name, pid) + " was selected as the victim."@, largest_prefix()),
{
    reveal_strlit("Largest recorded task:");
    reveal_strlit(" (PID ");
    let p = largest_prefix();
    let x = name_and_pid(name, pid) + " was selected as the victim."@;
    let n = name.len() as int;
    assert(p.len() == 22);
    assert(x.len() >= n + 6);
    if starts_with(x, p) {
        if n >= 22 {
            assert(name.subrange(0, 22) =~= x.subrange(0, 22));
        } else {
            assert(x[n] == ' ');
            assert(x[n + 1] == '(');
            assert(x.subrange(0, 22)[n] == p[n]);
            if n < 21 {
                assert(x.subrange(0, 22)[n + 1] == p[n + 1]);
                assert(forall|k: int| 0 <= k < 22 ==> #[trigger] p[k] != '(');
            } else {
                assert(p[21] == ':');
            }
        }
    }
}

/// What an investigation always says: at most five lines in each section; a
/// diagnosis that opens with whether a cgroup limit or the host ran out; a
/// line naming the largest task exactly when the victim was not the largest
/// (for any victim whose name does not itself begin like that line); and a
/// summary that says when the victim's resident set was not reported.
pub proof fn lemma_investigation_laws(e: EventView)
    requires
        !starts_with(e.victim_name, largest_prefix()),
    ensures
        summary_spec(e).len() <= 5,
        diagnosis_spec(e).len() <= 5,
        diagnosis_spec(e)[0] == (if e.memcg_kill {
            "Memory cgroup limit triggered the OOM killer."@
        } else {
            "Kernel invoked the host-wide OOM killer."@
        }),
        (exists|k: int| 0 <= k < diagnosis_spec(e).len() && starts_with(#[trigger] diagnosis_spec(e)[k], largest_prefix()))
            <==> victim_was_largest_spec(e) == Some(false),
        rss_total_spec(e) is None ==> summary_spec(e)[1] == "Victim RSS: not reported by kernel."@,
{
    reveal_strlit("Largest recorded task:");
    reveal_strlit("Largest recorded task: ");
    reveal_strlit("Memory cgroup limit triggered the OOM killer.");
    reveal_strlit("Kernel invoked the host-wide OOM killer.");
    reveal_strlit("Reported limit cgroup: ");
    reveal_strlit("Cgroup limit path: not reported by kernel.");
    reveal_strlit("No cgroup limit was reported.");
    reveal_strlit("Failed allocation was triggered by ");
    reveal_strlit("Allocation trigger: not reported by kernel.");
    let d = diagnosis_spec(e);
    let p = largest_prefix();
    lemma_first_char_differs(d[0], p);
    lemma_victim_line(e.victim_name, e.victim_pid);
    assert(d[2][0] != 'L');
    lemma_first_char_differs(d[2], p);
    assert(d[3][0] != 'L');
    lemma_first_char_differs(d[3], p);
    if victim_was_largest_spec(e) == Some(false) {
        let top = by_rss_desc(e.processes)[0];
        let line = "Largest recorded task: "@ + name_and_pid(top.name, top.pid) + "."@;
        assert(line.subrange(0, 22) =~= p);
        assert(d[4] == line);
    } else {
        assert(d.len() == 4);
        assert forall|k: int| 0 <= k < d.len() implies !starts_with(#[trigger] d[k], p) by {}
    }
}

/// The summary opens with the kind of exhaustion, and agrees with the
/// diagnosis: "Memory cgroup exhaustion" exactly for a memory-cgroup kill,
/// "Host-wide memory exhaustion" exactly for any other kill.
pub proof fn lemma_summary_names_the_scope(e: EventView)
    ensures
        starts_with(summary_spec(e)[0], "Memory cgroup exhaustion"@) <==> e.memcg_kill,
        starts_with(summary_spec(e)[0], "Host-wide memory exhaustion"@) <==> !e.memcg_kill,
        starts_with(summary_spec(e)[0], "Memory cgroup"@) <==> starts_with(diagnosis_spec(e)[0], "Memory cgroup"@),
{
    reveal_strlit("Memory cgroup exhaustion");
    reveal_strlit("Host-wide memory exhaustion");
    reveal_strlit("Memory cgroup");
    reveal_strlit("Memory cgroup limit triggered the OOM killer.");
    reveal_strlit("Kernel invoked the host-wide OOM killer.");
    let s = summary_spec(e)[0];
    let d = diagnosis_spec(e)[0];
    let mc = "Memory cgroup exhaustion"@;
    let hw = "Host-wide memory exhaustion"@;
    let short = "Memory cgroup"@;
    if e.memcg_kill {
        assert(s.subrange(0, mc.len() as int) =~= mc);
        assert(s.subrange(0, short.len() as int) =~= short);
        assert(d.subrange(0, short.len() as int) =~= short);
        assert(s[0] != hw[0]);
        if starts_with(s, hw) {
            assert(s.subrange(0, hw.len() as int)[0] == s[0]);
        }
    } else {
        assert(s.subrange(0, hw.len() as int) =~= hw);
        assert(s[0] != mc[0]);
        if starts_with(s, mc) {
            assert(s.subrange(0, mc.len() as int)[0] == s[0]);
        }
        if starts_with(s, short) {
            assert(s.subrange(0, short.len() as int)[0] == s[0]);
        }
        assert(d[0] != short[0]);
        if starts_with(d, short) {
            assert(d.subrange(0, short.len() as int)[0] == d[0]);
        }
    }
}

} // verus!
