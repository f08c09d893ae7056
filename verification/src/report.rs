//! Non-interactive output: what `oom-tui` prints when it isn't a TUI.
//!
//! The table is built here. The JSON documents are a stable public schema
//! written by serde in the program around this library, from the same event
//! values.

use vstd::prelude::*;
use crate::model::{events_view, rss_total_spec, EventView, OomEvent};
use crate::text::{
    decimal, mib_text, pad_end, pad_start, push_decimal, push_mib, push_padded_end, push_padded_start,
};

verus! {

#[derive(Debug, Clone, Copy, PartialEq, Eq, Structural)]
pub enum OutputFormat {
    /// TUI when stdout is a terminal, table when piped.
    Auto,
    /// Force the interactive dashboard.
    Tui,
    /// Human-readable columns.
    Table,
    /// A single pretty-printed JSON array.
    Json,
    /// One compact JSON object per line, for streaming consumers.
    Jsonl,
}

/// `auto` only picks the TUI when stdout is really a terminal: launching an
/// alternate-screen TUI into a pipe produces escape-code garbage.
pub fn resolve_format(requested: OutputFormat, stdout_is_terminal: bool) -> (r: OutputFormat)
    ensures
        r == (match requested {
            OutputFormat::Auto => if stdout_is_terminal {
                OutputFormat::Tui
            } else {
                OutputFormat::Table
            },
            other => other,
        }),
{
    match requested {
        OutputFormat::Auto => if stdout_is_terminal {
            OutputFormat::Tui
        } else {
            OutputFormat::Table
        },
        other => other,
    }
}

/// `s` cut to `max` characters, the last of them an ellipsis when anything
/// was cut.
pub open spec fn truncate_spec(s: Seq<char>, max: nat) -> Seq<char> {
    if s.len() <= max {
        s
    } else {
        s.take(if max == 0 {
            0
        } else {
            max - 1
        }) + "…"@
    }
}

/// `s` cut to `max` characters, the last of them an ellipsis when anything
/// was cut.
pub fn truncate(s: &str, max: usize) -> (r: String)
    ensures
        r@ == truncate_spec(s@, max as nat),
{
    let n = s.unicode_len();
    if n <= max {
        let mut r = String::new();
        r.append(s);
        return r;
    }
    let v = crate::text::chars_of(s);
    let keep = if max == 0 {
        0
    } else {
        max - 1
    };
    let mut r = crate::text::string_of(&v, 0, keep);
    r.append("…");
    proof {
        assert(v@.subrange(0, keep as int) =~= s@.take(keep as int));
    }
    r
}

/// The scope column: what limit the kill satisfied.
pub open spec fn scope_word(memcg_kill: bool) -> Seq<char> {
    if memcg_kill {
        "cgroup"@
    } else {
        "host"@
    }
}

/// One row of the table.
pub open spec fn table_row(e: EventView) -> Seq<char> {
    row_left(e) + row_right(e)
}

/// The timestamp, victim and PID columns, with the spaces after them.
pub open spec fn row_left(e: EventView) -> Seq<char> {
    pad_end(ts_text(e), 24) + " "@ + pad_end(truncate_spec(e.victim_name, 24), 24) + " "@ + pad_start(
        decimal(e.victim_pid as nat),
        9,
    ) + " "@
}

/// The RSS, scope and cgroup columns, and the line's end.
pub open spec fn row_right(e: EventView) -> Seq<char> {
    pad_start(rss_text(e), 12) + "  "@ + pad_end(scope_word(e.memcg_kill), 7) + " "@ + cgroup_text(e) + "\n"@
}

/// The rows of the table, one per event, in order.
pub open spec fn table_rows(es: Seq<EventView>) -> Seq<char>
    decreases es.len(),
{
    if es.len() == 0 {
        Seq::empty()
    } else {
        table_rows(es.drop_last()) + table_row(es.last())
    }
}

/// The column headings.
pub open spec fn table_heading() -> Seq<char> {
    pad_end("TIMESTAMP"@, 24) + " "@ + pad_end("VICTIM"@, 24) + " "@ + pad_start("PID"@, 9) + " "@
        + pad_start("RSS"@, 12) + "  "@ + pad_end("SCOPE"@, 7) + " "@ + "CGROUP"@ + "\n"@
}

/// The whole table: a comment line, the headings, one row per event.
pub open spec fn table_spec(es: Seq<EventView>, source: Seq<char>) -> Seq<char> {
    "# "@ + decimal(es.len()) + " OOM-kill event"@ + (if es.len() == 1 {
        ""@
    } else {
        "s"@
    }) + " from "@ + source + "\n"@ + table_heading() + table_rows(es)
}

/// The timestamp column's text.
pub open spec fn ts_text(e: EventView) -> Seq<char> {
    match e.timestamp {
        Some(t) => t,
        None => "-"@,
    }
}

/// The RSS column's text.
pub open spec fn rss_text(e: EventView) -> Seq<char> {
    match rss_total_spec(e) {
        Some(kb) => mib_text(kb as nat),
        None => "-"@,
    }
}

/// The cgroup column's text.
pub open spec fn cgroup_text(e: EventView) -> Seq<char> {
    match e.cgroup {
        Some(c) => c,
        None => "-"@,
    }
}

fn push_row_left(out: &mut String, e: &OomEvent)
    ensures
        final(out)@ == old(out)@ + row_left(e@),
{
    let ghost start = out@;
    let mut ts = String::new();
    match &e.timestamp {
        Some(t) => ts.append(t.as_str()),
        None => ts.append("-"),
    }
    assert(ts@ =~= ts_text(e@));
    push_padded_end(out, &ts, 24);
    out.append(" ");
    let name = truncate(e.victim_name.as_str(), 24);
    push_padded_end(out, &name, 24);
    out.append(" ");
    let mut pid = String::new();
    push_decimal(&mut pid, e.victim_pid as u128);
    assert(pid@ =~= decimal(e.victim_pid as nat));
    push_padded_start(out, &pid, 9);
    out.append(" ");
    assert(out@ =~= start + row_left(e@));
}

fn push_row_right(out: &mut String, e: &OomEvent)
    ensures
        final(out)@ == old(out)@ + row_right(e@),
{
    let ghost start = out@;
    let mut rss = String::new();
    match e.rss_total_kb() {
        Some(kb) => push_mib(&mut rss, kb),
        None => rss.append("-"),
    }
    assert(rss@ =~= rss_text(e@));
    push_padded_start(out, &rss, 12);
    out.append("  ");
    let scope = if e.memcg_kill {
        String::from_str("cgroup")
    } else {
        String::from_str("host")
    };
    push_padded_end(out, &scope, 7);
    out.append(" ");
    let mut cg = String::new();
    match &e.cgroup {
        Some(c) => cg.append(c.as_str()),
        None => cg.append("-"),
    }
    assert(cg@ =~= cgroup_text(e@));
    out.append(cg.as_str());
    out.append("\n");
    assert(out@ =~= start + row_right(e@));
}

fn push_row(out: &mut String, e: &OomEvent)
    ensures
        final(out)@ == old(out)@ + table_row(e@),
{
    let ghost start = out@;
    push_row_left(out, e);
    push_row_right(out, e);
    assert(out@ =~= start + table_row(e@));
}

/// Fixed-width columns, greppable and awk-friendly.
pub fn to_table(events: &Vec<OomEvent>, source: &str) -> (out: String)
    ensures
        out@ == table_spec(events_view(events@), source@),
{
    let ghost es = events_view(events@);
    let mut out = String::new();
    out.append("# ");
    push_decimal(&mut out, events.len() as u128);
    out.append(" OOM-kill event");
    if events.len() != 1 {
        out.append("s");
    }
    out.append(" from ");
    out.append(source);
    out.append("\n");
    let heading = heading_text();
    out.append(heading.as_str());
    let ghost head = out@;
    proof {
        reveal_strlit("");
        assert(head =~= "# "@ + decimal(es.len()) + " OOM-kill event"@ + (if es.len() == 1 {
            ""@
        } else {
            "s"@
        }) + " from "@ + source@ + "\n"@ + table_heading());
        assert(es.take(0) =~= Seq::<EventView>::empty());
        assert(out@ =~= head + table_rows(es.take(0)));
    }
    let mut k: usize = 0;
    while k < events.len()
        invariant
            k <= events.len(),
            es == events_view(events@),
            out@ == head + table_rows(es.take(k as int)),
        decreases events.len() - k,
    {
        push_row(&mut out, &events[k]);
        proof {
            assert(es.take(k + 1).drop_last() =~= es.take(k as int));
            assert(es.take(k + 1).last() == events@[k as int]@);
            assert(out@ =~= head + table_rows(es.take(k + 1)));
        }
        k = k + 1;
    }
    assert(es.take(events@.len() as int) =~= es);
    out
}

fn heading_text() -> (r: String)
    ensures
        r@ == table_heading(),
{
    let mut r = String::new();
    push_padded_end(&mut r, &String::from_str("TIMESTAMP"), 24);
    r.append(" ");
    push_padded_end(&mut r, &String::from_str("VICTIM"), 24);
    r.append(" ");
    push_padded_start(&mut r, &String::from_str("PID"), 9);
    r.append(" ");
    push_padded_start(&mut r, &String::from_str("RSS"), 12);
    r.append("  ");
    push_padded_end(&mut r, &String::from_str("SCOPE"), 7);
    r.append(" ");
    r.append("CGROUP");
    r.append("\n");
    assert(r@ =~= table_heading());
    r
}


/// A cut name is never longer than the column.
pub proof fn lemma_truncate_fits(s: Seq<char>, max: nat)
    requires
        max >= 1,
    ensures
        truncate_spec(s, max).len() <= max,
        s.len() <= max ==> truncate_spec(s, max) == s,
{
    reveal_strlit("…");
}

/// Where a row's SCOPE column starts: after the timestamp, victim, PID and
/// RSS columns and the two spaces that follow them.
pub open spec fn scope_column(e: EventView) -> int {
    (row_left(e).len() + pad_start(rss_text(e), 12).len() + 2) as int
}

/// Every row's SCOPE column reads "host" for a kill that was not a
/// memory-cgroup kill and "cgroup" for one that was, padded to the column's
/// seven characters.
pub proof fn lemma_scope_column_reads_the_scope(e: EventView)
    ensures
        table_row(e).subrange(scope_column(e), scope_column(e) + 7) == (if e.memcg_kill {
            "cgroup "@
        } else {
            "host   "@
        }),
{
    reveal_strlit("cgroup");
    reveal_strlit("host");
    reveal_strlit("cgroup ");
    reveal_strlit("host   ");
    reveal_strlit("  ");
    let w = pad_end(scope_word(e.memcg_kill), 7);
    let c = scope_column(e);
    let row = table_row(e);
    assert(row == row_left(e) + pad_start(rss_text(e), 12) + "  "@ + w + " "@ + cgroup_text(e) + "\n"@);
    assert(w.len() == 7);
    assert(row.subrange(c, c + 7) =~= w);
    assert(w =~= (if e.memcg_kill {
        "cgroup "@
    } else {
        "host   "@
    }));
}

} // verus!
