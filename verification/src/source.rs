//! Which log backend to ask, and how to ask it.
//!
//! The reading itself (running `journalctl`/`dmesg`, opening files) belongs
//! to the program around this library; what is decided here is the exact
//! invocation, how each source is described to the user, and when a source
//! could not honour the requested filters.

use vstd::prelude::*;
use crate::container::opt_view;
use crate::model::strings_view;
use crate::text::{decimal_int, push_decimal_signed, trim};

verus! {

/// Which slice of history to ask the log backend for.
///
/// This matters more than it looks. `journalctl -k` implies `-b`, i.e. the
/// current boot only - so a kill that *caused* a reboot is invisible by
/// default, which is exactly the incident people most want to investigate.
/// `-k` is really just `_TRANSPORT=kernel` plus that implicit `-b`, so asking
/// for the transport directly is what unlocks previous boots.
#[derive(Debug, Clone, Copy, PartialEq, Eq, Structural)]
pub enum BootScope {
    /// Current boot only (the `journalctl -k` default).
    Current,
    /// A specific boot offset: 0 is current, -1 the previous one, and so on.
    Offset(i32),
    /// Every boot the journal still retains.
    All,
}

impl Default for BootScope {
    fn default() -> (r: Self)
        ensures
            r == BootScope::Current,
    {
        BootScope::Current
    }
}

/// How the caller wants logs located.
#[derive(Debug, Clone)]
pub struct SourceOptions {
    /// Explicit file path, or `-` for stdin.
    pub file: Option<String>,
    pub boot: BootScope,
    /// Passed through to `journalctl --since` (e.g. "2 days ago", "2026-07-01").
    pub since: Option<String>,
    /// Passed through to `journalctl --until`.
    pub until: Option<String>,
}

/// The abstract value of [`SourceOptions`].
pub struct OptionsView {
    pub file: Option<Seq<char>>,
    pub boot: BootScope,
    pub since: Option<Seq<char>>,
    pub until: Option<Seq<char>>,
}

impl View for SourceOptions {
    type V = OptionsView;

    open spec fn view(&self) -> OptionsView {
        OptionsView {
            file: opt_view(self.file),
            boot: self.boot,
            since: opt_view(self.since),
            until: opt_view(self.until),
        }
    }
}

impl Default for SourceOptions {
    fn default() -> (r: Self)
        ensures
            r@ == (OptionsView { file: None, boot: BootScope::Current, since: None, until: None }),
    {
        SourceOptions { file: None, boot: BootScope::Current, since: None, until: None }
    }
}

/// True when the caller asked for something only journalctl can answer.
pub open spec fn needs_journal_spec(o: OptionsView) -> bool {
    o.boot != BootScope::Current || o.since is Some || o.until is Some
}

impl SourceOptions {
    /// The options the command line asks for: `--all-boots` wins over a boot
    /// offset, and no boot option means the current boot.
    pub fn from_args(
        file: Option<String>,
        boot: Option<i32>,
        all_boots: bool,
        since: Option<String>,
        until: Option<String>,
    ) -> (r: Self)
        ensures
            r@ == (OptionsView {
                file: opt_view(file),
                boot: if all_boots {
                    BootScope::All
                } else {
                    match boot {
                        Some(n) => BootScope::Offset(n),
                        None => BootScope::Current,
                    }
                },
                since: opt_view(since),
                until: opt_view(until),
            }),
    {
        let scope = if all_boots {
            BootScope::All
        } else {
            match boot {
                Some(n) => BootScope::Offset(n),
                None => BootScope::Current,
            }
        };
        SourceOptions { file, boot: scope, since, until }
    }

    /// True when the caller asked for something only journalctl can answer.
    /// Used to explain why a fallback source may be missing events.
    pub fn needs_journal(&self) -> (r: bool)
        ensures
            r == needs_journal_spec(self@),
    {
        !(self.boot == BootScope::Current) || self.since.is_some() || self.until.is_some()
    }
}

/// Where the raw log text ultimately came from - shown in the UI so the
/// user knows what they're looking at (and why it might be empty/stale).
#[derive(Debug, Clone)]
pub struct LogSource {
    pub description: String,
    pub text: String,
    /// True when this text came from the running machine's current boot, which
    /// is the only case where kernel uptime stamps can be anchored to wall time.
    pub is_live_local: bool,
    /// Set when we had to fall back to a source that cannot honour the
    /// requested boot/time range, so the UI can say so rather than quietly
    /// showing the wrong window of history.
    pub warning: Option<String>,
}

/// The journalctl arguments for the requested scope.
pub open spec fn journalctl_args_spec(o: OptionsView) -> Seq<Seq<char>> {
    let scope = match o.boot {
        BootScope::Current => seq!["-k"@],
        BootScope::Offset(n) => seq!["-k"@, "-b"@, decimal_int(n as int)],
        BootScope::All => seq!["_TRANSPORT=kernel"@],
    };
    let since = match o.since {
        Some(s) => seq!["--since"@, s],
        None => Seq::empty(),
    };
    let until = match o.until {
        Some(u) => seq!["--until"@, u],
        None => Seq::empty(),
    };
    scope + since + until + seq!["-o"@, "short"@, "--no-pager"@]
}

fn push_arg(args: &mut Vec<String>, a: String)
    ensures
        strings_view(final(args)@) == strings_view(old(args)@).push(a@),
{
    args.push(a);
    assert(strings_view(args@) =~= strings_view(old(args)@).push(a@));
}

/// Build the journalctl invocation for the requested scope.
///
/// `-o short` is deliberate: it emits the traditional syslog-style timestamp
/// the parser understands. `short-iso` would need separate handling.
pub fn journalctl_args(opts: &SourceOptions) -> (args: Vec<String>)
    ensures
        strings_view(args@) == journalctl_args_spec(opts@),
{
    let mut args: Vec<String> = Vec::new();
    proof {
        assert(strings_view(args@) =~= Seq::<Seq<char>>::empty());
    }
    match opts.boot {
        // `-k` is the well-trodden path for the common case.
        BootScope::Current => push_arg(&mut args, String::from_str("-k")),
        BootScope::Offset(n) => {
            push_arg(&mut args, String::from_str("-k"));
            push_arg(&mut args, String::from_str("-b"));
            let mut number = String::new();
            push_decimal_signed(&mut number, n as i64);
            assert(number@ =~= decimal_int(n as int));
            push_arg(&mut args, number);
        },
        // `-k` would re-impose the current boot, so match the transport directly.
        BootScope::All => push_arg(&mut args, String::from_str("_TRANSPORT=kernel")),
    }
    let ghost scope = strings_view(args@);
    match &opts.since {
        Some(since) => {
            push_arg(&mut args, String::from_str("--since"));
            push_arg(&mut args, since.clone());
        },
        None => {},
    }
    let ghost with_since = strings_view(args@);
    match &opts.until {
        Some(until) => {
            push_arg(&mut args, String::from_str("--until"));
            push_arg(&mut args, until.clone());
        },
        None => {},
    }
    push_arg(&mut args, String::from_str("-o"));
    push_arg(&mut args, String::from_str("short"));
    push_arg(&mut args, String::from_str("--no-pager"));
    proof {
        let spec = journalctl_args_spec(opts@);
        assert(strings_view(args@) =~= spec);
    }
    args
}

/// How a journal query is described to the user.
pub open spec fn describe_journal_spec(o: OptionsView) -> Seq<char> {
    let scope = match o.boot {
        BootScope::Current => "current boot"@,
        BootScope::Offset(n) => "boot "@ + decimal_int(n as int),
        BootScope::All => "all boots"@,
    };
    let since = match o.since {
        Some(s) => " since "@ + s,
        None => Seq::empty(),
    };
    let until = match o.until {
        Some(u) => " until "@ + u,
        None => Seq::empty(),
    };
    "journalctl ("@ + scope + ")"@ + since + until
}

/// How a journal query is described to the user.
pub fn describe_journal(opts: &SourceOptions) -> (desc: String)
    ensures
        desc@ == describe_journal_spec(opts@),
{
    let mut desc = String::new();
    desc.append("journalctl (");
    match opts.boot {
        BootScope::Current => desc.append("current boot"),
        BootScope::Offset(n) => {
            desc.append("boot ");
            push_decimal_signed(&mut desc, n as i64);
        },
        BootScope::All => desc.append("all boots"),
    }
    desc.append(")");
    match &opts.since {
        Some(since) => {
            desc.append(" since ");
            desc.append(since.as_str());
        },
        None => {},
    }
    match &opts.until {
        Some(until) => {
            desc.append(" until ");
            desc.append(until.as_str());
        },
        None => {},
    }
    proof {
        reveal_strlit("");
        let spec = describe_journal_spec(opts@);
        assert(desc@ =~= spec);
    }
    desc
}

/// The warning a fallback source carries when filters were asked for.
pub open spec fn fallback_warning_spec(o: OptionsView) -> Option<Seq<char>> {
    if needs_journal_spec(o) {
        Some("journalctl unavailable - boot/time filters were ignored by this source"@)
    } else {
        None
    }
}

/// The warning for every source tried after journalctl: none of them can
/// honour `--boot`/`--since`, so say so instead of implying we did.
pub fn fallback_warning(opts: &SourceOptions) -> (w: Option<String>)
    ensures
        opt_view(w) == fallback_warning_spec(opts@),
{
    if opts.needs_journal() {
        Some(String::from_str("journalctl unavailable - boot/time filters were ignored by this source"))
    } else {
        None
    }
}

/// Whether a boot scope is the running machine's current boot: `Current`, or
/// offset 0.
pub open spec fn is_current_boot(b: BootScope) -> bool {
    b == BootScope::Current || b == BootScope::Offset(0)
}

/// The source that journalctl's output makes.
pub fn journal_source(opts: &SourceOptions, text: String) -> (r: LogSource)
    ensures
        r.description@ == describe_journal_spec(opts@),
        r.text@ == text@,
        r.is_live_local == is_current_boot(opts.boot),
        r.warning is None,
{
    let live = match opts.boot {
        BootScope::Current => true,
        BootScope::Offset(n) => n == 0,
        BootScope::All => false,
    };
    LogSource { description: describe_journal(opts), text, is_live_local: live, warning: None }
}

/// The source that `dmesg` makes (`-T` when `human_times`): the running
/// machine's ring buffer, which no filter reaches.
pub fn dmesg_source(opts: &SourceOptions, human_times: bool, text: String) -> (r: LogSource)
    ensures
        r.description@ == (if human_times {
            "dmesg -T"@
        } else {
            "dmesg"@
        }),
        r.text@ == text@,
        r.is_live_local,
        opt_view(r.warning) == fallback_warning_spec(opts@),
{
    let description = if human_times {
        String::from_str("dmesg -T")
    } else {
        String::from_str("dmesg")
    };
    LogSource { description, text, is_live_local: true, warning: fallback_warning(opts) }
}

/// The source that a log file read on the caller's behalf makes: from `-`
/// (stdin) or a path the user named, or one of the system log files tried
/// last (`fallback`, which carries the fallback warning).
pub fn file_source(opts: &SourceOptions, path: &str, fallback: bool, text: String) -> (r: LogSource)
    ensures
        r.description@ == (if !fallback && path@ == "-"@ {
            "stdin"@
        } else {
            "file: "@ + path@
        }),
        r.text@ == text@,
        !r.is_live_local,
        opt_view(r.warning) == (if fallback {
            fallback_warning_spec(opts@)
        } else {
            None
        }),
{
    let pv = crate::text::chars_of(path);
    let stdin = !fallback && pv.len() == 1 && pv[0] == '-';
    proof {
        reveal_strlit("-");
        if path@ == "-"@ {
            assert(pv@.len() == 1 && pv@[0] == '-');
        }
        if pv@.len() == 1 && pv@[0] == '-' {
            assert(path@ =~= "-"@);
        }
    }
    let mut description = String::new();
    if stdin {
        description.append("stdin");
    } else {
        description.append("file: ");
        description.append(path);
    }
    proof {
        reveal_strlit("-");
        reveal_strlit("stdin");
    }
    let warning = if fallback {
        fallback_warning(opts)
    } else {
        None
    };
    LogSource { description, text, is_live_local: false, warning }
}

/// The output of a command, if it succeeded and printed more than white space.
pub fn usable_output(success: bool, text: String) -> (r: Option<String>)
    ensures
        opt_view(r) == (if success && trim(text@).len() > 0 {
            Some(text@)
        } else {
            None
        }),
{
    if !success {
        return None;
    }
    let v = crate::text::chars_of(text.as_str());
    let (a, b) = crate::text::trim_bounds(&v, 0, v.len());
    assert(v@.subrange(0, v@.len() as int) =~= v@);
    if a == b {
        None
    } else {
        Some(text)
    }
}

/// A log source to try.
#[derive(Debug, Clone, Copy, PartialEq, Eq, Structural)]
pub enum Attempt {
    /// The file the user named (or stdin, for `-`); nothing else is tried.
    File,
    Journal,
    /// `dmesg -T`, with human-readable times.
    DmesgHuman,
    Dmesg,
    SyslogFile,
    MessagesFile,
    /// Nothing readable was found.
    GiveUp,
}

/// The order sources are tried in: a named file alone; otherwise journalctl,
/// `dmesg -T`, `dmesg`, `/var/log/syslog`, `/var/log/messages`.
pub open spec fn next_attempt_spec(a: Attempt) -> Attempt {
    match a {
        Attempt::File => Attempt::GiveUp,
        Attempt::Journal => Attempt::DmesgHuman,
        Attempt::DmesgHuman => Attempt::Dmesg,
        Attempt::Dmesg => Attempt::SyslogFile,
        Attempt::SyslogFile => Attempt::MessagesFile,
        Attempt::MessagesFile => Attempt::GiveUp,
        Attempt::GiveUp => Attempt::GiveUp,
    }
}

/// The first source to try.
pub fn first_attempt(opts: &SourceOptions) -> (r: Attempt)
    ensures
        r == (if opts@.file is Some {
            Attempt::File
        } else {
            Attempt::Journal
        }),
{
    if opts.file.is_some() {
        Attempt::File
    } else {
        Attempt::Journal
    }
}

/// The source to try after `a` gave nothing readable.
pub fn next_attempt(a: Attempt) -> (r: Attempt)
    ensures
        r == next_attempt_spec(a),
{
    match a {
        Attempt::File => Attempt::GiveUp,
        Attempt::Journal => Attempt::DmesgHuman,
        Attempt::DmesgHuman => Attempt::Dmesg,
        Attempt::Dmesg => Attempt::SyslogFile,
        Attempt::SyslogFile => Attempt::MessagesFile,
        Attempt::MessagesFile => Attempt::GiveUp,
        Attempt::GiveUp => Attempt::GiveUp,
    }
}

/// The abstract value of a [`LogSource`].
pub struct SourceView {
    pub description: Seq<char>,
    pub text: Seq<char>,
    pub is_live_local: bool,
    pub warning: Option<Seq<char>>,
}

impl View for LogSource {
    type V = SourceView;

    open spec fn view(&self) -> SourceView {
        SourceView {
            description: self.description@,
            text: self.text@,
            is_live_local: self.is_live_local,
            warning: opt_view(self.warning),
        }
    }
}

/// The source that the text read for `attempt` makes.
pub open spec fn source_from(o: OptionsView, boot: BootScope, attempt: Attempt, text: Seq<char>) -> SourceView {
    match attempt {
        Attempt::Journal => SourceView {
            description: describe_journal_spec(o),
            text,
            is_live_local: is_current_boot(boot),
            warning: None,
        },
        Attempt::DmesgHuman => SourceView {
            description: "dmesg -T"@,
            text,
            is_live_local: true,
            warning: fallback_warning_spec(o),
        },
        Attempt::Dmesg => SourceView {
            description: "dmesg"@,
            text,
            is_live_local: true,
            warning: fallback_warning_spec(o),
        },
        Attempt::SyslogFile => SourceView {
            description: "file: "@ + "/var/log/syslog"@,
            text,
            is_live_local: false,
            warning: fallback_warning_spec(o),
        },
        _ => SourceView {
            description: "file: "@ + "/var/log/messages"@,
            text,
            is_live_local: false,
            warning: fallback_warning_spec(o),
        },
    }
}

/// What comes after reading a source.
pub enum SourceStep {
    /// The read gave usable text: this is the source.
    Found(LogSource),
    /// It gave nothing: try this next.
    Try(Attempt),
    /// It gave nothing, and nothing is left to try.
    Exhausted,
}

/// The step after `attempt` (one of the sources tried in turn, not the
/// user's file) gave `text`, or nothing: the source it makes, or the next
/// source to try, or the end of the list.
pub fn after_read(opts: &SourceOptions, attempt: Attempt, text: Option<String>) -> (r: SourceStep)
    requires
        attempt != Attempt::File,
        attempt != Attempt::GiveUp,
    ensures
        match text {
            Some(t) => r matches SourceStep::Found(s) && s@ == source_from(opts@, opts.boot, attempt, t@),
            None => if next_attempt_spec(attempt) == Attempt::GiveUp {
                r is Exhausted
            } else {
                r == SourceStep::Try(next_attempt_spec(attempt))
            },
        },
{
    match text {
        Some(t) => SourceStep::Found(
            match attempt {
                Attempt::Journal => journal_source(opts, t),
                Attempt::DmesgHuman => dmesg_source(opts, true, t),
                Attempt::Dmesg => dmesg_source(opts, false, t),
                Attempt::SyslogFile => file_source(opts, "/var/log/syslog", true, t),
                _ => file_source(opts, "/var/log/messages", true, t),
            },
        ),
        None => {
            let next = next_attempt(attempt);
            if next == Attempt::GiveUp {
                SourceStep::Exhausted
            } else {
                SourceStep::Try(next)
            }
        },
    }
}

} // verus!
