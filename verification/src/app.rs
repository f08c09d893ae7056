//! The interactive console's state, and what each key does to it.
//!
//! Drawing and reading the terminal belong to the program around this
//! library. Here is the state it draws from, every change a key press makes
//! to it, and the requests (quit, reload, switch source) that a key hands back
//! for the program to carry out.

use vstd::prelude::*;
use crate::container::opt_view;
use crate::model::{events_view, EventView, OomEvent};
use crate::source::{BootScope, OptionsView, SourceOptions};
use crate::system::DeviceInfo;
use crate::text::{decimal, push_decimal};

verus! {

#[derive(Debug, Clone, Copy, PartialEq, Eq, Structural)]
pub enum FocusPane {
    Incidents,
    Details,
    Evidence,
}

#[derive(Debug, Clone, Copy, PartialEq, Eq, Structural)]
pub enum Theme {
    Midnight,
    Gruvbox,
    Catppuccin,
}

pub open spec fn theme_next(t: Theme) -> Theme {
    match t {
        Theme::Midnight => Theme::Gruvbox,
        Theme::Gruvbox => Theme::Catppuccin,
        Theme::Catppuccin => Theme::Midnight,
    }
}

pub open spec fn theme_label(t: Theme) -> Seq<char> {
    match t {
        Theme::Midnight => "MIDNIGHT"@,
        Theme::Gruvbox => "GRUVBOX"@,
        Theme::Catppuccin => "CATPPUCCIN"@,
    }
}

/// The theme's name in lower case, as the status line shows it.
pub open spec fn theme_name(t: Theme) -> Seq<char> {
    match t {
        Theme::Midnight => "midnight"@,
        Theme::Gruvbox => "gruvbox"@,
        Theme::Catppuccin => "catppuccin"@,
    }
}

impl Theme {
    pub fn next(self) -> (r: Self)
        ensures
            r == theme_next(self),
    {
        match self {
            Theme::Midnight => Theme::Gruvbox,
            Theme::Gruvbox => Theme::Catppuccin,
            Theme::Catppuccin => Theme::Midnight,
        }
    }

    pub fn label(self) -> (r: &'static str)
        ensures
            r@ == theme_label(self),
    {
        match self {
            Theme::Midnight => "MIDNIGHT",
            Theme::Gruvbox => "GRUVBOX",
            Theme::Catppuccin => "CATPPUCCIN",
        }
    }
}

/// Cycling the theme three times comes back to where it started, through
/// three different palettes.
pub proof fn lemma_theme_cycle(t: Theme)
    ensures
        theme_next(theme_next(theme_next(t))) == t,
        theme_next(t) != t,
        theme_next(theme_next(t)) != t,
{
}

/// The console's navigation state: everything a key press can change short
/// of loading a new source.
pub struct UiState {
    pub selected: Option<usize>,
    pub raw_scroll: u16,
    pub raw_horizontal_scroll: u16,
    pub detail_scroll: u16,
    pub raw_max_scroll: u16,
    pub raw_horizontal_max_scroll: u16,
    pub detail_max_scroll: u16,
    pub focus: FocusPane,
    pub help_visible: bool,
    pub show_landing: bool,
    pub theme: Theme,
    pub evidence_visible: bool,
}

pub struct App {
    pub events: Vec<OomEvent>,
    /// The highlighted incident, an index into `events`.
    pub selected: Option<usize>,
    pub source_description: String,
    /// Scroll offset within the persistent raw-evidence pane.
    pub raw_scroll: u16,
    pub raw_horizontal_scroll: u16,
    pub detail_scroll: u16,
    /// How far each pane can scroll, as last laid out.
    pub raw_max_scroll: u16,
    pub raw_horizontal_max_scroll: u16,
    pub detail_max_scroll: u16,
    pub focus: FocusPane,
    pub help_visible: bool,
    pub show_landing: bool,
    pub theme: Theme,
    /// Whether the layout draws the evidence pane; narrow terminals do not,
    /// and focus then never moves there.
    pub evidence_visible: bool,
    pub device: DeviceInfo,
    pub status: Option<String>,
    /// Kept so `r` can re-query the exact same source, including a `--file`
    /// path or a `--boot`/`--since` window.
    pub source_options: SourceOptions,
    /// Set when the log source could not honour the requested filters.
    pub warning: Option<String>,
}

// ---------------------------------------------------------------------------
// The navigation model

pub open spec fn select_next_spec(u: UiState, n: nat) -> UiState {
    if n == 0 {
        u
    } else {
        UiState {
            selected: Some(
                match u.selected {
                    Some(i) => if i + 1 < n {
                        (i + 1) as usize
                    } else {
                        i
                    },
                    None => 0usize,
                },
            ),
            raw_scroll: 0,
            raw_horizontal_scroll: 0,
            detail_scroll: 0,
            ..u
        }
    }
}

pub open spec fn select_prev_spec(u: UiState, n: nat) -> UiState {
    if n == 0 {
        u
    } else {
        UiState {
            selected: Some(
                match u.selected {
                    Some(i) => if i == 0 {
                        0usize
                    } else {
                        (i - 1) as usize
                    },
                    None => 0usize,
                },
            ),
            raw_scroll: 0,
            raw_horizontal_scroll: 0,
            detail_scroll: 0,
            ..u
        }
    }
}

pub open spec fn focus_next_spec(focus: FocusPane, evidence_visible: bool) -> FocusPane {
    match focus {
        FocusPane::Incidents => FocusPane::Details,
        FocusPane::Details => if evidence_visible {
            FocusPane::Evidence
        } else {
            FocusPane::Incidents
        },
        FocusPane::Evidence => FocusPane::Incidents,
    }
}

/// `pos + delta` clamped into `[0, max]`.
pub open spec fn clamp_scroll(pos: u16, max: u16, delta: i32) -> u16 {
    if pos + delta < 0 {
        0
    } else if pos + delta > max {
        max
    } else {
        (pos + delta) as u16
    }
}

/// How far content of `content` lines (or columns) can scroll in a viewport
/// of `viewport`: the overhang, capped at `u16::MAX`.
pub open spec fn scroll_limit(content: usize, viewport: u16) -> u16 {
    if content <= viewport {
        0
    } else if content - viewport > u16::MAX {
        u16::MAX
    } else {
        (content - viewport) as u16
    }
}

pub open spec fn min_u16(a: u16, b: u16) -> u16 {
    if a <= b {
        a
    } else {
        b
    }
}

/// The navigation state is coherent: the selection points at an incident and
/// no pane is scrolled past its end.
pub open spec fn ui_wf(u: UiState, n: nat) -> bool {
    &&& (u.selected matches Some(i) ==> i < n)
    &&& u.raw_scroll <= u.raw_max_scroll
    &&& u.raw_horizontal_scroll <= u.raw_horizontal_max_scroll
    &&& u.detail_scroll <= u.detail_max_scroll
}

/// What a key asks of the console.
#[derive(Debug, Clone, Copy, PartialEq, Eq, Structural)]
pub enum Key {
    Char(char),
    Esc,
    Tab,
    Up,
    Down,
    Left,
    Right,
    PageUp,
    PageDown,
    Home,
    Other,
}

/// The log sources offered on the landing page.
#[derive(Debug, Clone, Copy, PartialEq, Eq, Structural)]
pub enum QuickSource {
    CurrentBoot,
    AllBoots,
    PrevBoot,
    SampleLog,
}

/// What the program must do after a key, beyond redrawing.
#[derive(Debug, Clone, Copy, PartialEq, Eq, Structural)]
pub enum Action {
    Stay,
    Quit,
    Reload,
    Load(QuickSource),
    Copy(FocusPane),
}

/// The command a key stands for, given the focused pane and whether the help
/// overlay is open (first matching rule wins).
pub enum Command {
    ToggleHelp,
    Quit,
    FocusNext,
    ScrollRaw(i32),
    ScrollRawHorizontal(i32),
    ScrollDetails(i32),
    SelectNext,
    SelectPrev,
    ScrollRawTo(bool),
    ScrollDetailsTo(bool),
    Reload,
    CycleTheme,
    ToggleLanding,
    Load(QuickSource),
    Copy(FocusPane),
    Nothing,
}

pub open spec fn key_command(focus: FocusPane, help_visible: bool, key: Key) -> Command {
    let ev = focus == FocusPane::Evidence;
    let de = focus == FocusPane::Details;
    let inc = focus == FocusPane::Incidents;
    match key {
        Key::Esc => if help_visible {
            Command::ToggleHelp
        } else {
            Command::Quit
        },
        Key::Char('q') => Command::Quit,
        Key::Char('?') => Command::ToggleHelp,
        Key::Tab => Command::FocusNext,
        Key::Down => if ev {
            Command::ScrollRaw(1)
        } else if de {
            Command::ScrollDetails(1)
        } else {
            Command::SelectNext
        },
        Key::Up => if ev {
            Command::ScrollRaw(-1i32)
        } else if de {
            Command::ScrollDetails(-1i32)
        } else {
            Command::SelectPrev
        },
        Key::Right => if ev {
            Command::ScrollRawHorizontal(8)
        } else {
            Command::Nothing
        },
        Key::Left => if ev {
            Command::ScrollRawHorizontal(-8i32)
        } else {
            Command::Nothing
        },
        Key::PageDown => if ev {
            Command::ScrollRaw(20)
        } else if de {
            Command::ScrollDetails(20)
        } else {
            Command::Nothing
        },
        Key::PageUp => if ev {
            Command::ScrollRaw(-20i32)
        } else if de {
            Command::ScrollDetails(-20i32)
        } else {
            Command::Nothing
        },
        Key::Char('g') => if ev {
            Command::ScrollRawTo(false)
        } else if de {
            Command::ScrollDetailsTo(false)
        } else {
            Command::Nothing
        },
        Key::Char('G') => if ev {
            Command::ScrollRawTo(true)
        } else if de {
            Command::ScrollDetailsTo(true)
        } else {
            Command::Nothing
        },
        Key::Char('r') => Command::Reload,
        Key::Char('t') => Command::CycleTheme,
        Key::Char('h') => Command::ToggleLanding,
        Key::Home => Command::ToggleLanding,
        Key::Char('1') => Command::Load(QuickSource::CurrentBoot),
        Key::Char('2') => Command::Load(QuickSource::AllBoots),
        Key::Char('3') => Command::Load(QuickSource::PrevBoot),
        Key::Char('4') => Command::Load(QuickSource::SampleLog),
        Key::Char('c') => Command::Copy(focus),
        _ => Command::Nothing,
    }
}

/// The navigation state after a command.
pub open spec fn apply_command(u: UiState, c: Command, n: nat) -> UiState {
    match c {
        Command::ToggleHelp => UiState { help_visible: !u.help_visible, ..u },
        Command::FocusNext => UiState { focus: focus_next_spec(u.focus, u.evidence_visible), ..u },
        Command::ScrollRaw(d) => UiState { raw_scroll: clamp_scroll(u.raw_scroll, u.raw_max_scroll, d), ..u },
        Command::ScrollRawHorizontal(d) => UiState {
            raw_horizontal_scroll: clamp_scroll(u.raw_horizontal_scroll, u.raw_horizontal_max_scroll, d),
            ..u
        },
        Command::ScrollDetails(d) => UiState {
            detail_scroll: clamp_scroll(u.detail_scroll, u.detail_max_scroll, d),
            ..u
        },
        Command::SelectNext => select_next_spec(u, n),
        Command::SelectPrev => select_prev_spec(u, n),
        Command::ScrollRawTo(end) => UiState {
            raw_scroll: if end {
                u.raw_max_scroll
            } else {
                0
            },
            ..u
        },
        Command::ScrollDetailsTo(end) => UiState {
            detail_scroll: if end {
                u.detail_max_scroll
            } else {
                0
            },
            ..u
        },
        Command::CycleTheme => UiState { theme: theme_next(u.theme), ..u },
        Command::ToggleLanding => UiState { show_landing: !u.show_landing, ..u },
        _ => u,
    }
}

/// The request a command hands back.
pub open spec fn command_action(c: Command) -> Action {
    match c {
        Command::Quit => Action::Quit,
        Command::Reload => Action::Reload,
        Command::Load(q) => Action::Load(q),
        Command::Copy(p) => Action::Copy(p),
        _ => Action::Stay,
    }
}

/// The status line after cycling to theme `t`.
pub open spec fn theme_status(t: Theme) -> Seq<char> {
    "theme — "@ + theme_name(t)
}

/// The source options each quick source stands for; the sample is the
/// built-in demo log, which no options describe.
pub open spec fn quick_source_spec(q: QuickSource) -> Option<OptionsView> {
    match q {
        QuickSource::CurrentBoot => Some(OptionsView { file: None, boot: BootScope::Offset(0), since: None, until: None }),
        QuickSource::AllBoots => Some(OptionsView { file: None, boot: BootScope::All, since: None, until: None }),
        QuickSource::PrevBoot => Some(OptionsView { file: None, boot: BootScope::Offset(-1i32), since: None, until: None }),
        QuickSource::SampleLog => None,
    }
}

/// The source options a quick source stands for; `None` for the built-in
/// sample.
pub fn quick_source_options(q: QuickSource) -> (r: Option<SourceOptions>)
    ensures
        match r {
            Some(o) => quick_source_spec(q) == Some(o@),
            None => quick_source_spec(q) is None,
        },
{
    match q {
        QuickSource::CurrentBoot => Some(SourceOptions { file: None, boot: BootScope::Offset(0), since: None, until: None }),
        QuickSource::AllBoots => Some(SourceOptions { file: None, boot: BootScope::All, since: None, until: None }),
        QuickSource::PrevBoot => Some(SourceOptions { file: None, boot: BootScope::Offset(-1), since: None, until: None }),
        QuickSource::SampleLog => None,
    }
}

/// The status line after a source loaded `count` events.
pub open spec fn loaded_status(count: nat) -> Seq<char> {
    "loaded source — "@ + decimal(count) + " event(s)"@
}

/// The index of the first event whose victim has `pid`.
pub open spec fn first_with_pid(events: Seq<EventView>, pid: u32) -> Option<int> {
    if exists|i: int| 0 <= i < events.len() && #[trigger] events[i].victim_pid == pid {
        Some(
            choose|i: int|
                0 <= i < events.len() && #[trigger] events[i].victim_pid == pid && forall|j: int|
                    0 <= j < i ==> #[trigger] events[j].victim_pid != pid,
        )
    } else {
        None
    }
}

impl App {
    pub open spec fn ui(&self) -> UiState {
        UiState {
            selected: self.selected,
            raw_scroll: self.raw_scroll,
            raw_horizontal_scroll: self.raw_horizontal_scroll,
            detail_scroll: self.detail_scroll,
            raw_max_scroll: self.raw_max_scroll,
            raw_horizontal_max_scroll: self.raw_horizontal_max_scroll,
            detail_max_scroll: self.detail_max_scroll,
            focus: self.focus,
            help_visible: self.help_visible,
            show_landing: self.show_landing,
            theme: self.theme,
            evidence_visible: self.evidence_visible,
        }
    }

    /// Everything but the navigation state is as in `other`.
    pub open spec fn same_data(&self, other: &App) -> bool {
        &&& events_view(self.events@) == events_view(other.events@)
        &&& self.source_description@ == other.source_description@
        &&& self.device == other.device
        &&& opt_view(self.status) == opt_view(other.status)
        &&& self.source_options@ == other.source_options@
        &&& opt_view(self.warning) == opt_view(other.warning)
    }

    pub open spec fn wf(&self) -> bool {
        ui_wf(self.ui(), self.events@.len())
    }

    pub fn new(
        events: Vec<OomEvent>,
        source_description: String,
        source_options: SourceOptions,
        warning: Option<String>,
        device: DeviceInfo,
    ) -> (app: Self)
        ensures
            events_view(app.events@) == events_view(events@),
            app.selected == (if events@.len() == 0 {
                None
            } else {
                Some((events@.len() - 1) as usize)
            }),
            app.show_landing == (events@.len() == 0),
            app.source_description@ == source_description@,
            app.source_options@ == source_options@,
            opt_view(app.warning) == opt_view(warning),
            app.device == device,
            app.status is None,
            app.raw_scroll == 0 && app.raw_horizontal_scroll == 0 && app.detail_scroll == 0,
            app.focus == FocusPane::Incidents,
            !app.help_visible,
            app.theme == Theme::Midnight,
            app.evidence_visible,
            app.wf(),
    {
        let n = events.len();
        let selected = if n > 0 {
            Some(n - 1)  // most recent by default
        } else {
            None
        };
        App {
            events,
            selected,
            source_description,
            raw_scroll: 0,
            raw_horizontal_scroll: 0,
            detail_scroll: 0,
            raw_max_scroll: 0,
            raw_horizontal_max_scroll: 0,
            detail_max_scroll: 0,
            focus: FocusPane::Incidents,
            help_visible: false,
            show_landing: n == 0,
            theme: Theme::Midnight,
            evidence_visible: true,
            device,
            status: None,
            source_options,
            warning,
        }
    }

    pub fn toggle_landing(&mut self)
        ensures
            final(self).ui() == apply_command(old(self).ui(), Command::ToggleLanding, old(self).events@.len()),
            final(self).same_data(old(self)),
            final(self).events@ == old(self).events@,
    {
        self.show_landing = !self.show_landing;
    }

    /// The highlighted incident.
    pub fn selected(&self) -> (r: Option<&OomEvent>)
        ensures
            match self.selected {
                Some(i) => if i < self.events@.len() {
                    r == Some(&self.events@[i as int])
                } else {
                    r is None
                },
                None => r is None,
            },
    {
        match self.selected {
            Some(i) => if i < self.events.len() {
                Some(&self.events[i])
            } else {
                None
            },
            None => None,
        }
    }

    /// Highlights an incident, or none.
    pub fn select(&mut self, index: Option<usize>)
        ensures
            final(self).ui() == (UiState { selected: index, ..old(self).ui() }),
            final(self).same_data(old(self)),
            final(self).events@ == old(self).events@,
    {
        self.selected = index;
    }

    /// Highlights the next incident and rewinds the panes that show it.
    pub fn select_next(&mut self)
        ensures
            final(self).ui() == select_next_spec(old(self).ui(), old(self).events@.len()),
            final(self).same_data(old(self)),
            final(self).events@ == old(self).events@,
    {
        if self.events.len() == 0 {
            return;
        }
        let i = match self.selected {
            Some(i) => if i < self.events.len() - 1 {
                i + 1
            } else {
                i
            },
            None => 0,
        };
        self.selected = Some(i);
        self.raw_scroll = 0;
        self.raw_horizontal_scroll = 0;
        self.detail_scroll = 0;
    }

    /// Highlights the previous incident and rewinds the panes that show it.
    pub fn select_prev(&mut self)
        ensures
            final(self).ui() == select_prev_spec(old(self).ui(), old(self).events@.len()),
            final(self).same_data(old(self)),
            final(self).events@ == old(self).events@,
    {
        if self.events.len() == 0 {
            return;
        }
        let i = match self.selected {
            Some(i) => if i == 0 {
                0
            } else {
                i - 1
            },
            None => 0,
        };
        self.selected = Some(i);
        self.raw_scroll = 0;
        self.raw_horizontal_scroll = 0;
        self.detail_scroll = 0;
    }

    /// Moves focus to the next pane that is drawn.
    pub fn focus_next(&mut self)
        ensures
            final(self).ui() == apply_command(old(self).ui(), Command::FocusNext, old(self).events@.len()),
            final(self).same_data(old(self)),
            final(self).events@ == old(self).events@,
    {
        self.focus = match self.focus {
            FocusPane::Incidents => FocusPane::Details,
            FocusPane::Details => if self.evidence_visible {
                FocusPane::Evidence
            } else {
                FocusPane::Incidents
            },
            FocusPane::Evidence => FocusPane::Incidents,
        };
    }

    pub fn focus_details(&mut self)
        ensures
            final(self).ui() == (UiState { focus: FocusPane::Details, ..old(self).ui() }),
            final(self).same_data(old(self)),
            final(self).events@ == old(self).events@,
    {
        self.focus = FocusPane::Details;
    }

    pub fn focus_evidence(&mut self)
        ensures
            final(self).ui() == (UiState { focus: FocusPane::Evidence, ..old(self).ui() }),
            final(self).same_data(old(self)),
            final(self).events@ == old(self).events@,
    {
        self.focus = FocusPane::Evidence;
    }

    /// Tells the console how wide the terminal is: below 90 columns the
    /// evidence pane is not drawn, and focus leaves it.
    pub fn set_layout_width(&mut self, width: u16)
        ensures
            final(self).ui() == (UiState {
                evidence_visible: width >= 90,
                focus: if width < 90 && old(self).focus == FocusPane::Evidence {
                    FocusPane::Incidents
                } else {
                    old(self).focus
                },
                ..old(self).ui()
            }),
            final(self).same_data(old(self)),
            final(self).events@ == old(self).events@,
    {
        self.evidence_visible = width >= 90;
        if width < 90 && self.focus == FocusPane::Evidence {
            self.focus = FocusPane::Incidents;
        }
    }

    pub fn cycle_theme(&mut self)
        ensures
            final(self).ui() == apply_command(old(self).ui(), Command::CycleTheme, old(self).events@.len()),
            opt_view(final(self).status) == Some(theme_status(theme_next(old(self).theme))),
            events_view(final(self).events@) == events_view(old(self).events@),
            final(self).events@ == old(self).events@,
            final(self).source_description@ == old(self).source_description@,
            final(self).device == old(self).device,
            final(self).source_options@ == old(self).source_options@,
            opt_view(final(self).warning) == opt_view(old(self).warning),
    {
        self.theme = self.theme.next();
        let mut status = String::new();
        status.append("theme — ");
        match self.theme {
            Theme::Midnight => status.append("midnight"),
            Theme::Gruvbox => status.append("gruvbox"),
            Theme::Catppuccin => status.append("catppuccin"),
        }
        self.status = Some(status);
    }

    pub fn toggle_help(&mut self)
        ensures
            final(self).ui() == apply_command(old(self).ui(), Command::ToggleHelp, old(self).events@.len()),
            final(self).same_data(old(self)),
            final(self).events@ == old(self).events@,
    {
        self.help_visible = !self.help_visible;
    }

    /// Records how much the evidence pane can scroll, now that it has been
    /// laid out, and pulls its scroll positions back within that.
    pub fn set_raw_scroll_limits(
        &mut self,
        content_lines: usize,
        viewport_lines: u16,
        max_width: usize,
        viewport_width: u16,
    )
        ensures
            final(self).ui() == (UiState {
                raw_max_scroll: scroll_limit(content_lines, viewport_lines),
                raw_horizontal_max_scroll: scroll_limit(max_width, viewport_width),
                raw_scroll: min_u16(old(self).raw_scroll, scroll_limit(content_lines, viewport_lines)),
                raw_horizontal_scroll: min_u16(
                    old(self).raw_horizontal_scroll,
                    scroll_limit(max_width, viewport_width),
                ),
                ..old(self).ui()
            }),
            final(self).same_data(old(self)),
            final(self).events@ == old(self).events@,
    {
        self.raw_max_scroll = limit_of(content_lines, viewport_lines);
        self.raw_horizontal_max_scroll = limit_of(max_width, viewport_width);
        if self.raw_scroll > self.raw_max_scroll {
            self.raw_scroll = self.raw_max_scroll;
        }
        if self.raw_horizontal_scroll > self.raw_horizontal_max_scroll {
            self.raw_horizontal_scroll = self.raw_horizontal_max_scroll;
        }
    }

    /// Records how far the investigation pane can scroll.
    pub fn set_detail_scroll_limits(&mut self, content_lines: usize, viewport_lines: u16)
        ensures
            final(self).ui() == (UiState {
                detail_max_scroll: scroll_limit(content_lines, viewport_lines),
                detail_scroll: min_u16(old(self).detail_scroll, scroll_limit(content_lines, viewport_lines)),
                ..old(self).ui()
            }),
            final(self).same_data(old(self)),
            final(self).events@ == old(self).events@,
    {
        self.detail_max_scroll = limit_of(content_lines, viewport_lines);
        if self.detail_scroll > self.detail_max_scroll {
            self.detail_scroll = self.detail_max_scroll;
        }
    }

    pub fn scroll_raw(&mut self, delta: i32)
        ensures
            final(self).ui() == apply_command(old(self).ui(), Command::ScrollRaw(delta), old(self).events@.len()),
            final(self).same_data(old(self)),
            final(self).events@ == old(self).events@,
    {
        self.raw_scroll = clamped(self.raw_scroll, self.raw_max_scroll, delta);
    }

    pub fn scroll_raw_horizontal(&mut self, delta: i32)
        ensures
            final(self).ui() == apply_command(
                old(self).ui(),
                Command::ScrollRawHorizontal(delta),
                old(self).events@.len(),
            ),
            final(self).same_data(old(self)),
            final(self).events@ == old(self).events@,
    {
        self.raw_horizontal_scroll = clamped(self.raw_horizontal_scroll, self.raw_horizontal_max_scroll, delta);
    }

    pub fn scroll_raw_to(&mut self, end: bool)
        ensures
            final(self).ui() == apply_command(old(self).ui(), Command::ScrollRawTo(end), old(self).events@.len()),
            final(self).same_data(old(self)),
            final(self).events@ == old(self).events@,
    {
        self.raw_scroll = if end {
            self.raw_max_scroll
        } else {
            0
        };
    }

    pub fn scroll_details(&mut self, delta: i32)
        ensures
            final(self).ui() == apply_command(
                old(self).ui(),
                Command::ScrollDetails(delta),
                old(self).events@.len(),
            ),
            final(self).same_data(old(self)),
            final(self).events@ == old(self).events@,
    {
        self.detail_scroll = clamped(self.detail_scroll, self.detail_max_scroll, delta);
    }

    pub fn scroll_details_to(&mut self, end: bool)
        ensures
            final(self).ui() == apply_command(
                old(self).ui(),
                Command::ScrollDetailsTo(end),
                old(self).events@.len(),
            ),
            final(self).same_data(old(self)),
            final(self).events@ == old(self).events@,
    {
        self.detail_scroll = if end {
            self.detail_max_scroll
        } else {
            0
        };
    }

    /// Carries out a key press: changes the navigation state as the key's
    /// command says, and hands back what the program must do next.
    pub fn handle_key(&mut self, key: Key) -> (action: Action)
        ensures
            final(self).ui() == apply_command(
                old(self).ui(),
                key_command(old(self).focus, old(self).help_visible, key),
                old(self).events@.len(),
            ),
            action == command_action(key_command(old(self).focus, old(self).help_visible, key)),
            final(self).events@ == old(self).events@,
            !(key_command(old(self).focus, old(self).help_visible, key) is CycleTheme) ==> final(self).same_data(old(self)),
            (key_command(old(self).focus, old(self).help_visible, key) is CycleTheme) ==> opt_view(final(self).status) == Some(theme_status(theme_next(old(self).theme))),
    {
        let ev = self.focus == FocusPane::Evidence;
        let de = self.focus == FocusPane::Details;
        match key {
            Key::Esc => {
                if self.help_visible {
                    self.toggle_help();
                    Action::Stay
                } else {
                    Action::Quit
                }
            },
            Key::Char('q') => Action::Quit,
            Key::Char('?') => {
                self.toggle_help();
                Action::Stay
            },
            Key::Tab => {
                self.focus_next();
                Action::Stay
            },
            Key::Down => {
                if ev {
                    self.scroll_raw(1);
                } else if de {
                    self.scroll_details(1);
                } else {
                    self.select_next();
                }
                Action::Stay
            },
            Key::Up => {
                if ev {
                    self.scroll_raw(-1);
                } else if de {
                    self.scroll_details(-1);
                } else {
                    self.select_prev();
                }
                Action::Stay
            },
            Key::Right => {
                if ev {
                    self.scroll_raw_horizontal(8);
                }
                Action::Stay
            },
            Key::Left => {
                if ev {
                    self.scroll_raw_horizontal(-8);
                }
                Action::Stay
            },
            Key::PageDown => {
                if ev {
                    self.scroll_raw(20);
                } else if de {
                    self.scroll_details(20);
                }
                Action::Stay
            },
            Key::PageUp => {
                if ev {
                    self.scroll_raw(-20);
                } else if de {
                    self.scroll_details(-20);
                }
                Action::Stay
            },
            Key::Char('g') => {
                if ev {
                    self.scroll_raw_to(false);
                } else if de {
                    self.scroll_details_to(false);
                }
                Action::Stay
            },
            Key::Char('G') => {
                if ev {
                    self.scroll_raw_to(true);
                } else if de {
                    self.scroll_details_to(true);
                }
                Action::Stay
            },
            Key::Char('r') => Action::Reload,
            Key::Char('t') => {
                self.cycle_theme();
                Action::Stay
            },
            Key::Char('h') | Key::Home => {
                self.toggle_landing();
                Action::Stay
            },
            Key::Char('1') => Action::Load(QuickSource::CurrentBoot),
            Key::Char('2') => Action::Load(QuickSource::AllBoots),
            Key::Char('3') => Action::Load(QuickSource::PrevBoot),
            Key::Char('4') => Action::Load(QuickSource::SampleLog),
            Key::Char('c') => Action::Copy(self.focus),
            _ => Action::Stay,
        }
    }

    /// Shows what a source just loaded: its events replace the old ones, the
    /// incident that was highlighted stays highlighted when its victim's PID
    /// is still there (else the newest is), and the landing page gives way
    /// when there is something to show.
    pub fn apply_loaded(
        &mut self,
        events: Vec<OomEvent>,
        source_description: String,
        warning: Option<String>,
        options: SourceOptions,
    )
        ensures
            events_view(final(self).events@) == events_view(events@),
            final(self).source_description@ == source_description@,
            opt_view(final(self).warning) == opt_view(warning),
            final(self).source_options@ == options@,
            final(self).device == old(self).device,
            opt_view(final(self).status) == Some(loaded_status(events@.len() as nat)),
            final(self).selected matches Some(i) ==> i < final(self).events@.len(),
            final(self).ui() == (UiState {
                show_landing: if events@.len() > 0 {
                    false
                } else {
                    old(self).show_landing
                },
                selected: if events@.len() == 0 {
                    None
                } else {
                    match (
                        match old(self).selected {
                            Some(i) => if i < old(self).events@.len() {
                                first_with_pid(events_view(events@), old(self).events@[i as int].victim_pid)
                            } else {
                                None
                            },
                            None => None,
                        }
                    ) {
                        Some(k) => Some(k as usize),
                        None => Some((events@.len() - 1) as usize),
                    }
                },
                ..old(self).ui()
            }),
    {
        let previous: Option<u32> = match self.selected() {
            Some(e) => Some(e.victim_pid),
            None => None,
        };
        let n = events.len();
        let index: Option<usize> = if n == 0 {
            None
        } else {
            let found = match previous {
                Some(pid) => position_of_pid(&events, pid),
                None => None,
            };
            match found {
                Some(k) => Some(k),
                None => Some(n - 1),
            }
        };
        let mut status = String::new();
        status.append("loaded source — ");
        push_decimal(&mut status, n as u128);
        status.append(" event(s)");
        self.events = events;
        self.source_options = options;
        self.source_description = source_description;
        self.warning = warning;
        self.status = Some(status);
        if n > 0 {
            self.show_landing = false;
        }
        self.selected = index;
    }

    /// Reports a source that could not be read; what is on screen stays.
    pub fn load_failed(&mut self, message: &str)
        ensures
            opt_view(final(self).status) == Some("source load failed: "@ + message@),
            final(self).ui() == old(self).ui(),
            final(self).events@ == old(self).events@,
            final(self).source_description@ == old(self).source_description@,
            final(self).device == old(self).device,
            final(self).source_options@ == old(self).source_options@,
            opt_view(final(self).warning) == opt_view(old(self).warning),
    {
        let mut status = String::new();
        status.append("source load failed: ");
        status.append(message);
        self.status = Some(status);
    }
}

/// The index of the first event whose victim has `pid`.
fn position_of_pid(events: &Vec<OomEvent>, pid: u32) -> (r: Option<usize>)
    ensures
        match r {
            Some(k) => first_with_pid(events_view(events@), pid) == Some(k as int) && k < events@.len(),
            None => first_with_pid(events_view(events@), pid) is None,
        },
{
    let ghost ev = events_view(events@);
    let mut k: usize = 0;
    while k < events.len()
        invariant
            k <= events.len(),
            ev == events_view(events@),
            forall|j: int| 0 <= j < k ==> #[trigger] ev[j].victim_pid != pid,
        decreases events.len() - k,
    {
        assert(ev[k as int] == events@[k as int]@);
        if events[k].victim_pid == pid {
            proof {
                let w = choose|i: int|
                    0 <= i < ev.len() && #[trigger] ev[i].victim_pid == pid && forall|j: int|
                        0 <= j < i ==> #[trigger] ev[j].victim_pid != pid;
                assert(0 <= k < ev.len() && ev[k as int].victim_pid == pid && forall|j: int|
                    0 <= j < k ==> #[trigger] ev[j].victim_pid != pid);
                if w < k {
                } else if w > k {
                    assert(ev[k as int].victim_pid != pid);
                }
            }
            return Some(k);
        }
        k = k + 1;
    }
    None
}

/// `scroll_limit`, computed.
fn limit_of(content: usize, viewport: u16) -> (r: u16)
    ensures
        r == scroll_limit(content, viewport),
{
    if content <= viewport as usize {
        0
    } else if content - (viewport as usize) > 65535 {
        65535
    } else {
        (content - viewport as usize) as u16
    }
}

/// `clamp_scroll`, computed.
fn clamped(pos: u16, max: u16, delta: i32) -> (r: u16)
    ensures
        r == clamp_scroll(pos, max, delta),
{
    let v: i64 = pos as i64 + delta as i64;
    if v < 0 {
        0
    } else if v > max as i64 {
        max
    } else {
        v as u16
    }
}

/// Every key keeps the navigation state coherent.
pub proof fn lemma_keys_keep_ui_wf(u: UiState, key: Key, n: nat)
    requires
        ui_wf(u, n),
    ensures
        ui_wf(apply_command(u, key_command(u.focus, u.help_visible, key), n), n),
{
}

/// With the evidence pane drawn, `Tab` visits every pane and comes back in
/// three presses; without it, `Tab` never lands on it.
pub proof fn lemma_focus_cycle(focus: FocusPane, evidence_visible: bool)
    ensures
        evidence_visible ==> focus_next_spec(focus_next_spec(focus_next_spec(focus, true), true), true) == focus,
        evidence_visible ==> focus_next_spec(focus, true) != focus,
        !evidence_visible ==> focus_next_spec(focus, false) != FocusPane::Evidence,
{
}

/// Changing the highlighted incident rewinds the evidence and investigation
/// panes, and the selection stays on an incident.
pub proof fn lemma_selection_moves(u: UiState, n: nat)
    requires
        n > 0,
        u.selected matches Some(i) ==> i < n,
    ensures
        select_next_spec(u, n).selected matches Some(i) && i < n,
        select_prev_spec(u, n).selected matches Some(i) && i < n,
        select_next_spec(u, n).raw_scroll == 0 && select_next_spec(u, n).detail_scroll == 0,
        select_prev_spec(u, n).raw_scroll == 0 && select_prev_spec(u, n).detail_scroll == 0,
{
}

/// Scrolling never leaves a pane past its end, and scrolling back undoes a
/// scroll that did not hit an end.
pub proof fn lemma_scroll_bounds(pos: u16, max: u16, delta: i32)
    requires
        pos <= max,
    ensures
        clamp_scroll(pos, max, delta) <= max,
        (0 <= pos + delta <= max && i32::MIN < delta) ==> clamp_scroll(
            clamp_scroll(pos, max, delta),
            max,
            (-delta) as i32,
        ) == pos,
{
}

} // verus!
