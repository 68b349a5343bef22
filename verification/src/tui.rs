//! The state of the live view of a watched file: its entries, their error and warning
//! counts, and how far it is scrolled.

use vstd::prelude::*;
use crate::parser::{LogEntry, EntryView, LogLevel};
use crate::text::chars_of;
use crate::trusted::{string_of};
use crate::style::{Color, Styled, StyledView, styled_views, fg, fg_bold, plain, styled, style_fg, style_fg_bold, style_plain};
use crate::correlator::{clock_text, clock_string};

verus! {

/// The label of a level in the live view, and its color.
pub open spec fn live_label(l: LogLevel) -> (Seq<char>, Color) {
    match l {
        LogLevel::Fatal => (" FATAL"@, Color::Red),
        LogLevel::Error => (" ERROR"@, Color::Red),
        LogLevel::Warn => ("  WARN"@, Color::Yellow),
        LogLevel::Info => ("  INFO"@, Color::Green),
        LogLevel::Debug => (" DEBUG"@, Color::Cyan),
        LogLevel::Trace => (" TRACE"@, Color::DarkGray),
        LogLevel::Unknown => ("   ???"@, Color::DarkGray),
    }
}

/// The color of an entry's message in the live view.
pub open spec fn live_message_color(l: LogLevel) -> Color {
    match l {
        LogLevel::Fatal | LogLevel::Error => Color::Red,
        LogLevel::Warn => Color::Yellow,
        LogLevel::Debug | LogLevel::Trace => Color::DarkGray,
        _ => Color::Default,
    }
}

/// One line of the live view: clock time, level label and message, two spaces apart.
pub open spec fn list_item_of(e: EntryView) -> Seq<StyledView> {
    let lv = live_label(e.level);
    seq![
        StyledView { text: clock_text(e.timestamp), style: fg(Color::DarkGray) },
        StyledView { text: "  "@, style: plain() },
        StyledView { text: lv.0, style: fg_bold(lv.1) },
        StyledView { text: "  "@, style: plain() },
        StyledView { text: e.message, style: fg(live_message_color(e.level)) },
    ]
}

/// The styled pieces of an entry's line in the live view.
pub fn entry_to_listitem(entry: &LogEntry) -> (r: Vec<Styled>)
    ensures
        styled_views(r@) == list_item_of(entry@),
{
    let (label, color) = match entry.level {
        LogLevel::Fatal => (" FATAL", Color::Red),
        LogLevel::Error => (" ERROR", Color::Red),
        LogLevel::Warn => ("  WARN", Color::Yellow),
        LogLevel::Info => ("  INFO", Color::Green),
        LogLevel::Debug => (" DEBUG", Color::Cyan),
        LogLevel::Trace => (" TRACE", Color::DarkGray),
        LogLevel::Unknown => ("   ???", Color::DarkGray),
    };
    let msg_color = match entry.level {
        LogLevel::Fatal | LogLevel::Error => Color::Red,
        LogLevel::Warn => Color::Yellow,
        LogLevel::Debug | LogLevel::Trace => Color::DarkGray,
        _ => Color::Default,
    };
    let mut out: Vec<Styled> = Vec::new();
    out.push(styled(clock_string(entry.timestamp), style_fg(Color::DarkGray)));
    out.push(styled(string_of(chars_of("  ").as_slice()), style_plain()));
    out.push(styled(string_of(chars_of(label).as_slice()), style_fg_bold(color)));
    out.push(styled(string_of(chars_of("  ").as_slice()), style_plain()));
    out.push(styled(entry.message.clone(), style_fg(msg_color)));
    assert(styled_views(out@) =~= list_item_of(entry@));
    out
}

/// Where the view starts before a frame: at the last page when the entries overflow a view of
/// `height` lines and the last entry was in view; else where it was.
pub open spec fn followed(scroll: nat, len: nat, height: nat) -> nat {
    if len > height && scroll + height >= len {
        (len - height) as nat
    } else {
        scroll
    }
}

/// Where the view starts after one line up.
pub open spec fn scrolled_up(scroll: nat) -> nat {
    if scroll > 0 {
        (scroll - 1) as nat
    } else {
        0
    }
}

/// A key the live view answers: quit (q or Q), one line up or down, or anything else.
pub enum Key {
    Quit,
    Up,
    Down,
    Other,
}

/// Where the view starts after one line down in a view of `height` lines.
pub open spec fn scrolled_down(scroll: nat, len: nat, height: nat) -> nat {
    if scroll + height < len {
        scroll + 1
    } else {
        scroll
    }
}

/// The live view's state.
pub struct App {
    pub filename: String,
    pub entries: Vec<LogEntry>,
    pub errors: usize,
    pub warns: usize,
    /// Index of the first entry shown.
    pub scroll: usize,
}

impl App {
    pub fn new(filename: &str) -> (r: App)
        ensures
            r.filename@ == filename@,
            r.entries@.len() == 0,
            r.errors == 0,
            r.warns == 0,
            r.scroll == 0,
    {
        App {
            filename: string_of(chars_of(filename).as_slice()),
            entries: Vec::new(),
            errors: 0,
            warns: 0,
            scroll: 0,
        }
    }

    /// Adds an entry, counting it as an error (rank 4 and above) or a warning (rank 3).
    pub fn push(&mut self, entry: LogEntry)
        requires
            old(self).errors < usize::MAX,
            old(self).warns < usize::MAX,
        ensures
            final(self).entries@ == old(self).entries@.push(entry),
            final(self).errors == old(self).errors + if entry.level.rank() >= 4 { 1int } else { 0int },
            final(self).warns == old(self).warns + if entry.level.rank() == 3 { 1int } else { 0int },
            final(self).scroll == old(self).scroll,
            final(self).filename == old(self).filename,
    {
        if entry.level.priority() >= 4 {
            self.errors = self.errors + 1;
        }
        if entry.level.priority() == 3 {
            self.warns = self.warns + 1;
        }
        self.entries.push(entry);
    }

    /// Scrolls so that the last `visible_lines` entries are shown.
    pub fn scroll_to_bottom(&mut self, visible_lines: usize)
        ensures
            final(self).scroll == if old(self).entries@.len() > visible_lines {
                old(self).entries@.len() - visible_lines
            } else {
                0
            },
            final(self).entries == old(self).entries,
            final(self).errors == old(self).errors,
            final(self).warns == old(self).warns,
            final(self).filename == old(self).filename,
    {
        if self.entries.len() > visible_lines {
            self.scroll = self.entries.len() - visible_lines;
        } else {
            self.scroll = 0;
        }
    }

    /// Before each frame: when the last entry is in view and the entries fill more than the
    /// view, the view starts at the last page; a view scrolled up stays where it is.
    pub fn follow(&mut self, log_height: usize)
        ensures
            final(self).scroll == followed(old(self).scroll as nat, old(self).entries@.len(), log_height as nat),
            final(self).entries == old(self).entries,
            final(self).errors == old(self).errors,
            final(self).warns == old(self).warns,
            final(self).filename == old(self).filename,
    {
        let len = self.entries.len();
        if len > log_height && self.scroll >= len - log_height {
            self.scroll = len - log_height;
        }
    }

    /// One line up, unless at the top.
    pub fn scroll_up(&mut self)
        ensures
            final(self).scroll == scrolled_up(old(self).scroll as nat),
            final(self).entries == old(self).entries,
            final(self).errors == old(self).errors,
            final(self).warns == old(self).warns,
            final(self).filename == old(self).filename,
    {
        if self.scroll > 0 {
            self.scroll = self.scroll - 1;
        }
    }

    /// One line down, unless the last entry is already in a view of `log_height` lines.
    pub fn scroll_down(&mut self, log_height: usize)
        requires
            old(self).scroll + log_height <= usize::MAX,
        ensures
            final(self).scroll == scrolled_down(old(self).scroll as nat, old(self).entries@.len(), log_height as nat),
            final(self).entries == old(self).entries,
            final(self).errors == old(self).errors,
            final(self).warns == old(self).warns,
            final(self).filename == old(self).filename,
    {
        if self.scroll + log_height < self.entries.len() {
            self.scroll = self.scroll + 1;
        }
    }

    /// Answers a key in a view of `log_height` lines: up or down one line, or nothing;
    /// returns whether the key asks to quit.
    pub fn on_key(&mut self, key: Key, log_height: usize) -> (quit: bool)
        requires
            key is Down ==> old(self).scroll + log_height <= usize::MAX,
        ensures
            quit == (key is Quit),
            final(self).scroll == match key {
                Key::Up => scrolled_up(old(self).scroll as nat),
                Key::Down => scrolled_down(old(self).scroll as nat, old(self).entries@.len(), log_height as nat),
                _ => old(self).scroll as nat,
            },
            final(self).entries == old(self).entries,
            final(self).errors == old(self).errors,
            final(self).warns == old(self).warns,
            final(self).filename == old(self).filename,
    {
        match key {
            Key::Quit => true,
            Key::Up => {
                self.scroll_up();
                false
            },
            Key::Down => {
                self.scroll_down(log_height);
                false
            },
            Key::Other => false,
        }
    }
}

} // verus!
