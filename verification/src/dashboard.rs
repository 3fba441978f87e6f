//! The terminal dashboard's state machine: what each key does to the view
//! (quit, scroll, help overlay, pause), and the texts the dashboard shows
//! that involve no fractions (uptime, panel title, tokens saved).
use vstd::prelude::*;

use crate::text::{append_chars, append_str, decimal, decimal_chars, string_from_chars};

verus! {

broadcast use vstd::string::group_string_axioms;

/// A key the dashboard reacts to.
#[derive(Debug, Clone, Copy, PartialEq, Eq, Structural)]
pub enum DashboardKey {
    Char(char),
    Esc,
    Up,
    Down,
    Other,
}

/// The dashboard's view state.
#[derive(Debug, Clone, Copy, PartialEq, Eq, Structural)]
pub struct DashboardState {
    pub should_quit: bool,
    pub scroll_offset: usize,
    pub show_help: bool,
    pub paused: bool,
}

/// `n - 1`, held at zero.
pub open spec fn minus_one(n: usize) -> usize {
    if n > 0 {
        (n - 1) as usize
    } else {
        0
    }
}

/// The state after a key, with `event_count` events in the ledger: while
/// the help overlay shows, only `?` and Esc (closing it) act; otherwise
/// `q`/`Q`/Esc quit, `j`/Down and `k`/Up scroll by one, `g` jumps to the
/// newest event and `G` to the oldest, `?` opens the help, `p`/`P` toggle
/// the pause.
pub open spec fn after_key(s: DashboardState, key: DashboardKey, event_count: usize) -> DashboardState {
    if s.show_help {
        match key {
            DashboardKey::Char('?') | DashboardKey::Esc => DashboardState { show_help: false, ..s },
            _ => s,
        }
    } else {
        match key {
            DashboardKey::Char('q') | DashboardKey::Char('Q') | DashboardKey::Esc => DashboardState {
                should_quit: true,
                ..s
            },
            DashboardKey::Char('j') | DashboardKey::Down => DashboardState {
                scroll_offset: if s.scroll_offset < usize::MAX {
                    (s.scroll_offset + 1) as usize
                } else {
                    s.scroll_offset
                },
                ..s
            },
            DashboardKey::Char('k') | DashboardKey::Up => DashboardState { scroll_offset: minus_one(s.scroll_offset), ..s },
            DashboardKey::Char('g') => DashboardState { scroll_offset: 0, ..s },
            DashboardKey::Char('G') => DashboardState { scroll_offset: minus_one(event_count), ..s },
            DashboardKey::Char('?') => DashboardState { show_help: true, ..s },
            DashboardKey::Char('p') | DashboardKey::Char('P') => DashboardState { paused: !s.paused, ..s },
            _ => s,
        }
    }
}

impl DashboardState {
    /// The state of a fresh dashboard: running, at the top, no overlay.
    pub fn new() -> (r: Self)
        ensures
            !r.should_quit && r.scroll_offset == 0 && !r.show_help && !r.paused,
    {
        DashboardState { should_quit: false, scroll_offset: 0, show_help: false, paused: false }
    }

    /// Applies a key press.
    pub fn handle_key(&mut self, key: DashboardKey, event_count: usize)
        ensures
            *final(self) == after_key(*old(self), key, event_count),
    {
        if self.show_help {
            match key {
                DashboardKey::Char('?') | DashboardKey::Esc => {
                    self.show_help = false;
                },
                _ => {},
            }
            return;
        }
        match key {
            DashboardKey::Char('q') | DashboardKey::Char('Q') | DashboardKey::Esc => {
                self.should_quit = true;
            },
            DashboardKey::Char('j') | DashboardKey::Down => {
                self.scroll_offset = self.scroll_offset.saturating_add(1);
            },
            DashboardKey::Char('k') | DashboardKey::Up => {
                self.scroll_offset = self.scroll_offset.saturating_sub(1);
            },
            DashboardKey::Char('g') => {
                self.scroll_offset = 0;
            },
            DashboardKey::Char('G') => {
                self.scroll_offset = event_count.saturating_sub(1);
            },
            DashboardKey::Char('?') => {
                self.show_help = true;
            },
            DashboardKey::Char('p') | DashboardKey::Char('P') => {
                self.paused = !self.paused;
            },
            _ => {},
        }
    }
}

/// Two decimal digits, zero-padded.
pub open spec fn two_digits(n: nat) -> Seq<char> {
    if n < 10 {
        seq!['0'] + decimal(n)
    } else {
        decimal(n)
    }
}

/// The uptime of `secs` seconds: `Hh MMm` from an hour, `Mm SSs` from a
/// minute, else `Ss`.
pub open spec fn uptime_text(secs: u64) -> Seq<char> {
    let hours = secs / 3600;
    let mins = (secs % 3600) / 60;
    let s = secs % 60;
    if hours > 0 {
        decimal(hours as nat) + "h "@ + two_digits(mins as nat) + "m"@
    } else if mins > 0 {
        decimal(mins as nat) + "m "@ + two_digits(s as nat) + "s"@
    } else {
        decimal(s as nat) + "s"@
    }
}

/// Two digits of `n < 100`, zero-padded.
fn two_digit_chars(n: u64) -> (r: Vec<char>)
    requires
        n < 100,
    ensures
        r@ == two_digits(n as nat),
{
    let d = decimal_chars(n);
    if n < 10 {
        let mut v: Vec<char> = Vec::new();
        v.push('0');
        append_chars(&mut v, d.as_slice());
        v
    } else {
        d
    }
}

/// The uptime text of `secs` seconds.
pub fn uptime_str(secs: u64) -> (r: String)
    ensures
        r@ == uptime_text(secs),
{
    let hours = secs / 3600;
    let mins = (secs % 3600) / 60;
    let s = secs % 60;
    let mut out: Vec<char> = Vec::new();
    if hours > 0 {
        append_chars(&mut out, decimal_chars(hours).as_slice());
        append_str(&mut out, "h ");
        append_chars(&mut out, two_digit_chars(mins).as_slice());
        append_str(&mut out, "m");
    } else if mins > 0 {
        append_chars(&mut out, decimal_chars(mins).as_slice());
        append_str(&mut out, "m ");
        append_chars(&mut out, two_digit_chars(s).as_slice());
        append_str(&mut out, "s");
    } else {
        append_chars(&mut out, decimal_chars(s).as_slice());
        append_str(&mut out, "s");
    }
    string_from_chars(out.as_slice())
}

/// The estimated tokens saved by blocked actions: 180 each, held at the
/// largest count.
pub fn tokens_saved(total_denied: u64) -> (r: u64)
    ensures
        r == if total_denied * 180 <= u64::MAX {
            (total_denied * 180) as u64
        } else {
            u64::MAX
        },
{
    if total_denied > u64::MAX / 180 {
        u64::MAX
    } else {
        total_denied * 180
    }
}

/// The title of the authority gate panel: the scroll position when
/// scrolled.
pub open spec fn gate_title_text(scroll_offset: usize, event_count: usize) -> Seq<char> {
    if scroll_offset > 0 {
        " LIVE AUTHORITY GATE ["@ + decimal(scroll_offset as nat + 1) + "/"@ + decimal(event_count as nat) + "] "@
    } else {
        " LIVE AUTHORITY GATE "@
    }
}

/// The title of the authority gate panel.
pub fn gate_title(scroll_offset: usize, event_count: usize) -> (r: String)
    requires
        scroll_offset < usize::MAX,
    ensures
        r@ == gate_title_text(scroll_offset, event_count),
{
    let mut out: Vec<char> = Vec::new();
    if scroll_offset > 0 {
        append_str(&mut out, " LIVE AUTHORITY GATE [");
        append_chars(&mut out, decimal_chars((scroll_offset + 1) as u64).as_slice());
        append_str(&mut out, "/");
        append_chars(&mut out, decimal_chars(event_count as u64).as_slice());
        append_str(&mut out, "] ");
    } else {
        append_str(&mut out, " LIVE AUTHORITY GATE ");
    }
    string_from_chars(out.as_slice())
}

} // verus!
