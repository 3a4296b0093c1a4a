//! What the monitor shows and how it answers the keyboard: the selectable ranges, the
//! window they cut from the series, and the choices the header and snapshot make from
//! the latest reading.

use vstd::prelude::*;
use crate::power::State;

verus! {

/// Selectable spans of the chart's x-axis.
#[derive(Debug, Clone, Copy, PartialEq, Eq, Structural)]
pub enum Range {
    M15,
    H1,
    H3,
    H12,
}

pub open spec fn range_secs(r: Range) -> u64 {
    match r {
        Range::M15 => 900,
        Range::H1 => 3600,
        Range::H3 => 10800,
        Range::H12 => 43200,
    }
}

pub open spec fn range_label(r: Range) -> Seq<char> {
    match r {
        Range::M15 => "15m"@,
        Range::H1 => "1h"@,
        Range::H3 => "3h"@,
        Range::H12 => "12h"@,
    }
}

impl Range {
    /// Every range, narrowest first, in the order the footer lists them.
    pub const ALL: [Range; 4] = [Range::M15, Range::H1, Range::H3, Range::H12];

    pub fn secs(self) -> (r: u64)
        ensures
            r == range_secs(self),
    {
        match self {
            Self::M15 => 15 * 60,
            Self::H1 => 60 * 60,
            Self::H3 => 3 * 60 * 60,
            Self::H12 => 12 * 60 * 60,
        }
    }

    pub fn label(self) -> (r: &'static str)
        ensures
            r@ == range_label(self),
    {
        match self {
            Self::M15 => "15m",
            Self::H1 => "1h",
            Self::H3 => "3h",
            Self::H12 => "12h",
        }
    }
}

/// Everything held in memory is bounded by the widest selectable range.
pub const RETAIN_SECS: u64 = 12 * 60 * 60;

/// The ranges widen strictly from first to last, and retention covers the widest.
pub proof fn law_ranges_widen_within_retention()
    ensures
        range_secs(Range::M15) < range_secs(Range::H1) < range_secs(Range::H3) < range_secs(
            Range::H12,
        ),
        forall|r: Range| range_secs(r) <= RETAIN_SECS,
        RETAIN_SECS == range_secs(Range::H12),
{
}

/// Unix second at the left edge of the chart.
pub fn window_start(now: u64, range: Range) -> (t: u64)
    ensures
        t == if now >= range_secs(range) { (now - range_secs(range)) as u64 } else { 0 },
{
    now.saturating_sub(range.secs())
}

/// Whether the machine is on AC, judged by the latest reading's direction.
pub fn on_ac(latest: Option<State>) -> (r: bool)
    ensures
        r == (latest == Some(State::Charging) || latest == Some(State::Full)),
{
    match latest {
        Some(State::Charging) | Some(State::Full) => true,
        _ => false,
    }
}

pub open spec fn draw_and_charge_view<W>(state: State, reading: Option<W>) -> (Option<W>, Option<W>) {
    match state {
        State::Discharging => (reading, None),
        State::Charging => (None, reading),
        _ => (None, None),
    }
}

/// A reading split into `(draw, charge)`: at most one is present.
///
/// While charging these counters measure energy going into the pack, and reporting that
/// as draw would hand a consumer a number that means the opposite of what its name says.
pub fn draw_and_charge<W>(state: State, reading: Option<W>) -> (r: (Option<W>, Option<W>))
    ensures
        r == draw_and_charge_view(state, reading),
{
    match state {
        State::Discharging => (reading, None),
        State::Charging => (None, reading),
        _ => (None, None),
    }
}

/// A reading is reported as draw or as charge, never as both.
pub proof fn law_draw_and_charge_exclusive<W>(state: State, reading: Option<W>)
    ensures
        draw_and_charge_view(state, reading).0 is None || draw_and_charge_view(state, reading).1 is None,
{
}

/// A reading counts as draw only on battery, and as charge only while charging; in every
/// other state, plugged in at a charge threshold or full, neither figure is reported.
pub proof fn law_draw_only_on_battery_charge_only_while_charging<W>(state: State, reading: Option<W>)
    ensures
        draw_and_charge_view(state, reading).0 is Some ==> state == State::Discharging,
        draw_and_charge_view(state, reading).1 is Some ==> state == State::Charging,
        state == State::Discharging ==> draw_and_charge_view(state, reading).0 == reading,
        state == State::Charging ==> draw_and_charge_view(state, reading).1 == reading,
{
}

/// Label of the live figure: on AC it is a charge rate, and says so.
pub fn live_label(state: State) -> (r: &'static str)
    ensures
        r@ == match state {
            State::Charging => "charging at"@,
            State::Full => "topping up"@,
            _ => "now"@,
        },
{
    match state {
        State::Charging => "charging at",
        State::Full => "topping up",
        _ => "now",
    }
}

/// A key, as far as the monitor tells keys apart.
#[derive(Debug, Clone, Copy, PartialEq, Eq, Structural)]
pub enum Key {
    Char(char),
    Esc,
    Other,
}

/// What a key event asks of the running monitor.
#[derive(Debug, Clone, Copy, PartialEq, Eq, Structural)]
pub enum KeyAction {
    Quit,
    Show(Range),
    Ignore,
}

pub open spec fn key_action_view(key: Key, ctrl: bool, pressed: bool) -> KeyAction {
    if !pressed {
        KeyAction::Ignore
    } else if key == Key::Char('c') && ctrl {
        KeyAction::Quit
    } else {
        match key {
            Key::Char('q') => KeyAction::Quit,
            Key::Esc => KeyAction::Quit,
            Key::Char('1') => KeyAction::Show(Range::M15),
            Key::Char('2') => KeyAction::Show(Range::H1),
            Key::Char('3') => KeyAction::Show(Range::H3),
            Key::Char('4') => KeyAction::Show(Range::H12),
            _ => KeyAction::Ignore,
        }
    }
}

/// Answer one key event. Only presses count; `q`, `Esc` and ctrl-c quit (raw mode
/// swallows the terminal's own interrupt), and `1`–`4` pick a range.
pub fn key_action(key: Key, ctrl: bool, pressed: bool) -> (a: KeyAction)
    ensures
        a == key_action_view(key, ctrl, pressed),
{
    if !pressed {
        return KeyAction::Ignore;
    }
    if key == Key::Char('c') && ctrl {
        return KeyAction::Quit;
    }
    match key {
        Key::Char('q') | Key::Esc => KeyAction::Quit,
        Key::Char('1') => KeyAction::Show(Range::M15),
        Key::Char('2') => KeyAction::Show(Range::H1),
        Key::Char('3') => KeyAction::Show(Range::H3),
        Key::Char('4') => KeyAction::Show(Range::H12),
        _ => KeyAction::Ignore,
    }
}

/// Digit `n` picks the `n`-th range of the footer, which lists them narrowest first as
/// [`Range::ALL`] does: `1` the last 15 minutes, `2` the last hour, `3` the last three
/// hours, `4` the last twelve; so a higher digit always shows a wider span. Whether ctrl is
/// held does not matter.
pub proof fn law_digit_keys_pick_ranges_in_footer_order(ctrl: bool)
    ensures
        Range::ALL@ == seq![Range::M15, Range::H1, Range::H3, Range::H12],
        key_action_view(Key::Char('1'), ctrl, true) == KeyAction::Show(Range::M15),
        key_action_view(Key::Char('2'), ctrl, true) == KeyAction::Show(Range::H1),
        key_action_view(Key::Char('3'), ctrl, true) == KeyAction::Show(Range::H3),
        key_action_view(Key::Char('4'), ctrl, true) == KeyAction::Show(Range::H12),
        forall|a: char, b: char|
            #![trigger key_action_view(Key::Char(a), ctrl, true), key_action_view(Key::Char(b), ctrl, true)]
            '1' <= a < b <= '4' ==> {
                &&& key_action_view(Key::Char(a), ctrl, true) matches KeyAction::Show(ra)
                &&& key_action_view(Key::Char(b), ctrl, true) matches KeyAction::Show(rb)
                &&& range_secs(ra) < range_secs(rb)
            },
{
}

} // verus!
