//! Battery state, and the choice of counters a power reading is derived from.

use vstd::prelude::*;
use crate::text::{trim, str_eq, trim_view};

verus! {

/// Charge direction, normalised across the sysfs and UPower spellings.
#[derive(Debug, Clone, Copy, PartialEq, Eq, Structural)]
pub enum State {
    Unknown,
    Charging,
    Discharging,
    Full,
}

/// The state a `UP_DEVICE_STATE_*` code stands for.
pub open spec fn upower_state(code: u32) -> State {
    if code == 1 {
        State::Charging
    } else if code == 2 {
        State::Discharging
    } else if code == 4 {
        State::Full
    } else {
        State::Unknown
    }
}

/// The state a sysfs `status` file stands for.
pub open spec fn sysfs_state(status: Seq<char>) -> State {
    let word = trim_view(status);
    if word == "Charging"@ {
        State::Charging
    } else if word == "Discharging"@ {
        State::Discharging
    } else if word == "Full"@ {
        State::Full
    } else {
        State::Unknown
    }
}

impl State {
    /// The `UP_DEVICE_STATE_*` codes carried in `GetHistory` tuples.
    pub fn from_upower(code: u32) -> (s: Self)
        ensures
            s == upower_state(code),
    {
        match code {
            1 => Self::Charging,
            2 => Self::Discharging,
            4 => Self::Full,
            _ => Self::Unknown,
        }
    }

    /// One lowercase word, for display and for machine-readable output.
    pub fn as_str(self) -> (r: &'static str)
        ensures
            r@ == match self {
                State::Charging => "charging"@,
                State::Discharging => "discharging"@,
                State::Full => "full"@,
                State::Unknown => "unknown"@,
            },
    {
        match self {
            Self::Charging => "charging",
            Self::Discharging => "discharging",
            Self::Full => "full",
            Self::Unknown => "unknown",
        }
    }

    /// The words in `/sys/class/power_supply/*/status`, surrounding whitespace ignored.
    pub fn from_sysfs(status: &str) -> (s: Self)
        ensures
            s == sysfs_state(status@),
    {
        let word = trim(status);
        if str_eq(word, "Charging") {
            Self::Charging
        } else if str_eq(word, "Discharging") {
            Self::Discharging
        } else if str_eq(word, "Full") {
            Self::Full
        } else {
            Self::Unknown
        }
    }
}

/// Raw counters for one battery read. Units are the sysfs units: µW, µA, µV.
#[derive(Debug, Clone, Copy, Default, PartialEq, Eq, Structural)]
pub struct Raw {
    pub power_now: Option<i64>,
    pub current_now: Option<i64>,
    pub voltage_now: Option<i64>,
}

/// The counters a power reading is derived from.
#[derive(Debug, Clone, Copy, PartialEq, Eq, Structural)]
pub enum Draw {
    /// `power_now`, in µW.
    PowerNow(i64),
    /// `current_now` and `voltage_now`, in µA and µV; their product is the power.
    CurrentVoltage(i64, i64),
}

/// Prefers `power_now` where the vendor exposes it, else `current_now × voltage_now`;
/// nothing when neither is complete.
///
/// The sign of these counters is not direction: `current_now` stays positive while
/// charging on some firmware and negative on others, so a reading is scaled to its
/// magnitude and direction comes from [`State`].
pub fn draw_counters(raw: &Raw) -> (d: Option<Draw>)
    ensures
        d == match raw.power_now {
            Some(p) => Some(Draw::PowerNow(p)),
            None => match (raw.current_now, raw.voltage_now) {
                (Some(i), Some(v)) => Some(Draw::CurrentVoltage(i, v)),
                _ => None,
            },
        },
{
    if let Some(p) = raw.power_now {
        return Some(Draw::PowerNow(p));
    }
    match (raw.current_now, raw.voltage_now) {
        (Some(i), Some(v)) => Some(Draw::CurrentVoltage(i, v)),
        _ => None,
    }
}

} // verus!
