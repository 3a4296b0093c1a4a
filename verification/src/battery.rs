//! Batteries under `/sys/class/power_supply`: which ones can be charted, which one is
//! picked, and what their counter files say.
//!
//! The files are read by the caller; everything decided from their contents is here.

use vstd::prelude::*;
use std::path::PathBuf;
use std::time::{Duration, SystemTime, SystemTimeError};
use crate::power::{State, sysfs_state};
use crate::text::{
    trim, trim_view, str_eq, parse_i64, parse_i64_view, eq_ignore_ascii_case,
    eq_ignore_ascii_case_view, join, join_view,
};
use crate::order::{Keyed, sort_by_key, sort_keyed, law_sort_by_key_orders_and_keeps_items};

verus! {

/// std's `PathBuf`, carried through unopened: the library never looks inside a path.
#[verifier::external_type_specification]
#[verifier::external_body]
pub struct ExPathBuf(PathBuf);

/// std's `SystemTime`, opaque.
#[verifier::external_type_specification]
#[verifier::external_body]
pub struct ExSystemTime(SystemTime);

/// std's `SystemTimeError`, opaque.
#[verifier::external_type_specification]
#[verifier::external_body]
pub struct ExSystemTimeError(SystemTimeError);

/// Where battery supplies are listed.
pub const SUPPLY_ROOT: &'static str = "/sys/class/power_supply";

/// A battery that reports a usable draw.
pub struct Battery {
    pub name: String,
    pub root: PathBuf,
}

/// One directory under the supply root, as the caller found it.
pub struct SupplyEntry {
    /// Directory name.
    pub name: String,
    pub root: PathBuf,
    /// Contents of its `type` file, if readable.
    pub kind: Option<String>,
    pub has_power_now: bool,
    pub has_current_now: bool,
    pub has_voltage_now: bool,
}

impl Keyed for SupplyEntry {
    open spec fn sort_key(&self) -> Seq<char> {
        self.name@
    }

    fn key(&self) -> (k: &str) {
        self.name.as_str()
    }
}

/// A supply is chartable when it is a battery with the counters a draw is derived from:
/// `power_now`, or both `current_now` and `voltage_now`.
///
/// Accepting a battery on `current_now` alone picks one that can never be sampled.
pub open spec fn usable(e: SupplyEntry) -> bool {
    &&& e.kind is Some
    &&& trim_view(e.kind->0@) == "Battery"@
    &&& e.has_power_now || (e.has_current_now && e.has_voltage_now)
}

pub open spec fn battery_of(e: SupplyEntry) -> Battery {
    Battery { name: e.name, root: e.root }
}

/// The chartable batteries among `entries`, in name order.
pub open spec fn discovered(entries: Seq<SupplyEntry>) -> Seq<Battery> {
    sort_by_key(entries).filter(|e: SupplyEntry| usable(e)).map_values(|e: SupplyEntry| battery_of(e))
}

/// Every battery found comes from an entry whose type is `Battery` and that has a draw
/// source: `power_now`, or both `current_now` and `voltage_now`. A supply with
/// `voltage_now` alone, or `current_now` alone, can never be sampled and is never listed.
pub proof fn law_found_batteries_have_a_draw_source(entries: Seq<SupplyEntry>)
    ensures
        forall|k: int| #![trigger discovered(entries)[k]] 0 <= k < discovered(entries).len() ==> exists|i: int|
            0 <= i < entries.len() && battery_of(entries[i]) == discovered(entries)[k]
                && entries[i].kind is Some && trim_view(entries[i].kind->0@) =~= "Battery"@
                && (entries[i].has_power_now || (entries[i].has_current_now && entries[i].has_voltage_now)),
{
    assert forall|k: int| #![trigger discovered(entries)[k]] 0 <= k < discovered(entries).len() implies exists|i: int|
        0 <= i < entries.len() && battery_of(entries[i]) == discovered(entries)[k]
            && entries[i].kind is Some && trim_view(entries[i].kind->0@) =~= "Battery"@
            && (entries[i].has_power_now || (entries[i].has_current_now && entries[i].has_voltage_now)) by {
        let i = lemma_found_comes_from_an_entry(entries, k);
        assert(battery_of(entries[i]) == discovered(entries)[k]);
    }
}

/// Every entry whose type is `Battery` and that has a draw source is among those found.
pub proof fn law_every_battery_with_a_draw_source_is_found(entries: Seq<SupplyEntry>)
    ensures
        forall|j: int| #![trigger entries[j]] {
            &&& 0 <= j < entries.len()
            &&& entries[j].kind is Some
            &&& trim_view(entries[j].kind->0@) =~= "Battery"@
            &&& entries[j].has_power_now || (entries[j].has_current_now && entries[j].has_voltage_now)
        } ==> exists|k: int| 0 <= k < discovered(entries).len() && discovered(entries)[k] == battery_of(entries[j]),
{
    assert forall|j: int| #![trigger entries[j]] {
        &&& 0 <= j < entries.len()
        &&& entries[j].kind is Some
        &&& trim_view(entries[j].kind->0@) =~= "Battery"@
        &&& entries[j].has_power_now || (entries[j].has_current_now && entries[j].has_voltage_now)
    } implies exists|k: int| 0 <= k < discovered(entries).len() && discovered(entries)[k] == battery_of(entries[j]) by {
        let k = lemma_usable_entry_is_found(entries, j);
    }
}

proof fn lemma_found_comes_from_an_entry(entries: Seq<SupplyEntry>, k: int) -> (j: int)
    requires
        0 <= k < discovered(entries).len(),
    ensures
        0 <= j < entries.len(),
        battery_of(entries[j]) == discovered(entries)[k],
        usable(entries[j]),
{
    broadcast use vstd::seq_lib::group_filter_ensures;
    broadcast use vstd::seq_lib::group_to_multiset_ensures;
    broadcast use vstd::seq::Seq::lemma_filter_contains_rev;

    let t = sort_by_key(entries);
    law_sort_by_key_orders_and_keeps_items(entries);
    let keep = |e: SupplyEntry| usable(e);
    let f = t.filter(keep);
    assert(discovered(entries) == f.map_values(|e: SupplyEntry| battery_of(e)));
    let e = f[k];
    assert(keep(e));
    assert(f.contains(e));
    assert(t.contains(e));
    assert(t.to_multiset().count(e) > 0);
    assert(entries.contains(e));
    let j = choose|j: int| 0 <= j < entries.len() && entries[j] == e;
    j
}

proof fn lemma_usable_entry_is_found(entries: Seq<SupplyEntry>, j: int) -> (k: int)
    requires
        0 <= j < entries.len(),
        usable(entries[j]),
    ensures
        0 <= k < discovered(entries).len(),
        discovered(entries)[k] == battery_of(entries[j]),
{
    broadcast use vstd::seq_lib::group_filter_ensures;
    broadcast use vstd::seq_lib::group_to_multiset_ensures;

    let t = sort_by_key(entries);
    law_sort_by_key_orders_and_keeps_items(entries);
    let keep = |e: SupplyEntry| usable(e);
    let f = t.filter(keep);
    assert(discovered(entries) == f.map_values(|e: SupplyEntry| battery_of(e)));
    let e = entries[j];
    assert(entries.contains(e));
    assert(entries.to_multiset().count(e) > 0);
    assert(t.contains(e));
    let i = choose|i: int| 0 <= i < t.len() && t[i] == e;
    t.lemma_filter_contains(keep, i);
    assert(f.contains(e));
    let k = choose|k: int| 0 <= k < f.len() && f[k] == e;
    k
}

/// Index of the first battery whose name matches `wanted`, ignoring ASCII case.
pub open spec fn first_named(found: Seq<Battery>, wanted: Seq<char>) -> Option<int>
    decreases found.len(),
{
    if found.len() == 0 {
        None
    } else if eq_ignore_ascii_case_view(found[0].name@, wanted) {
        Some(0)
    } else {
        match first_named(found.drop_first(), wanted) {
            Some(i) => Some(i + 1),
            None => None,
        }
    }
}

/// Why no battery could be picked.
pub enum SelectError {
    /// Nothing under the supply root reports a readable draw.
    NoBattery,
    /// The battery asked for is not among those found.
    NotFound { wanted: String, available: Vec<String> },
}

impl SelectError {
    pub open spec fn message_view(&self) -> Seq<char> {
        match self {
            SelectError::NoBattery => "no battery with a readable power draw under /sys/class/power_supply"@,
            SelectError::NotFound { wanted, available } => "no battery named "@ + wanted@
                + "; this machine has: "@ + join_view(available@.map_values(|n: String| n@), ", "@),
        }
    }

    /// The error as a sentence; the names on offer are listed when the wanted one is
    /// missing.
    pub fn message(&self) -> (m: String)
        ensures
            m@ == self.message_view(),
    {
        match self {
            SelectError::NoBattery => String::from_str(
                "no battery with a readable power draw under /sys/class/power_supply",
            ),
            SelectError::NotFound { wanted, available } => {
                let mut m = String::from_str("no battery named ");
                m.append(wanted.as_str());
                m.append("; this machine has: ");
                m.append(join(available, ", ").as_str());
                m
            },
        }
    }
}

/// The first-match index, described by what precedes and what is found.
proof fn lemma_first_named(s: Seq<Battery>, w: Seq<char>)
    ensures
        first_named(s, w) matches Some(i) ==> 0 <= i < s.len() && eq_ignore_ascii_case_view(
            s[i].name@,
            w,
        ) && forall|k: int| 0 <= k < i ==> !eq_ignore_ascii_case_view(s[k].name@, w),
        first_named(s, w) is None ==> forall|k: int|
            0 <= k < s.len() ==> !eq_ignore_ascii_case_view(s[k].name@, w),
    decreases s.len(),
{
    if s.len() > 0 {
        lemma_first_named(s.drop_first(), w);
        if !eq_ignore_ascii_case_view(s[0].name@, w) {
            assert forall|k: int| 0 < k < s.len() implies s[k] == s.drop_first()[k - 1] by {}
        }
    }
}

fn is_usable(e: &SupplyEntry) -> (r: bool)
    ensures
        r == usable(*e),
{
    match &e.kind {
        Some(k) => str_eq(trim(k.as_str()), "Battery") && (e.has_power_now || (e.has_current_now
            && e.has_voltage_now)),
        None => false,
    }
}

fn clone_name(s: &String) -> (r: String)
    ensures
        r@ == s@,
{
    s.clone()
}

impl Battery {
    /// Every battery that reports a usable draw, in name order.
    ///
    /// Not every machine calls it `BAT0`, and some carry two.
    pub fn discover_all(entries: Vec<SupplyEntry>) -> (found: Vec<Battery>)
        ensures
            found@ == discovered(entries@),
    {
        let ghost all = entries@;
        let sorted = sort_keyed(entries);
        let ghost sv = sorted@;
        let ghost keep = |e: SupplyEntry| usable(e);
        let ghost conv = |e: SupplyEntry| battery_of(e);
        let mut rest = sorted;
        let mut found: Vec<Battery> = Vec::new();
        let ghost mut i: int = 0;
        assert(sv.skip(0) =~= sv);
        assert(sv.take(0) =~= Seq::<SupplyEntry>::empty());
        proof {
            reveal(Seq::filter);
        }
        assert(sv.take(0).filter(keep) =~= Seq::<SupplyEntry>::empty());
        assert(found@ =~= sv.take(0).filter(keep).map_values(conv));
        while rest.len() > 0
            invariant
                0 <= i <= sv.len(),
                sv == sort_by_key(all),
                keep == (|e: SupplyEntry| usable(e)),
                conv == (|e: SupplyEntry| battery_of(e)),
                rest@ == sv.skip(i),
                found@ == sv.take(i).filter(keep).map_values(conv),
            decreases rest@.len(),
        {
            let e = rest.remove(0);
            let ok = is_usable(&e);
            proof {
                assert(e == sv[i]);
                assert(sv.skip(i).remove(0) =~= sv.skip(i + 1));
                assert(sv.take(i + 1) =~= sv.take(i).push(e));
                sv.take(i).lemma_filter_push(e, keep);
            }
            if ok {
                found.push(Battery { name: e.name, root: e.root });
                assert(found@ =~= sv.take(i + 1).filter(keep).map_values(conv));
            } else {
                assert(found@ =~= sv.take(i + 1).filter(keep).map_values(conv));
            }
            proof {
                i = i + 1;
            }
        }
        assert(sv.take(i) =~= sv);
        found
    }

    /// The battery named `wanted` (ignoring ASCII case), or the first available when no
    /// name is given.
    ///
    /// A machine with two packs charts one of them; which one is named in the header, and
    /// the others are listed in the error when the requested name is not among them.
    pub fn select(found: Vec<Battery>, wanted: Option<&str>) -> (r: Result<Battery, SelectError>)
        ensures
            match wanted {
                Some(w) => match first_named(found@, w@) {
                    Some(i) => r == Ok::<Battery, SelectError>(found@[i]),
                    None => if found@.len() == 0 {
                        r matches Err(SelectError::NoBattery)
                    } else {
                        r matches Err(SelectError::NotFound { wanted, available }) && wanted@ == w@
                            && available@.map_values(|n: String| n@) == found@.map_values(
                            |b: Battery| b.name@,
                        )
                    },
                },
                None => if found@.len() == 0 {
                    r matches Err(SelectError::NoBattery)
                } else {
                    r == Ok::<Battery, SelectError>(found@[0])
                },
            },
    {
        let mut batteries = found;
        let n = batteries.len();
        match wanted {
            None => {
                if n == 0 {
                    Err(SelectError::NoBattery)
                } else {
                    Ok(batteries.remove(0))
                }
            },
            Some(w) => {
                proof {
                    lemma_first_named(found@, w@);
                }
                let mut j: usize = 0;
                while j < n
                    invariant
                        wanted == Some(w),
                        batteries@ == found@,
                        n == found@.len(),
                        j <= n,
                        forall|k: int| 0 <= k < j ==> !eq_ignore_ascii_case_view(found@[k].name@, w@),
                        first_named(found@, w@) matches Some(i) ==> 0 <= i < n && eq_ignore_ascii_case_view(found@[i].name@, w@)
                            && forall|k: int| 0 <= k < i ==> !eq_ignore_ascii_case_view(found@[k].name@, w@),
                        first_named(found@, w@) is None ==> forall|k: int| 0 <= k < n ==> !eq_ignore_ascii_case_view(found@[k].name@, w@),
                    decreases n - j,
                {
                    if eq_ignore_ascii_case(batteries[j].name.as_str(), w) {
                        proof {
                            match first_named(found@, w@) {
                                Some(i) => {
                                    if i < j {
                                    } else if i > j {
                                        assert(!eq_ignore_ascii_case_view(found@[j as int].name@, w@));
                                    }
                                    assert(i == j);
                                },
                                None => {
                                    assert(!eq_ignore_ascii_case_view(found@[j as int].name@, w@));
                                },
                            }
                            assert(first_named(found@, w@) == Some(j as int));
                        }
                        let b = batteries.remove(j);
                        assert(b == found@[j as int]);
                        return Ok(b);
                    }
                    j = j + 1;
                }
                if n == 0 {
                    return Err(SelectError::NoBattery);
                }
                let mut available: Vec<String> = Vec::new();
                let mut k: usize = 0;
                while k < n
                    invariant
                        batteries@ == found@,
                        n == found@.len(),
                        k <= n,
                        available@.len() == k,
                        available@.map_values(|s: String| s@) == found@.take(k as int).map_values(|b: Battery| b.name@),
                    decreases n - k,
                {
                    let name = clone_name(&batteries[k].name);
                    let ghost before = available@;
                    available.push(name);
                    assert(available@ == before.push(name));
                    assert(found@.take(k + 1) =~= found@.take(k as int).push(found@[k as int]));
                    assert forall|q: int| 0 <= q < k implies #[trigger] available@[q]@ == found@[q].name@ by {
                        assert(before.map_values(|s: String| s@)[q] == found@.take(k as int).map_values(|b: Battery| b.name@)[q]);
                        assert(available@[q] == before[q]);
                    }
                    assert(name@ == found@[k as int].name@);
                    assert(available@.map_values(|s: String| s@) =~= found@.take(k + 1).map_values(|b: Battery| b.name@));
                    k = k + 1;
                }
                assert(found@.take(n as int) =~= found@);
                Err(SelectError::NotFound { wanted: String::from_str(w), available })
            },
        }
    }

    /// Charge direction from the `status` file's contents; unknown when unreadable.
    pub fn state(status: Option<&str>) -> (s: State)
        ensures
            s == match status {
                Some(t) => sysfs_state(trim_view(t@)),
                None => State::Unknown,
            },
    {
        match status {
            Some(t) => State::from_sysfs(trim(t)),
            None => State::Unknown,
        }
    }

    /// A counter file's contents as an integer: surrounding whitespace ignored, anything
    /// `str::parse::<i64>` rejects gives nothing.
    pub fn num(contents: Option<&str>) -> (r: Option<i64>)
        ensures
            r == match contents {
                Some(t) => parse_i64_view(trim_view(t@)),
                None => None,
            },
    {
        match contents {
            Some(t) => parse_i64(trim(t)),
            None => None,
        }
    }

    /// Charge remaining, as a percentage, from the `capacity` file's contents.
    pub fn capacity(contents: Option<&str>) -> (r: Option<i64>)
        ensures
            r == match contents {
                Some(t) => parse_i64_view(trim_view(t@)),
                None => None,
            },
    {
        Self::num(contents)
    }
}

/// `SystemTime::now` of std: the wall clock. Nothing is claimed of the time it reads.
#[verifier::external_body]
fn system_now() -> SystemTime {
    SystemTime::now()
}

/// `SystemTime::duration_since` of std, taken from the Unix epoch: an error when the clock
/// reads earlier. Nothing is claimed of which outcome comes back, or of the duration.
#[verifier::external_body]
fn since_unix_epoch(t: &SystemTime) -> Result<Duration, SystemTimeError> {
    t.duration_since(std::time::UNIX_EPOCH)
}

/// `Duration::as_secs` of std: the whole seconds of a duration. A duration is opaque
/// here, so nothing is claimed of the number.
#[verifier::external_body]
fn whole_secs(d: &Duration) -> u64 {
    d.as_secs()
}

/// Wall-clock Unix seconds, so live readings line up with UPower history; zero if the
/// clock reads before the epoch. The clock is outside anything that can be proved, so no
/// clause is stated of the result.
pub fn now_unix() -> u64 {
    match since_unix_epoch(&system_now()) {
        Ok(d) => whole_secs(&d),
        Err(_) => 0,
    }
}

} // verus!
