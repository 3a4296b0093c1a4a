//! CPU power from the RAPL energy counters under `/sys/class/powercap`.
//!
//! These are free-running energy accumulators, not power readings: power comes from the
//! difference between two samples over the time between them.
//!
//! This is **not** the same quantity as battery draw. It covers the CPU package only —
//! not the display, the radios, or anything else the pack is feeding.
//!
//! The counter files are read by the caller; what is decided from them is here.

use vstd::prelude::*;
use std::path::PathBuf;
use crate::text::{
    trim, trim_view, starts_with, starts_with_view, str_eq, parse_u64, parse_u64_view,
    count_occurrences, count_char, lemma_count_char_add,
};
use crate::order::{Keyed, sort_by_key, sort_keyed};
use crate::cli::RaplMode;

verus! {

broadcast use vstd::seq_lib::group_seq_properties;

/// Where the RAPL zones are listed.
pub const POWERCAP_ROOT: &'static str = "/sys/class/powercap";

/// Longest interval a delta is trusted over, in nanoseconds.
///
/// The counter also resets across suspend, and a reset is indistinguishable from a wrap,
/// so a long interval is discarded rather than turned into an invented spike.
pub const MAX_TRUSTED_INTERVAL_NS: u64 = 10_000_000_000;

/// Why there is no CPU power to show.
#[derive(Debug, Clone, Copy, PartialEq, Eq, Structural)]
pub enum Unavailable {
    /// No powercap tree — a VM, a non-x86 machine, or a kernel without the driver.
    NotPresent,
    /// The counters are there but root-only, which is the kernel's default.
    PermissionDenied,
}

impl Unavailable {
    pub fn reason(self) -> (r: &'static str)
        ensures
            r@ == match self {
                Unavailable::NotPresent => "no RAPL counters on this machine"@,
                Unavailable::PermissionDenied => "RAPL counters are root-only — see the README"@,
            },
    {
        match self {
            Self::NotPresent => "no RAPL counters on this machine",
            Self::PermissionDenied => "RAPL counters are root-only — see the README",
        }
    }
}

/// Whether the counters are probed at all: `--rapl off` never touches them.
pub fn probes_counters(mode: RaplMode) -> (r: bool)
    ensures
        r == (mode != RaplMode::Off),
{
    match mode {
        RaplMode::Off => false,
        _ => true,
    }
}

/// The CPU panel given what probing found: shown when the counters are readable;
/// otherwise quietly absent, with the reason kept, unless the panel was required, in
/// which case the start is refused with that reason.
pub fn panel<T>(mode: RaplMode, found: Result<T, Unavailable>) -> (r: Result<(Option<T>, Option<Unavailable>), Unavailable>)
    ensures
        r == match found {
            Ok(t) => Ok((Some(t), None)),
            Err(e) => if mode == RaplMode::On {
                Err(e)
            } else {
                Ok::<(Option<T>, Option<Unavailable>), Unavailable>((None, Some(e)))
            },
        },
{
    match found {
        Ok(t) => Ok((Some(t), None)),
        Err(e) => match mode {
            RaplMode::On => Err(e),
            _ => Ok((None, Some(e))),
        },
    }
}

/// Why the snapshot has no CPU figure: the reason the counters were unavailable, or that
/// they were not asked for.
pub fn cpu_reason(missing: Option<Unavailable>) -> (r: &'static str)
    ensures
        r@ == match missing {
            Some(Unavailable::NotPresent) => "no RAPL counters on this machine"@,
            Some(Unavailable::PermissionDenied) => "RAPL counters are root-only — see the README"@,
            None => "not requested"@,
        },
{
    match missing {
        Some(e) => e.reason(),
        None => "not requested",
    }
}

/// Energy accumulated between two readings of a counter that wraps at `max`.
pub open spec fn delta_view(previous: u64, current: u64, max: u64) -> u64 {
    if current >= previous {
        (current - previous) as u64
    } else {
        let left: int = if max >= previous { max - previous } else { 0 };
        if left + current > u64::MAX { u64::MAX } else { (left + current) as u64 }
    }
}

/// Energy accumulated between two readings, in microjoules.
///
/// `max` is the counter's wrap point, from `max_energy_range_uj`. A counter below its
/// previous reading has wrapped: what was left to the top, plus what has accumulated since.
pub fn delta_uj(previous: u64, current: u64, max: u64) -> (d: u64)
    ensures
        d == delta_view(previous, current, max),
{
    if current >= previous {
        current - previous
    } else {
        max.saturating_sub(previous).saturating_add(current)
    }
}

/// Between two readings of a counter that wraps at `max`, the delta carries the earlier
/// reading to the later one, going once around the counter when it wrapped.
pub proof fn law_delta_carries_previous_to_current(previous: u64, current: u64, max: u64)
    requires
        previous <= max,
        current <= max,
    ensures
        previous + delta_view(previous, current, max) == current || previous + delta_view(
            previous,
            current,
            max,
        ) == current + max,
{
}

/// Energy accumulated over a measured interval.
#[derive(Debug, Clone, Copy, PartialEq, Eq, Structural)]
pub struct Interval {
    pub delta_uj: u64,
    pub elapsed_ns: u64,
}

pub open spec fn trusted_view(previous: u64, current: u64, max: u64, elapsed_ns: u64) -> Option<Interval> {
    if elapsed_ns == 0 || elapsed_ns > MAX_TRUSTED_INTERVAL_NS {
        None
    } else {
        Some(Interval { delta_uj: delta_view(previous, current, max), elapsed_ns })
    }
}

/// The energy over an interval, or nothing when the interval is not worth trusting:
/// empty, or longer than [`MAX_TRUSTED_INTERVAL_NS`].
pub fn trusted_interval(previous: u64, current: u64, max: u64, elapsed_ns: u64) -> (r: Option<Interval>)
    ensures
        r == trusted_view(previous, current, max, elapsed_ns),
{
    if elapsed_ns == 0 || elapsed_ns > MAX_TRUSTED_INTERVAL_NS {
        None
    } else {
        Some(Interval { delta_uj: delta_uj(previous, current, max), elapsed_ns })
    }
}

/// One RAPL domain: a package, or a zone within it.
pub struct Domain {
    /// Sysfs directory name, e.g. `intel-rapl:0` or `intel-rapl:0:1`. Nesting encodes
    /// parentage: `intel-rapl:0:1` is a zone within `intel-rapl:0`.
    pub id: String,
    pub name: String,
    /// The `energy_uj` counter file.
    pub energy: PathBuf,
    pub max_uj: u64,
    /// The last counter reading and when it was taken, in monotonic nanoseconds.
    pub previous: Option<(u64, u64)>,
    /// The most recent trusted interval, once two readings exist.
    pub interval: Option<Interval>,
}

impl Domain {
    /// Take a reading of the counter (`None` when it could not be read) at monotonic time
    /// `at_ns`. The first reading only establishes a baseline.
    pub fn sample(&mut self, reading: Option<u64>, at_ns: u64)
        ensures
            final(self).id == old(self).id,
            final(self).name == old(self).name,
            final(self).energy == old(self).energy,
            final(self).max_uj == old(self).max_uj,
            final(self).interval == match reading {
                None => None,
                Some(current) => match old(self).previous {
                    Some((prev, then)) => trusted_view(
                        prev,
                        current,
                        old(self).max_uj,
                        if at_ns >= then { (at_ns - then) as u64 } else { 0 },
                    ),
                    None => None,
                },
            },
            final(self).previous == match reading {
                None => old(self).previous,
                Some(current) => Some((current, at_ns)),
            },
    {
        match reading {
            None => {
                self.interval = None;
            },
            Some(current) => {
                self.interval = match self.previous {
                    Some((prev, then)) => trusted_interval(
                        prev,
                        current,
                        self.max_uj,
                        at_ns.saturating_sub(then),
                    ),
                    None => None,
                };
                self.previous = Some((current, at_ns));
            },
        }
    }
}

/// Whether a powercap entry is a RAPL zone. The mmio zones mirror the msr ones; taking
/// both would double-count.
pub open spec fn is_zone_dir(name: Seq<char>) -> bool {
    starts_with_view(name, "intel-rapl:"@)
}

pub fn zone_dir(name: &str) -> (r: bool)
    ensures
        r == is_zone_dir(name@),
{
    starts_with(name, "intel-rapl:")
}

/// How the `energy_uj` file of a zone answered a read.
#[derive(Debug, Clone, Copy, PartialEq, Eq, Structural)]
pub enum Access {
    Readable,
    /// Refused for want of permission: fixable by the user.
    Denied,
    /// Missing or otherwise unreadable: not fixable by the user.
    Failed,
}

/// One powercap entry, as the caller found it.
pub struct Probe {
    /// Directory name.
    pub id: String,
    /// Its `energy_uj` file.
    pub energy: PathBuf,
    pub access: Access,
    /// Contents of its `name` file, if readable.
    pub name: Option<String>,
    /// Contents of its `max_energy_range_uj` file, if readable.
    pub max_energy_range: Option<String>,
}

impl Keyed for Probe {
    open spec fn sort_key(&self) -> Seq<char> {
        self.id@
    }

    fn key(&self) -> (k: &str) {
        self.id.as_str()
    }
}

/// A zone is charted when its counter is readable and its name and wrap point are known.
pub open spec fn readable_probe(p: Probe) -> bool {
    &&& p.access == Access::Readable
    &&& p.name is Some
    &&& p.max_energy_range is Some
    &&& parse_u64_view(trim_view(p.max_energy_range->0@)) is Some
}

/// `d` is the domain a readable probe describes, before any reading.
pub open spec fn domain_from(d: Domain, p: Probe) -> bool {
    &&& d.id == p.id
    &&& d.name@ == trim_view(p.name->0@)
    &&& d.energy == p.energy
    &&& Some(d.max_uj) == parse_u64_view(trim_view(p.max_energy_range->0@))
    &&& d.previous is None
    &&& d.interval is None
}

/// The RAPL zones among the probes, in directory-name order.
pub open spec fn zone_probes(probes: Seq<Probe>) -> Seq<Probe> {
    sort_by_key(probes.filter(|p: Probe| is_zone_dir(p.id@)))
}

pub open spec fn any_denied(ps: Seq<Probe>) -> bool {
    exists|k: int| 0 <= k < ps.len() && (#[trigger] ps[k]).access == Access::Denied
}

/// Index of the first domain satisfying `pred`.
pub open spec fn first_where(s: Seq<Domain>, pred: spec_fn(Domain) -> bool) -> Option<int>
    decreases s.len(),
{
    if s.len() == 0 {
        None
    } else if pred(s[0]) {
        Some(0)
    } else {
        match first_where(s.drop_first(), pred) {
            Some(i) => Some(i + 1),
            None => None,
        }
    }
}

pub open spec fn is_package(d: Domain) -> bool {
    starts_with_view(d.name@, "package-"@)
}

pub open spec fn is_psys(d: Domain) -> bool {
    d.name@ == "psys"@
}

/// The domain charted: the CPU package, else the whole-platform zone, else the first.
pub open spec fn primary_index(s: Seq<Domain>) -> Option<int> {
    match first_where(s, |d: Domain| is_package(d)) {
        Some(i) => Some(i),
        None => match first_where(s, |d: Domain| is_psys(d)) {
            Some(i) => Some(i),
            None => if s.len() > 0 { Some(0) } else { None },
        },
    }
}

/// `d` lies within the zone `id`: its id extends `id` by a `:`-separated suffix.
pub open spec fn within(d: Domain, id: Seq<char>) -> bool {
    starts_with_view(d.id@, id + ":"@)
}

/// The id of the charted domain.
pub open spec fn primary_id(s: Seq<Domain>) -> Option<Seq<char>> {
    match primary_index(s) {
        Some(p) => Some(s[p].id@),
        None => None,
    }
}

/// `d` is a top-level zone (one colon in its id) other than the zone `primary`.
pub open spec fn is_platform(d: Domain, primary: Option<Seq<char>>) -> bool {
    count_char(d.id@, ':') == 1 && primary != Some(d.id@)
}

/// A zone within the charted one is never reported as a platform zone, as long as the
/// charted zone's id carries the `:` that RAPL ids have: a package component is never
/// counted twice.
pub proof fn law_components_are_not_platform_zones(s: Seq<Domain>, d: Domain)
    requires
        primary_id(s) matches Some(pid) && count_char(pid, ':') >= 1,
        within(d, primary_id(s)->0),
    ensures
        !is_platform(d, primary_id(s)),
{
    let pid = primary_id(s)->0;
    let prefix = pid + ":"@;
    let id = d.id@;
    assert(":"@ =~= seq![':']) by {
        reveal_strlit(":");
    }
    lemma_count_char_add(pid, ":"@, ':');
    reveal_with_fuel(count_char, 2);
    assert(count_char(":"@, ':') == 1) by {
        assert(":"@.drop_last() =~= Seq::<char>::empty());
    }
    let rest = id.subrange(prefix.len() as int, id.len() as int);
    assert(id =~= prefix + rest);
    lemma_count_char_add(prefix, rest, ':');
}

proof fn lemma_first_where(s: Seq<Domain>, pred: spec_fn(Domain) -> bool)
    ensures
        first_where(s, pred) matches Some(i) ==> 0 <= i < s.len() && pred(s[i]) && forall|k: int|
            0 <= k < i ==> !pred(#[trigger] s[k]),
        first_where(s, pred) is None ==> forall|k: int| 0 <= k < s.len() ==> !pred(#[trigger] s[k]),
    decreases s.len(),
{
    if s.len() > 0 {
        lemma_first_where(s.drop_first(), pred);
        assert forall|k: int| 0 < k < s.len() implies s[k] == s.drop_first()[k - 1] by {}
    }
}

pub struct Rapl {
    pub domains: Vec<Domain>,
}

fn domain_of(p: Probe) -> (d: Option<Domain>)
    ensures
        d is Some == readable_probe(p),
        d matches Some(dom) ==> domain_from(dom, p),
{
    if p.access != Access::Readable {
        return None;
    }
    let name = match &p.name {
        Some(n) => n,
        None => { return None; },
    };
    let max = match &p.max_energy_range {
        Some(m) => parse_u64(trim(m.as_str())),
        None => { return None; },
    };
    match max {
        Some(max_uj) => {
            let name = String::from_str(trim(name.as_str()));
            Some(Domain { id: p.id, name, energy: p.energy, max_uj, previous: None, interval: None })
        },
        None => None,
    }
}

impl Rapl {
    /// The RAPL domains described by the powercap entries the caller probed.
    ///
    /// Entries that are not RAPL zones are ignored; zones are taken in name order, and a
    /// zone whose counter cannot be read, or whose name or wrap point is missing, is
    /// skipped. With no zone left, a counter refused for permission reads as
    /// [`Unavailable::PermissionDenied`]: that one the user can fix, unlike a missing tree.
    pub fn from_probes(probes: Vec<Probe>) -> (r: Result<Rapl, Unavailable>)
        ensures
            ({
                let zones = zone_probes(probes@);
                let ok = zones.filter(|p: Probe| readable_probe(p));
                match r {
                    Ok(rapl) => ok.len() > 0 && rapl.domains@.len() == ok.len() && forall|k: int|
                        0 <= k < ok.len() ==> domain_from(#[trigger] rapl.domains@[k], ok[k]),
                    Err(e) => ok.len() == 0 && e == if any_denied(zones) {
                        Unavailable::PermissionDenied
                    } else {
                        Unavailable::NotPresent
                    },
                }
            }),
    {
        let ghost all = probes@;
        let ghost is_zone = |p: Probe| is_zone_dir(p.id@);
        let ghost keep = |p: Probe| readable_probe(p);
        // The zones, in the order they were probed.
        let mut rest = probes;
        let mut zones: Vec<Probe> = Vec::new();
        let ghost mut i: int = 0;
        assert(all.skip(0) =~= all);
        proof {
            reveal(Seq::filter);
        }
        assert(all.take(0).filter(is_zone) =~= Seq::<Probe>::empty());
        while rest.len() > 0
            invariant
                0 <= i <= all.len(),
                is_zone == (|p: Probe| is_zone_dir(p.id@)),
                rest@ == all.skip(i),
                zones@ == all.take(i).filter(is_zone),
            decreases rest@.len(),
        {
            let p = rest.remove(0);
            proof {
                assert(p == all[i]);
                assert(all.skip(i).remove(0) =~= all.skip(i + 1));
                assert(all.take(i + 1) =~= all.take(i).push(p));
                all.take(i).lemma_filter_push(p, is_zone);
            }
            if zone_dir(p.id.as_str()) {
                zones.push(p);
            }
            proof {
                i = i + 1;
            }
        }
        assert(all.take(i) =~= all);
        let sorted = sort_keyed(zones);
        let ghost zs = sorted@;
        assert(zs == zone_probes(all));
        let mut rest = sorted;
        let mut domains: Vec<Domain> = Vec::new();
        let mut denied = false;
        let ghost mut j: int = 0;
        assert(zs.skip(0) =~= zs);
        assert(zs.take(0).filter(keep) =~= Seq::<Probe>::empty());
        while rest.len() > 0
            invariant
                0 <= j <= zs.len(),
                keep == (|p: Probe| readable_probe(p)),
                rest@ == zs.skip(j),
                domains@.len() == zs.take(j).filter(keep).len(),
                forall|k: int| 0 <= k < domains@.len() ==> domain_from(#[trigger] domains@[k], zs.take(j).filter(keep)[k]),
                denied == any_denied(zs.take(j)),
            decreases rest@.len(),
        {
            let p = rest.remove(0);
            let ghost pg = p;
            proof {
                assert(p == zs[j]);
                assert(zs.skip(j).remove(0) =~= zs.skip(j + 1));
                assert(zs.take(j + 1) =~= zs.take(j).push(p));
                zs.take(j).lemma_filter_push(p, keep);
            }
            if p.access == Access::Denied {
                denied = true;
            }
            proof {
                if pg.access == Access::Denied {
                    assert(zs.take(j + 1)[j] == pg);
                } else if any_denied(zs.take(j + 1)) {
                    let k = choose|k: int| 0 <= k < zs.take(j + 1).len() && (#[trigger] zs.take(j + 1)[k]).access == Access::Denied;
                    assert(k < j);
                    assert(zs.take(j)[k] == zs.take(j + 1)[k]);
                }
                if denied && pg.access != Access::Denied {
                    let k = choose|k: int| 0 <= k < zs.take(j).len() && (#[trigger] zs.take(j)[k]).access == Access::Denied;
                    assert(zs.take(j + 1)[k] == zs.take(j)[k]);
                }
            }
            let d = domain_of(p);
            match d {
                Some(dom) => {
                    domains.push(dom);
                },
                None => {},
            }
            proof {
                j = j + 1;
            }
        }
        assert(zs.take(j) =~= zs);
        if domains.len() == 0 {
            if denied {
                Err(Unavailable::PermissionDenied)
            } else {
                Err(Unavailable::NotPresent)
            }
        } else {
            Ok(Rapl { domains })
        }
    }

    fn first_package(&self) -> (r: Option<usize>)
        ensures
            r matches Some(i) ==> i < self.domains@.len() && first_where(self.domains@, |d: Domain| is_package(d)) == Some(i as int),
            r is None ==> first_where(self.domains@, |d: Domain| is_package(d)) is None,
    {
        let n = self.domains.len();
        let mut i: usize = 0;
        while i < n
            invariant
                n == self.domains@.len(),
                i <= n,
                forall|k: int| 0 <= k < i ==> !is_package(#[trigger] self.domains@[k]),
            decreases n - i,
        {
            if starts_with(self.domains[i].name.as_str(), "package-") {
                proof {
                    lemma_first_where(self.domains@, |d: Domain| is_package(d));
                    match first_where(self.domains@, |d: Domain| is_package(d)) {
                        Some(f) => {
                            if f > i {
                                assert(!is_package(self.domains@[i as int]));
                            }
                        },
                        None => {
                            assert(!is_package(self.domains@[i as int]));
                        },
                    }
                }
                return Some(i);
            }
            i = i + 1;
        }
        proof {
            lemma_first_where(self.domains@, |d: Domain| is_package(d));
            if first_where(self.domains@, |d: Domain| is_package(d)) is Some {
                let f = first_where(self.domains@, |d: Domain| is_package(d))->0;
                assert(!is_package(self.domains@[f]));
            }
        }
        None
    }

    fn first_psys(&self) -> (r: Option<usize>)
        ensures
            r matches Some(i) ==> i < self.domains@.len() && first_where(self.domains@, |d: Domain| is_psys(d)) == Some(i as int),
            r is None ==> first_where(self.domains@, |d: Domain| is_psys(d)) is None,
    {
        let n = self.domains.len();
        let mut i: usize = 0;
        while i < n
            invariant
                n == self.domains@.len(),
                i <= n,
                forall|k: int| 0 <= k < i ==> !is_psys(#[trigger] self.domains@[k]),
            decreases n - i,
        {
            if str_eq(self.domains[i].name.as_str(), "psys") {
                proof {
                    lemma_first_where(self.domains@, |d: Domain| is_psys(d));
                    match first_where(self.domains@, |d: Domain| is_psys(d)) {
                        Some(f) => {
                            if f > i {
                                assert(!is_psys(self.domains@[i as int]));
                            }
                        },
                        None => {
                            assert(!is_psys(self.domains@[i as int]));
                        },
                    }
                }
                return Some(i);
            }
            i = i + 1;
        }
        proof {
            lemma_first_where(self.domains@, |d: Domain| is_psys(d));
            if first_where(self.domains@, |d: Domain| is_psys(d)) is Some {
                let f = first_where(self.domains@, |d: Domain| is_psys(d))->0;
                assert(!is_psys(self.domains@[f]));
            }
        }
        None
    }

    /// Position of the domain to chart: the CPU package, else the whole-platform zone,
    /// else the first.
    pub fn primary_index(&self) -> (r: Option<usize>)
        ensures
            r matches Some(i) ==> i < self.domains@.len() && primary_index(self.domains@) == Some(i as int),
            r is None ==> primary_index(self.domains@) is None,
    {
        match self.first_package() {
            Some(i) => Some(i),
            None => match self.first_psys() {
                Some(i) => Some(i),
                None => if self.domains.len() > 0 { Some(0) } else { None },
            },
        }
    }

    /// The domain to chart: the CPU package, else the whole-platform zone.
    pub fn primary(&self) -> (r: Option<&Domain>)
        ensures
            r is Some == primary_index(self.domains@) is Some,
            r matches Some(d) ==> *d == self.domains@[primary_index(self.domains@)->0],
    {
        match self.primary_index() {
            Some(i) => Some(&self.domains[i]),
            None => None,
        }
    }

    /// Zones *within* the charted package — core, uncore, dram.
    ///
    /// Kept apart from [`Self::platform`] because they are components of the number on the
    /// chart, whereas a platform zone is a different measurement altogether.
    pub fn subzones(&self) -> (r: Vec<&Domain>)
        ensures
            r@.map_values(|d: &Domain| *d) == match primary_index(self.domains@) {
                Some(p) => self.domains@.filter(|d: Domain| within(d, self.domains@[p].id@)),
                None => Seq::<Domain>::empty(),
            },
    {
        let mut r: Vec<&Domain> = Vec::new();
        let p = match self.primary_index() {
            Some(p) => p,
            None => {
                assert(r@.map_values(|d: &Domain| *d) =~= Seq::<Domain>::empty());
                return r;
            },
        };
        let mut prefix = String::from_str(self.domains[p].id.as_str());
        prefix.append(":");
        let ghost pid = self.domains@[p as int].id@;
        let ghost keep = |d: Domain| within(d, pid);
        let n = self.domains.len();
        let mut i: usize = 0;
        proof {
            reveal(Seq::filter);
        }
        assert(self.domains@.take(0).filter(keep) =~= Seq::<Domain>::empty());
        assert(r@.map_values(|d: &Domain| *d) =~= Seq::<Domain>::empty());
        while i < n
            invariant
                n == self.domains@.len(),
                i <= n,
                prefix@ == pid + ":"@,
                keep == (|d: Domain| within(d, pid)),
                r@.map_values(|d: &Domain| *d) == self.domains@.take(i as int).filter(keep),
            decreases n - i,
        {
            let d = &self.domains[i];
            proof {
                assert(self.domains@.take(i + 1) =~= self.domains@.take(i as int).push(*d));
                self.domains@.take(i as int).lemma_filter_push(*d, keep);
            }
            let ghost before = r@;
            if starts_with(d.id.as_str(), prefix.as_str()) {
                r.push(d);
                assert(r@.map_values(|d: &Domain| *d) =~= before.map_values(|d: &Domain| *d).push(*d));
            }
            i = i + 1;
        }
        assert(self.domains@.take(n as int) =~= self.domains@);
        r
    }

    /// Top-level zones that are not the charted one.
    ///
    /// `psys` is the whole platform, not the CPU: on this hardware it reads roughly double
    /// the package. Reporting it inside a CPU breakdown would invite exactly the
    /// conflation this tool is trying to avoid.
    pub fn platform(&self) -> (r: Vec<&Domain>)
        ensures
            r@.map_values(|d: &Domain| *d) == self.domains@.filter(
                |d: Domain| is_platform(d, primary_id(self.domains@)),
            ),
    {
        let primary = self.primary_index();
        let ghost pid: Option<Seq<char>> = primary_id(self.domains@);
        let ghost keep = |d: Domain| is_platform(d, pid);
        let mut r: Vec<&Domain> = Vec::new();
        let n = self.domains.len();
        let mut i: usize = 0;
        proof {
            reveal(Seq::filter);
        }
        assert(self.domains@.take(0).filter(keep) =~= Seq::<Domain>::empty());
        assert(r@.map_values(|d: &Domain| *d) =~= Seq::<Domain>::empty());
        while i < n
            invariant
                n == self.domains@.len(),
                i <= n,
                primary matches Some(p) ==> p < n && pid == Some(self.domains@[p as int].id@),
                primary is None ==> pid is None,
                keep == (|d: Domain| is_platform(d, pid)),
                r@.map_values(|d: &Domain| *d) == self.domains@.take(i as int).filter(keep),
            decreases n - i,
        {
            let d = &self.domains[i];
            proof {
                assert(self.domains@.take(i + 1) =~= self.domains@.take(i as int).push(*d));
                self.domains@.take(i as int).lemma_filter_push(*d, keep);
            }
            let one_colon = count_occurrences(d.id.as_str(), ':') == 1;
            let not_primary = match primary {
                Some(p) => !str_eq(d.id.as_str(), self.domains[p].id.as_str()),
                None => true,
            };
            let ghost before = r@;
            if one_colon && not_primary {
                r.push(d);
                assert(r@.map_values(|d: &Domain| *d) =~= before.map_values(|d: &Domain| *d).push(*d));
            }
            i = i + 1;
        }
        assert(self.domains@.take(n as int) =~= self.domains@);
        r
    }
}

} // verus!
