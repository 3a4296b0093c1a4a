use std::path::PathBuf;

use wattmeter::cli::RaplMode;
use wattmeter::rapl::{
    cpu_reason, panel, probes_counters,
    delta_uj, trusted_interval, zone_dir, Access, Interval, Probe, Rapl, Unavailable,
};

/// The wrap point this code was written against.
const MAX: u64 = 262_143_328_850;

fn probe(id: &str, name: &str, access: Access) -> Probe {
    Probe {
        id: id.to_owned(),
        energy: PathBuf::from(format!("/sys/class/powercap/{id}/energy_uj")),
        access,
        name: Some(format!("{name}\n")),
        max_energy_range: Some(format!("{MAX}\n")),
    }
}

#[test]
fn measures_power_between_two_readings() {
    assert_eq!(
        trusted_interval(0, 1_000_000, MAX, 1_000_000_000),
        Some(Interval { delta_uj: 1_000_000, elapsed_ns: 1_000_000_000 })
    );
    assert_eq!(
        trusted_interval(1_000_000, 8_500_000, MAX, 3_000_000_000),
        Some(Interval { delta_uj: 7_500_000, elapsed_ns: 3_000_000_000 })
    );
}

#[test]
fn accounts_for_counter_wraparound() {
    // 2 J short of the top, wrapping round to 1 J past it: 3 J total, not a negative.
    let previous = MAX - 2_000_000;
    let current = 1_000_000;
    assert_eq!(delta_uj(previous, current, MAX), 3_000_000);
    assert_eq!(
        trusted_interval(previous, current, MAX, 1_000_000_000),
        Some(Interval { delta_uj: 3_000_000, elapsed_ns: 1_000_000_000 })
    );
}

#[test]
fn rejects_an_interval_too_long_to_trust() {
    assert_eq!(trusted_interval(0, 5_000_000, MAX, 3_600_000_000_000), None);
    assert_eq!(trusted_interval(0, 5_000_000, MAX, 0), None);
    assert!(trusted_interval(0, 5_000_000, MAX, 10_000_000_000).is_some());
    assert_eq!(trusted_interval(0, 5_000_000, MAX, 10_000_000_001), None);
}

#[test]
fn discovers_readable_domains() {
    let rapl = Rapl::from_probes(vec![
        probe("intel-rapl:0:0", "core", Access::Readable),
        probe("intel-rapl:0", "package-0", Access::Readable),
        probe("intel-rapl-mmio:0", "package-0", Access::Readable),
    ])
    .ok()
    .expect("both domains are readable");
    assert_eq!(rapl.domains.len(), 2);
    assert_eq!(rapl.domains[0].id, "intel-rapl:0");
    assert_eq!(rapl.domains[0].max_uj, MAX);
    assert_eq!(rapl.primary().map(|d| d.name.as_str()), Some("package-0"));
}

#[test]
fn reports_an_absent_tree_separately_from_an_unreadable_one() {
    assert_eq!(Rapl::from_probes(Vec::new()).err(), Some(Unavailable::NotPresent));
    assert_eq!(
        Rapl::from_probes(vec![probe("intel-rapl:0", "package-0", Access::Failed)]).err(),
        Some(Unavailable::NotPresent)
    );
    assert_eq!(
        Rapl::from_probes(vec![
            probe("intel-rapl:0", "package-0", Access::Denied),
            probe("intel-rapl:0:0", "core", Access::Failed),
        ])
        .err(),
        Some(Unavailable::PermissionDenied)
    );
    assert_eq!(Unavailable::NotPresent.reason(), "no RAPL counters on this machine");
    assert_eq!(
        Unavailable::PermissionDenied.reason(),
        "RAPL counters are root-only — see the README"
    );
}

#[test]
fn skips_a_zone_without_a_wrap_point() {
    let mut broken = probe("intel-rapl:1", "psys", Access::Readable);
    broken.max_energy_range = Some("unknown".to_owned());
    let rapl = Rapl::from_probes(vec![broken, probe("intel-rapl:0", "package-0", Access::Readable)])
        .ok()
        .expect("one zone is readable");
    assert_eq!(rapl.domains.len(), 1);
}

#[test]
fn charts_the_platform_zone_when_there_is_no_package() {
    let rapl = Rapl::from_probes(vec![
        probe("intel-rapl:0", "psys", Access::Readable),
        probe("intel-rapl:1", "dram", Access::Readable),
    ])
    .ok()
    .expect("readable");
    assert_eq!(rapl.primary().map(|d| d.name.as_str()), Some("psys"));
}

#[test]
fn separates_package_components_from_platform_zones() {
    let rapl = Rapl::from_probes(vec![
        probe("intel-rapl:0", "package-0", Access::Readable),
        probe("intel-rapl:0:0", "core", Access::Readable),
        probe("intel-rapl:0:1", "uncore", Access::Readable),
        probe("intel-rapl:1", "psys", Access::Readable),
    ])
    .ok()
    .expect("readable");
    let sub: Vec<&str> = rapl.subzones().iter().map(|d| d.name.as_str()).collect();
    assert_eq!(sub, vec!["core", "uncore"]);
    let platform: Vec<&str> = rapl.platform().iter().map(|d| d.name.as_str()).collect();
    assert_eq!(platform, vec!["psys"]);
}

#[test]
fn samples_a_domain_against_its_previous_reading() {
    let mut rapl = Rapl::from_probes(vec![probe("intel-rapl:0", "package-0", Access::Readable)])
        .ok()
        .expect("readable");
    let d = &mut rapl.domains[0];
    d.sample(Some(1_000_000), 5_000_000_000);
    assert_eq!(d.interval, None, "the first reading only sets a baseline");
    d.sample(Some(3_000_000), 6_000_000_000);
    assert_eq!(d.interval, Some(Interval { delta_uj: 2_000_000, elapsed_ns: 1_000_000_000 }));
    d.sample(None, 7_000_000_000);
    assert_eq!(d.interval, None);
    assert_eq!(d.previous, Some((3_000_000, 6_000_000_000)));
}

#[test]
fn recognises_rapl_zone_directories() {
    assert!(zone_dir("intel-rapl:0"));
    assert!(!zone_dir("intel-rapl-mmio:0"));
}

#[test]
fn decides_the_cpu_panel_from_the_mode() {
    assert!(!probes_counters(RaplMode::Off));
    assert!(probes_counters(RaplMode::Auto));
    assert_eq!(panel(RaplMode::Auto, Ok::<u8, Unavailable>(1)), Ok((Some(1), None)));
    assert_eq!(
        panel(RaplMode::Auto, Err::<u8, _>(Unavailable::PermissionDenied)),
        Ok((None, Some(Unavailable::PermissionDenied)))
    );
    assert_eq!(
        panel(RaplMode::On, Err::<u8, _>(Unavailable::NotPresent)),
        Err(Unavailable::NotPresent)
    );
    assert_eq!(cpu_reason(None), "not requested");
    assert_eq!(cpu_reason(Some(Unavailable::NotPresent)), "no RAPL counters on this machine");
}
