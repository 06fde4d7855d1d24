use checkr::allowed_ports::{
    AllowedPortsChecker, AllowedPortsConfig, AllowedPortsSettings, OpenPortsSource, PortBounds,
    PortEntry, PortOwnerInfo, SsInvokeError, SsRunner, SsSource, WrongAllowedPortsSettingsError,
};
use checkr::check::{CheckResult, CheckStatus, Checker};

struct FakeSource {
    entries: Vec<PortEntry>,
    fail: bool,
}

impl OpenPortsSource for FakeSource {
    fn parse_values(&self) -> Result<Vec<PortEntry>, String> {
        if self.fail {
            Err("boom".to_string())
        } else {
            Ok(self.entries.clone())
        }
    }
}

fn entry(owner: &str, port: u16) -> PortEntry {
    PortEntry::from((owner.to_string(), port))
}

fn info(owner: &str, ports: &[&str]) -> PortOwnerInfo {
    PortOwnerInfo {
        owner: owner.to_string(),
        ports: ports.iter().map(|p| p.to_string()).collect(),
    }
}

fn settings(processes: Vec<PortOwnerInfo>) -> AllowedPortsSettings {
    AllowedPortsSettings::try_from(&AllowedPortsConfig {
        enabled: true,
        processes,
    })
    .unwrap()
}

#[test]
fn port_bounds_single_port() {
    let b = PortBounds::try_from("22").unwrap();
    assert_eq!((b.min, b.max), (22, 22));
}

#[test]
fn port_bounds_range_ignores_whitespace() {
    let b = PortBounds::try_from(" 8000 - 8100 ").unwrap();
    assert_eq!((b.min, b.max), (8000, 8100));
    let c = PortBounds::try_from("8000-8100").unwrap();
    assert_eq!((c.min, c.max), (8000, 8100));
}

#[test]
fn port_bounds_accepts_plus_sign_and_leading_zeros() {
    let b = PortBounds::try_from("+0022").unwrap();
    assert_eq!((b.min, b.max), (22, 22));
}

#[test]
fn port_bounds_too_many_dashes() {
    assert_eq!(
        PortBounds::try_from("1-2-3").unwrap_err(),
        WrongAllowedPortsSettingsError::InvalidPortBounds("1-2-3".to_string())
    );
}

#[test]
fn port_bounds_bad_values() {
    assert_eq!(
        PortBounds::try_from("abc").unwrap_err(),
        WrongAllowedPortsSettingsError::InvalidPortValue("abc".to_string())
    );
    assert_eq!(
        PortBounds::try_from("65536").unwrap_err(),
        WrongAllowedPortsSettingsError::InvalidPortValue("65536".to_string())
    );
    assert_eq!(
        PortBounds::try_from("10-").unwrap_err(),
        WrongAllowedPortsSettingsError::InvalidPortValue("10-".to_string())
    );
    assert_eq!(
        PortBounds::try_from("").unwrap_err(),
        WrongAllowedPortsSettingsError::InvalidPortValue("".to_string())
    );
    assert_eq!(
        PortBounds::try_from("-5").unwrap_err(),
        WrongAllowedPortsSettingsError::InvalidPortValue("-5".to_string())
    );
}

#[test]
fn port_bounds_keeps_reversed_range() {
    let b = PortBounds::try_from("90-80").unwrap();
    assert_eq!((b.min, b.max), (90, 80));
}

#[test]
fn settings_disabled_ignores_processes() {
    let s = AllowedPortsSettings::try_from(&AllowedPortsConfig {
        enabled: false,
        processes: vec![info("sshd", &["not a port"])],
    })
    .unwrap();
    assert!(!s.enabled);
    assert!(s.processes.is_empty());
}

#[test]
fn settings_enabled_without_processes_is_disabled() {
    let s = AllowedPortsSettings::try_from(&AllowedPortsConfig {
        enabled: true,
        processes: vec![],
    })
    .unwrap();
    assert!(!s.enabled);
    assert!(s.processes.is_empty());
}

#[test]
fn settings_first_bad_port_is_reported() {
    let err = AllowedPortsSettings::try_from(&AllowedPortsConfig {
        enabled: true,
        processes: vec![info("a", &["1", "x"]), info("b", &["1-2-3"])],
    })
    .err()
    .unwrap();
    assert_eq!(err, WrongAllowedPortsSettingsError::InvalidPortValue("x".to_string()));
}

#[test]
fn settings_later_entry_of_an_owner_wins() {
    let s = settings(vec![
        info("nginx", &["80"]),
        info("sshd", &["22"]),
        info("nginx", &["443", "8000-8100"]),
    ]);
    assert!(s.enabled);
    assert_eq!(s.processes.len(), 2);
    assert_eq!(s.processes[0].owner, "nginx");
    let b: Vec<(u16, u16)> = s.processes[0].bounds.iter().map(|b| (b.min, b.max)).collect();
    assert_eq!(b, vec![(443, 443), (8000, 8100)]);
    assert_eq!(s.processes[1].owner, "sshd");
}

#[test]
fn port_entry_is_shown_with_owner_and_port() {
    assert_eq!(entry("sshd", 22).to_string(), "[sshd]: 22");
    assert_eq!(entry("x", 0).to_string(), "[x]: 0");
    assert_eq!(entry("", 65535).to_string(), "[]: 65535");
}

#[test]
fn checker_is_ok_when_everything_is_allowed() {
    let checker = AllowedPortsChecker::new(
        settings(vec![info("nginx", &["80", "443"]), info("node", &["3000-3999"])]),
        FakeSource {
            entries: vec![entry("nginx", 443), entry("node", 3000), entry("node", 3999)],
            fail: false,
        },
    );
    assert_eq!(checker.get_name(), "allowed_ports");
    assert!(checker.is_enabled());
    assert_eq!(
        checker.check().unwrap(),
        CheckResult::new("allowed_ports".to_string(), CheckStatus::OK, None)
    );
}

#[test]
fn checker_reports_unallowed_ports_in_order() {
    let checker = AllowedPortsChecker::new(
        settings(vec![info("nginx", &["80"]), info("node", &["3000-3999"])]),
        FakeSource {
            entries: vec![
                entry("nginx", 80),
                entry("sshd", 22),
                entry("node", 4000),
                entry("node", 3500),
            ],
            fail: false,
        },
    );
    assert_eq!(
        checker.check().unwrap(),
        CheckResult::new(
            "allowed_ports".to_string(),
            CheckStatus::CRITICAL,
            Some("[sshd]: 22; [node]: 4000".to_string())
        )
    );
}

#[test]
fn checker_disabled_does_not_read_source() {
    let checker = AllowedPortsChecker::new(
        AllowedPortsSettings::try_from(&AllowedPortsConfig {
            enabled: false,
            processes: vec![],
        })
        .unwrap(),
        FakeSource {
            entries: vec![],
            fail: true,
        },
    );
    assert!(!checker.is_enabled());
    assert_eq!(
        checker.check().unwrap(),
        CheckResult::new("allowed_ports".to_string(), CheckStatus::DISABLED, None)
    );
}

#[test]
fn checker_passes_source_error_on() {
    let checker = AllowedPortsChecker::new(
        settings(vec![info("nginx", &["80"])]),
        FakeSource {
            entries: vec![],
            fail: true,
        },
    );
    assert_eq!(checker.check().unwrap_err(), "boom");
}

#[test]
fn format_response_joins_entries() {
    let checker = AllowedPortsChecker::new(
        settings(vec![info("nginx", &["80"])]),
        FakeSource {
            entries: vec![],
            fail: false,
        },
    );
    assert_eq!(checker.format_response(vec![]), "");
    assert_eq!(checker.format_response(vec![entry("a", 1)]), "[a]: 1");
    assert_eq!(
        checker.format_response(vec![entry("a", 1), entry("b", 2), entry("c", 3)]),
        "[a]: 1; [b]: 2; [c]: 3"
    );
}

#[test]
fn ss_source_parses_output_into_entries() {
    let out = "tcp LISTEN 0 128 0.0.0.0:22 0.0.0.0:* users:((\"sshd\",pid=743,fd=3))\n".to_string();
    let entries = SsSource::parse_output(out).unwrap();
    assert_eq!(entries, vec![entry("sshd", 22)]);
}

#[test]
fn ss_runner_output_and_failure() {
    assert_eq!(SsRunner::from_output(true, b"abc", b"err").unwrap(), "abc");
    assert_eq!(
        SsRunner::from_output(false, b"abc", b"err").unwrap_err(),
        SsInvokeError::WrongStatusCode("err".to_string())
    );
    assert_eq!(
        SsRunner::from_output(true, &[0x61, 0xff, 0x62], b"").unwrap(),
        "a\u{FFFD}b"
    );
}

#[test]
fn shown_port_reads_back_as_that_port() {
    for port in [0u16, 7, 22, 443, 8080, 65535] {
        let shown = entry("p", port).to_string();
        let digits = shown.rsplit(' ').next().unwrap();
        let b = PortBounds::try_from(digits).unwrap();
        assert_eq!((b.min, b.max), (port, port));
    }
}
