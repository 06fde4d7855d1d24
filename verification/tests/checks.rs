use checkr::check::{resolve_thresholds, CheckResult, CheckStatus, ThresholdMode};
use checkr::cpu::{CpuParseError, ProcLoadavg};
use checkr::disk_usage::{
    DiskUsageCounts, MountEntry, ProcDiskUsage, ProcSelfMounts, SelfMountsError, StatfsData,
    StatvfsFields,
};
use checkr::ram::ProcMeminfo;

#[test]
fn it_should_miss_1m_value() {
    let err = ProcLoadavg::loadavg_fields("").unwrap_err();
    match err {
        CpuParseError(msg) => assert!(msg.contains("missing 1m")),
    }
}

#[test]
fn it_should_miss_5m_value() {
    let err = ProcLoadavg::loadavg_fields("just").unwrap_err();
    match err {
        CpuParseError(msg) => assert!(msg.contains("missing 5m")),
    }
}

#[test]
fn it_should_miss_15m_value() {
    let err = ProcLoadavg::loadavg_fields("just random").unwrap_err();
    match err {
        CpuParseError(msg) => assert!(msg.contains("missing 15m")),
    }
}

#[test]
fn loadavg_fields_are_the_first_three_words() {
    let (a, b, c) = ProcLoadavg::loadavg_fields("0.52 0.58 0.59 1/467 12345\n").unwrap();
    assert_eq!((a.as_str(), b.as_str(), c.as_str()), ("0.52", "0.58", "0.59"));
}

#[test]
fn levels_critical_first_then_warning_then_ok() {
    let crit = CheckResult::from_levels("x".into(), Some("c".into()), Some("w".into()));
    assert_eq!(crit, CheckResult::new("x".into(), CheckStatus::CRITICAL, Some("c".into())));
    let warn = CheckResult::from_levels("x".into(), None, Some("w".into()));
    assert_eq!(warn, CheckResult::new("x".into(), CheckStatus::WARNING, Some("w".into())));
    let ok = CheckResult::from_levels("x".into(), None, None);
    assert_eq!(ok, CheckResult::new("x".into(), CheckStatus::OK, None));
    let off = CheckResult::disabled("x".into());
    assert_eq!(off, CheckResult::new("x".into(), CheckStatus::DISABLED, None));
}

#[test]
fn outcome_error_becomes_error_result() {
    let r = CheckResult::from_outcome("ram", Err("no file".to_string()));
    assert_eq!(r, CheckResult::new("ram".into(), CheckStatus::ERROR, Some("no file".into())));
    let ok = CheckResult::new("ram".into(), CheckStatus::OK, None);
    assert_eq!(CheckResult::from_outcome("ram", Ok(ok.clone())), ok);
}

#[test]
fn task_failure_becomes_unknown_error() {
    assert_eq!(
        CheckResult::from_task(None),
        CheckResult::new("unknown".into(), CheckStatus::ERROR, Some("Join error".into()))
    );
}

#[test]
fn thresholds_resolution() {
    assert_eq!(resolve_thresholds(Some(false), None::<u8>, None), Some(ThresholdMode::Disabled));
    assert_eq!(resolve_thresholds(Some(false), Some(1u8), Some(2)), Some(ThresholdMode::Disabled));
    assert_eq!(
        resolve_thresholds(None, Some(1u8), Some(2)),
        Some(ThresholdMode::Enabled { warning: 1, critical: 2 })
    );
    assert_eq!(
        resolve_thresholds(Some(true), Some(1u8), Some(2)),
        Some(ThresholdMode::Enabled { warning: 1, critical: 2 })
    );
    assert_eq!(resolve_thresholds(Some(true), Some(1u8), None), None);
    assert_eq!(resolve_thresholds(None, None::<u8>, Some(2)), None);
}

#[test]
fn meminfo_fields_take_the_second_word_of_the_last_line() {
    let meminfo = "MemTotal:       1000 kB\nMemFree: 1 kB\nMemAvailable:    500 kB\n            ";
    let (total, available) = ProcMeminfo::meminfo_fields(meminfo);
    assert_eq!(total.as_deref(), Some("1000"));
    assert_eq!(available.as_deref(), Some("500"));

    let (total, available) = ProcMeminfo::meminfo_fields("Just the random string");
    assert_eq!((total, available), (None, None));

    let (total, _) = ProcMeminfo::meminfo_fields("MemTotal: 1 kB\nMemTotal:\n");
    assert_eq!(total, None);

    let (total, _) = ProcMeminfo::meminfo_fields("MemTotal: 1 kB\nMemTotal: 7 kB");
    assert_eq!(total.as_deref(), Some("7"));
}

#[test]
fn kb_field_is_the_second_word() {
    let line: Vec<char> = "MemTotal:        1921988 kB".chars().collect();
    assert_eq!(ProcMeminfo::kb_field(&line).as_deref(), Some("1921988"));
    let line: Vec<char> = "Just".chars().collect();
    assert_eq!(ProcMeminfo::kb_field(&line), None);
}

fn mount(source: &str, target: &str, fs_type: &str) -> MountEntry {
    MountEntry {
        source: source.into(),
        target: target.into(),
        fs_type: fs_type.into(),
    }
}

#[test]
fn mounts_are_parsed_line_by_line() {
    let m = ProcSelfMounts::new();
    assert_eq!(m.mounts_path(), "/proc/self/mounts");
    let info = "/dev/sda1 / ext4 rw 0 0\nproc /proc proc rw 0 0\n";
    assert_eq!(
        m.parse_mounts(info).unwrap(),
        vec![mount("/dev/sda1", "/", "ext4"), mount("proc", "/proc", "proc")]
    );
}

#[test]
fn short_mount_line_is_refused() {
    let m = ProcSelfMounts::new();
    let err = m.parse_mounts("/dev/sda1 / ext4\nbroken line\n").unwrap_err();
    assert_eq!(
        err,
        SelfMountsError::ParseError("/proc/self/mounts: Invalid line: broken line".into())
    );
}

#[test]
fn virtual_filesystems_are_skipped() {
    let kept = ProcDiskUsage::filter_mount_entries(vec![
        mount("proc", "/proc", "proc"),
        mount("/dev/sda1", "/", "ext4"),
        mount("tmpfs", "/run", "tmpfs"),
        mount("/dev/sdb1", "/home", "xfs"),
        mount("overlay", "/var/lib/docker", "overlay"),
    ]);
    assert_eq!(
        kept,
        vec![mount("/dev/sda1", "/", "ext4"), mount("/dev/sdb1", "/home", "xfs")]
    );
    assert!(ProcDiskUsage::is_skipped_fs("cgroup2"));
    assert!(!ProcDiskUsage::is_skipped_fs("ext4"));
}

#[test]
fn mount_entries_are_parsed_and_filtered() {
    let m = ProcSelfMounts::new();
    let info = "sysfs /sys sysfs rw 0 0\n/dev/sda1 / ext4 rw 0 0\n";
    assert_eq!(
        ProcDiskUsage::get_mount_entries(&m, info).unwrap(),
        vec![mount("/dev/sda1", "/", "ext4")]
    );
}

#[test]
fn disk_counts_use_fragment_size_and_saturate() {
    let f = StatvfsFields {
        f_bsize: 4096,
        f_frsize: 1024,
        f_blocks: 100,
        f_bfree: 40,
        f_bavail: 30,
    };
    assert_eq!(
        StatfsData::calc_disk_usage_for(&f),
        DiskUsageCounts {
            total: 102400,
            free: 40960,
            available: 30720,
            used: 61440
        }
    );
    let g = StatvfsFields {
        f_bsize: 512,
        f_frsize: 0,
        f_blocks: u64::MAX,
        f_bfree: 10,
        f_bavail: 5,
    };
    assert_eq!(
        StatfsData::calc_disk_usage_for(&g),
        DiskUsageCounts {
            total: u64::MAX,
            free: 5120,
            available: 2560,
            used: u64::MAX - 5120
        }
    );
    let h = StatvfsFields {
        f_bsize: 1,
        f_frsize: 0,
        f_blocks: 5,
        f_bfree: 9,
        f_bavail: 0,
    };
    assert_eq!(StatfsData::calc_disk_usage_for(&h).used, 0);
}

#[test]
fn filtering_mounts_twice_changes_nothing() {
    let once = ProcDiskUsage::filter_mount_entries(vec![
        mount("proc", "/proc", "proc"),
        mount("/dev/sda1", "/", "ext4"),
        mount("tmpfs", "/run", "tmpfs"),
    ]);
    let twice = ProcDiskUsage::filter_mount_entries(once.clone());
    assert_eq!(once, twice);
}
