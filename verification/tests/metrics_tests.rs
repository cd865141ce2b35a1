use systemstat_core::health::{
    advisories, count_alerts, derive_system_health, overall_status, power_label, Advisory,
    HealthCause, HealthFlags, LoadLevel, ScoreBand, TempLevel,
};
use systemstat_core::sources::{
    clean_brand, cpu_model, drm_driver, first_line_trimmed, is_loopback, is_whole_disk,
    parse_default_route, parse_diskstats, parse_macos_route, parse_nvidia_smi,
    parse_nvidia_smi_output, read_cpu_freq_mhz, read_cpu_max_freq_mhz,
};

#[test]
fn is_loopback_matches_only_real_loopbacks() {
    assert!(is_loopback("lo")); // Linux
    assert!(is_loopback("lo0")); // BSD/macOS
    assert!(is_loopback("lo1"));
    assert!(!is_loopback("lobby0")); // real iface, must not be hidden
    assert!(!is_loopback("local0"));
    assert!(!is_loopback("eth0"));
}

#[test]
fn whole_disk_excludes_partitions_and_virtual() {
    // whole disks
    assert!(is_whole_disk("sda"));
    assert!(is_whole_disk("vdb"));
    assert!(is_whole_disk("hda"));
    assert!(is_whole_disk("nvme0n1"));
    assert!(is_whole_disk("mmcblk0"));
    // partitions
    assert!(!is_whole_disk("sda1"));
    assert!(!is_whole_disk("nvme0n1p2"));
    assert!(!is_whole_disk("mmcblk0p1"));
    // virtual / unrelated devices
    assert!(!is_whole_disk("loop0"));
    assert!(!is_whole_disk("ram0"));
    assert!(!is_whole_disk("dm-0"));
}

#[test]
fn diskstats_sums_whole_disks_only() {
    // Real-ish lines: [2]=name [5]=sectors read [9]=sectors written.
    let sample = "\
   8       0 sda 100 0 2000 50 200 0 4000 60 0 0 0
   8       1 sda1 10 0 999 5 20 0 999 6 0 0 0
 259       0 nvme0n1 1 0 1000 1 2 0 8000 2 0 0 0
   7       0 loop0 1 0 12345 1 0 0 0 0 0 0 0";
    // sda: read 2000, write 4000; nvme0n1: read 1000, write 8000.
    // sda1 (partition) and loop0 (virtual) excluded.
    assert_eq!(parse_diskstats(sample), (3000, 12000));
}

#[test]
fn diskstats_tolerates_short_and_garbage_lines() {
    assert_eq!(parse_diskstats(""), (0, 0));
    assert_eq!(parse_diskstats("garbage\n8 0 sda x y\n"), (0, 0));
}

#[test]
fn default_route_picks_zero_destination_iface() {
    // Real /proc/net/route shape: header then one row per route.
    let sample = "\
Iface\tDestination\tGateway\tFlags\tRefCnt\tUse\tMetric\tMask
eth0\t0000FEA9\t00000000\t0001\t0\t0\t1000\t0000FFFF
wlan0\t00000000\t0102A8C0\t0003\t0\t0\t600\t00000000
eth0\t00000000\t0101A8C0\t0003\t0\t0\t100\t00000000";
    // First row has a non-default destination; wlan0 is the real default route.
    assert_eq!(parse_default_route(sample), Some("wlan0".to_string()));
}

#[test]
fn macos_route_parses_interface_line() {
    let sample = "   route to: default\ndestination: default\n       mask: default\n    gateway: 192.168.1.1\n  interface: en0\n      flags: <UP,GATEWAY,DONE,STATIC,PRCLONING>\n";
    assert_eq!(parse_macos_route(sample), Some("en0".to_string()));
    assert_eq!(parse_macos_route(""), None);
    assert_eq!(parse_macos_route("gateway: 1.2.3.4\n"), None);
}

#[test]
fn default_route_none_when_absent_or_empty() {
    assert_eq!(parse_default_route(""), None);
    assert_eq!(parse_default_route("Iface\tDestination\n"), None);
    let no_default = "Iface\tDestination\neth0\t0000FEA9\n";
    assert_eq!(parse_default_route(no_default), None);
}

#[test]
fn clean_brand_strips_marks_filler_and_clock() {
    assert_eq!(
        clean_brand("Intel(R) Xeon(R) CPU E5-2620 v3 @ 2.40GHz"),
        "Intel Xeon E5-2620 v3"
    );
    assert_eq!(
        clean_brand("Intel(R) Core(TM) i7-9750H CPU @ 2.60GHz"),
        "Intel Core i7-9750H"
    );
    // ARM brands carry none of that cruft and pass through unchanged.
    assert_eq!(clean_brand("Cortex-A76"), "Cortex-A76");
    assert_eq!(clean_brand("  AMD Ryzen 9 5900X  "), "AMD Ryzen 9 5900X");
}

// The health derivations take the outcome of each threshold comparison; the
// comments give the readings and default thresholds the comparisons are on.

#[test]
fn system_health_nominal_is_full() {
    // 45 °C (warn 80: not above 60), 0.3 load/core, 10% CPU, no memory pressure.
    let (h, why) = derive_system_health(TempLevel::Cool, LoadLevel::Normal, false, false);
    assert_eq!(h, 100);
    assert_eq!(why, HealthCause::Nominal);
}

#[test]
fn system_health_penalises_and_names_dominant_cause() {
    // hot CPU (85 °C >= 80) dominates the reason.
    let (h, why) = derive_system_health(TempLevel::AtWarning, LoadLevel::Normal, false, false);
    assert_eq!(h, 70);
    assert_eq!(why, HealthCause::Temp);

    // memory pressure names itself when nothing hotter trips.
    let (_h, why) = derive_system_health(TempLevel::Cool, LoadLevel::Normal, false, true);
    assert_eq!(why, HealthCause::MemoryPressure);

    // stacked penalties (95 °C, 3.0 load/core, 95% CPU, memory pressure) stay in range.
    let (h, _why) = derive_system_health(TempLevel::AtWarning, LoadLevel::Severe, true, true);
    assert_eq!(h, 30);
}

#[test]
fn alerts_count_distinct_conditions() {
    assert_eq!(count_alerts(&HealthFlags::default(), false, false), 0);
    let h = HealthFlags { thermal_warn: true, ..HealthFlags::default() };
    // CPU load 95 > 90 and disk 95 > 90.
    assert_eq!(count_alerts(&h, true, true), 3);
}

#[test]
fn overall_status_tiers() {
    assert_eq!(overall_status(ScoreBand::Good, 0), "Healthy");
    // one alert (or a sub-80 score) drops to Degraded
    assert_eq!(overall_status(ScoreBand::Good, 1), "Degraded");
    assert_eq!(overall_status(ScoreBand::Fair, 0), "Degraded");
    // a very low score or 3+ alerts is Critical
    assert_eq!(overall_status(ScoreBand::Low, 0), "Critical");
    assert_eq!(overall_status(ScoreBand::Good, 3), "Critical");
}

#[test]
fn power_label_cases() {
    let hot = HealthFlags { thermal_warn: true, ..HealthFlags::default() };
    assert_eq!(power_label(&hot), "Thermal-limited");
    let busy = HealthFlags { cpu_pressure: true, ..HealthFlags::default() };
    assert_eq!(power_label(&busy), "Under load");
    assert_eq!(power_label(&HealthFlags::default()), "Nominal");
    let both = HealthFlags { thermal_warn: true, cpu_pressure: true, ..HealthFlags::default() };
    assert_eq!(power_label(&both), "Thermal-limited");
}

#[test]
fn advisory_kinds_in_order_and_empty_when_nominal() {
    assert!(advisories(&HealthFlags::default(), false, false, false).is_empty());
    let h = HealthFlags { thermal_warn: true, mem_pressure: true, ..HealthFlags::default() };
    assert_eq!(
        advisories(&h, false, true, true),
        vec![
            Advisory::RunningHot,
            Advisory::MemoryPressure,
            Advisory::Swapping,
            Advisory::DiskNearlyFull
        ]
    );
    let busy = HealthFlags { cpu_pressure: true, ..HealthFlags::default() };
    assert_eq!(advisories(&busy, false, false, false), vec![Advisory::HighCpuLoad]);
    assert_eq!(advisories(&HealthFlags::default(), true, false, false), vec![Advisory::HighCpuLoad]);
}

#[test]
fn nvidia_fields_split_and_trimmed() {
    let g = parse_nvidia_smi("NVIDIA GeForce RTX 3080, 37, 52, 1234, 10240").unwrap();
    assert_eq!(g.name, "NVIDIA GeForce RTX 3080");
    assert_eq!(g.util, "37");
    assert_eq!(g.temp, "52");
    assert_eq!(g.mem_used, "1234");
    assert_eq!(g.mem_total, "10240");
    let g = parse_nvidia_smi("Tesla T4, [N/A], 40, 100, 16000").unwrap();
    assert_eq!(g.util, "[N/A]");
    assert_eq!(g.temp, "40");
    assert!(parse_nvidia_smi("").is_none());
    assert!(parse_nvidia_smi("only,three,fields").is_none());
    assert!(parse_nvidia_smi(" , 1, 2, 3, 4").is_none());
    let g = parse_nvidia_smi_output("Tesla T4, 5, 40, 100, 16000\nOther, 1, 2, 3, 4\n").unwrap();
    assert_eq!(g.name, "Tesla T4");
    assert_eq!(g.util, "5");
}

#[test]
fn cpufreq_files_read_in_mhz() {
    assert_eq!(read_cpu_freq_mhz(Some("2140000\n")), Some(2140));
    assert_eq!(read_cpu_max_freq_mhz(Some("  3200999  \nignored\n")), Some(3200));
    assert_eq!(read_cpu_freq_mhz(None), None);
    assert_eq!(read_cpu_freq_mhz(Some("")), None);
    assert_eq!(read_cpu_freq_mhz(Some("fast\n")), None);
    assert_eq!(read_cpu_freq_mhz(Some("+999\n")), Some(0));
    assert_eq!(read_cpu_freq_mhz(Some("-5\n")), None);
    assert_eq!(read_cpu_max_freq_mhz(Some("18446744073709551616\n")), None);
    assert_eq!(read_cpu_max_freq_mhz(Some("18446744073709551615")), Some(18446744073709551));
}

#[test]
fn first_line_trimmed_reads_one_line() {
    assert_eq!(first_line_trimmed("  51000 \nsecond\n"), "51000");
    assert_eq!(first_line_trimmed(""), "");
    assert_eq!(first_line_trimmed("\n\nthird"), "");
}

#[test]
fn drm_driver_reads_uevent() {
    assert_eq!(drm_driver("PCI_CLASS=30000\nDRIVER=amdgpu\nPCI_ID=1002:73BF\n"), Some("amdgpu".to_string()));
    assert_eq!(drm_driver("DRIVER=i915\r\n"), Some("i915".to_string()));
    assert_eq!(drm_driver("PCI_CLASS=30000\n"), None);
    assert_eq!(drm_driver(" DRIVER=x\n"), None);
}

#[test]
fn cpu_model_falls_back() {
    assert_eq!(cpu_model(Some("Intel(R) Xeon(R) CPU @ 2.40GHz"), None), "Intel Xeon");
    assert_eq!(cpu_model(Some("CPU @ 1GHz"), Some("Ubuntu".to_string())), "Ubuntu");
    assert_eq!(cpu_model(None, None), "Unknown");
    assert_eq!(cpu_model(Some(""), None), "Unknown");
}

#[test]
fn clean_brand_replaces_left_to_right_and_collapses() {
    assert_eq!(clean_brand("A(tm)  B\tCPU\nC"), "A B C");
    assert_eq!(clean_brand("@ only clock"), "");
    assert_eq!(clean_brand("CPUs are not CPU"), "CPUs are not");
}

#[test]
fn whitespace_includes_unicode_spaces() {
    assert_eq!(clean_brand("Arm\u{00A0}Cortex\u{3000}X1"), "Arm Cortex X1");
    assert_eq!(parse_diskstats("8 0 sda\u{2003}1 0 7 0 0 0 9 0"), (7, 9));
}

#[test]
fn diskstats_wraps_like_release_builds() {
    let s = "8 0 sda 0 0 18446744073709551615 0 0 0 1 0\n8 16 sdb 0 0 2 0 0 0 1 0\n";
    assert_eq!(parse_diskstats(s), (1, 2));
}

#[test]
fn diskstats_adds_over_joined_text() {
    let a = "8 0 sda 1 2 300 4 5 6 700 8\n8 1 sda1 1 2 50 4 5 6 60 8";
    let b = "259 0 nvme0n1 1 2 20 4 5 6 30 8\r\nnot a disk line";
    let joined = format!("{a}\n{b}");
    let (ra, wa) = parse_diskstats(a);
    let (rb, wb) = parse_diskstats(b);
    assert_eq!((ra, wa), (300, 700));
    assert_eq!((rb, wb), (20, 30));
    assert_eq!(parse_diskstats(&joined), (ra + rb, wa + wb));
}

#[test]
fn diskstats_one_line_gives_its_fields() {
    assert_eq!(parse_diskstats("259 0 nvme0n1 0 0 11 0 0 0 13 0"), (11, 13));
    // field 2 is a partition: nothing.
    assert_eq!(parse_diskstats("8 1 sda1 0 0 11 0 0 0 13 0"), (0, 0));
    // nine fields: nothing.
    assert_eq!(parse_diskstats("8 0 sda 0 0 11 0 0 0"), (0, 0));
    // a field that is not a number counts as zero.
    assert_eq!(parse_diskstats("8 0 sda 0 0 x 0 0 0 13 0"), (0, 13));
}
