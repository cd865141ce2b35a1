use systemstat_core::procs::{select_procs, view_order, PROC_LIMIT};
use systemstat_core::select::{
    last_max_index, pick_cpu_sensor, primary_iface, root_disk_index, DiskSample, FreqTracker,
    GpuProbe, LinkSample,
};

fn link(name: &str, rx: u64, tx: u64, total: u64) -> LinkSample {
    LinkSample { name: name.to_string(), received: rx, transmitted: tx, cumulative: total }
}

#[test]
fn primary_iface_prefers_default_route_then_busiest() {
    let links = vec![link("lo", 9, 9, 1000), link("eth0", 1, 2, 50), link("docker0", 3, 4, 10)];
    assert_eq!(primary_iface(&links, Some("docker0".to_string())), Some(("docker0".to_string(), 3, 4)));
    assert_eq!(primary_iface(&links, Some("wlan0".to_string())), Some(("eth0".to_string(), 1, 2)));
    assert_eq!(primary_iface(&links, None), Some(("eth0".to_string(), 1, 2)));
    // the default route never selects a loopback
    assert_eq!(primary_iface(&links, Some("lo".to_string())), Some(("eth0".to_string(), 1, 2)));
    // ties go to the last busiest link
    let tied = vec![link("a", 1, 1, 7), link("b", 2, 2, 7)];
    assert_eq!(primary_iface(&tied, None), Some(("b".to_string(), 2, 2)));
    assert_eq!(primary_iface(&vec![link("lo0", 1, 1, 1)], None), None);
    assert_eq!(primary_iface(&vec![], Some("eth0".to_string())), None);
}

#[test]
fn root_disk_then_largest() {
    let d = vec![
        DiskSample { is_root: false, total_space: 10 },
        DiskSample { is_root: true, total_space: 5 },
        DiskSample { is_root: true, total_space: 50 },
    ];
    assert_eq!(root_disk_index(&d), Some(1));
    let d = vec![
        DiskSample { is_root: false, total_space: 10 },
        DiskSample { is_root: false, total_space: 30 },
        DiskSample { is_root: false, total_space: 30 },
    ];
    assert_eq!(root_disk_index(&d), Some(2));
    assert_eq!(root_disk_index(&vec![]), None);
}

#[test]
fn last_max_index_picks_last_maximum() {
    assert_eq!(last_max_index(&vec![]), None);
    assert_eq!(last_max_index(&vec![3, 9, 1, 9, 2]), Some(3));
    assert_eq!(last_max_index(&vec![5]), Some(0));
}

#[test]
fn procs_keep_union_of_top_lists() {
    // 20 processes: CPU rises with the index, memory falls with it.
    let n = 20u64;
    let cpu: Vec<u64> = (0..n).collect();
    let mem: Vec<u64> = (0..n).map(|i| n - i).collect();
    let notable: Vec<u64> = (0..n).map(|i| i.max(n - i)).collect();
    let sel = select_procs(&cpu, &mem, &notable);
    // top 15 by CPU are 5..20, top 15 by memory are 0..15: all kept.
    assert_eq!(sel.len(), 20);
    for w in sel.windows(2) {
        assert!(notable[w[0]] >= notable[w[1]]);
    }
    // 40 processes, where only the top 15 by each key survive.
    let n = 40u64;
    let cpu: Vec<u64> = (0..n).collect();
    let mem: Vec<u64> = (0..n).collect();
    let sel = select_procs(&cpu, &mem, &cpu);
    assert_eq!(sel.len(), PROC_LIMIT);
    assert_eq!(sel, (25..40).rev().collect::<Vec<usize>>());
    // ties keep their order of arrival
    let sel = select_procs(&vec![1, 1, 1], &vec![0, 0, 0], &vec![2, 2, 2]);
    assert_eq!(sel, vec![0, 1, 2]);
}

#[test]
fn cpu_sensor_by_label() {
    let labels = |v: &[&str]| v.iter().map(|s| s.to_string()).collect::<Vec<String>>();
    assert_eq!(pick_cpu_sensor(&labels(&["acpitz", "Core 0", "Package id 0"])), Some(2));
    assert_eq!(pick_cpu_sensor(&labels(&["acpitz", "k10temp Tctl", "CPU"])), Some(2));
    assert_eq!(pick_cpu_sensor(&labels(&["nvme", "coretemp Core 1"])), Some(1));
    assert_eq!(pick_cpu_sensor(&labels(&["nvme", "wifi"])), Some(0));
    assert_eq!(pick_cpu_sensor(&labels(&[])), None);
}

#[test]
fn freq_tracker_keeps_ceiling_above_current() {
    let mut t = FreqTracker::new();
    assert_eq!(t.update(Some(2000), Some(1000), None), (2000, 2000));
    assert_eq!(t.update(None, Some(1500), None), (1500, 2000));
    assert_eq!(t.update(None, None, Some(3200)), (0, 3200));
    assert_eq!(t.update(Some(3500), None, Some(3200)), (3500, 3500));
    assert_eq!(t.peak_mhz, 3500);
}

#[test]
fn view_order_sorts_stably_largest_first() {
    assert_eq!(view_order(&vec![]), Vec::<usize>::new());
    assert_eq!(view_order(&vec![3, 9, 3, 1, 9]), vec![1, 4, 0, 2, 3]);
}

#[test]
fn gpu_probe_stops_after_first_miss() {
    let mut p = GpuProbe::new();
    assert!(p.active);
    p.record(true);
    assert!(p.active);
    p.record(false);
    assert!(!p.active);
    p.record(true);
    assert!(!p.active);
}
