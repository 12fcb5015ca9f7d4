use trmnl_cyberpunk::hosts::{assemble_hosts, cluster_metrics, host_key, label_pair, HostSamples};

#[test]
fn host_keys_drop_ports() {
    assert_eq!(host_key(Some("10.0.0.1:9100"), Some("n1")), "10.0.0.1");
    assert_eq!(host_key(None, Some("node-a:1")), "node-a");
    assert_eq!(host_key(Some("asgard"), None), "asgard");
    assert_eq!(host_key(None, None), "unknown");
}

#[test]
fn uname_pairs_need_both_labels() {
    assert_eq!(label_pair(Some("192.168.1.10:9100"), Some("asgard")), Some(("192.168.1.10".to_string(), "asgard".to_string())));
    assert_eq!(label_pair(None, Some("asgard")), None);
    assert_eq!(label_pair(Some(":9100"), Some("x")), None);
    assert_eq!(label_pair(Some("h:1"), Some("")), None);
}

fn empty_samples() -> HostSamples {
    HostSamples {
        cpu: vec![],
        temp: vec![],
        ram: vec![],
        disk: vec![],
        uptime: vec![],
        load1: vec![],
        load5: vec![],
        load15: vec![],
        ram_used: vec![],
        ram_total: vec![],
        names: vec![],
    }
}

#[test]
fn no_hosts_is_none() {
    assert!(assemble_hosts(&empty_samples()).is_none());
    let mut s = empty_samples();
    s.temp.push(("a".to_string(), 50));
    assert!(assemble_hosts(&s).is_none(), "temperature alone names no host");
}

#[test]
fn hosts_sorted_with_names_and_defaults() {
    let mut s = empty_samples();
    s.uptime = vec![("b".to_string(), 3), ("a".to_string(), 9)];
    s.cpu = vec![("a".to_string(), 40), ("c".to_string(), 75), ("a".to_string(), 41)];
    s.disk = vec![("b".to_string(), 12)];
    s.load1 = vec![("a".to_string(), 82)];
    s.ram_used = vec![("a".to_string(), 99)];
    s.ram_total = vec![("a".to_string(), 16)];
    s.names = vec![("a".to_string(), "alpha".to_string())];
    let hosts = assemble_hosts(&s).unwrap();
    let names: Vec<&str> = hosts.iter().map(|h| h.name.as_str()).collect();
    assert_eq!(names, vec!["alpha", "b", "c"]);
    assert_eq!(hosts[0].cpu, 41, "the later sample wins");
    assert_eq!(hosts[0].uptime_days, 9);
    assert_eq!(hosts[0].load_centi, [82, 0, 0]);
    assert_eq!((hosts[0].ram_used_dgib, hosts[0].ram_total_gib), (99, 16));
    assert_eq!(hosts[1].disk_pct, 12);
    assert_eq!(hosts[1].cpu, 0);
    assert_eq!(hosts[2].cpu, 75);
    assert_eq!(hosts[2].uptime_days, 0);
}

#[test]
fn cluster_rollup() {
    assert_eq!(cluster_metrics(None, None, None), None);
    let m = cluster_metrics(Some(Some(37)), None, Some(None)).unwrap();
    assert_eq!((m.cpu_pct, m.ram_pct, m.disk_pct), (37, 0, 0));
    let m = cluster_metrics(None, Some(Some(80)), None).unwrap();
    assert_eq!((m.cpu_pct, m.ram_pct, m.disk_pct), (0, 80, 0));
}
