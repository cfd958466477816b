use stream_backend::metrics::{
    is_virtual_iface, jiffy_delta, parse_cpu_all, parse_mem, pick_primary_iface, used_memory,
    MetricsSamples,
};

#[test]
fn parses_per_cpu() {
    let stat = "cpu  100 0 50 800 50 0 0 0 0 0\n\
                cpu0 50 0 25 400 25 0 0 0 0 0\n\
                cpu1 50 0 25 400 25 0 0 0 0 0\n\
                intr 0\n";
    let ((idle, total), cores) = parse_cpu_all(stat).unwrap();
    assert_eq!(idle, 850); // 800 + 50
    assert_eq!(total, 1000);
    assert_eq!(cores.len(), 2);
    assert_eq!(cores[0], (425, 500));
}

#[test]
fn parses_mem_with_cache() {
    let m = "MemTotal:       8000000 kB\n\
             MemAvailable:   2000000 kB\n\
             Buffers:         100000 kB\n\
             Cached:         1500000 kB\n\
             SReclaimable:    200000 kB\n";
    let info = parse_mem(m).unwrap();
    assert_eq!(info.total_bytes, 8_000_000 * 1024);
    assert_eq!(info.avail_bytes, 2_000_000 * 1024);
    assert_eq!(info.buffers_bytes, 100_000 * 1024);
    assert_eq!(info.cached_bytes, (1_500_000 + 200_000) * 1024);
}

#[test]
fn picks_physical_iface_skipping_docker_and_veth() {
    let net = "Inter-|   Receive                                                |  Transmit\n\
               face |bytes    packets errs drop fifo frame compressed multicast|bytes    packets errs drop fifo colls carrier compressed\n\
               lo: 100 1 0 0 0 0 0 0  100 1 0 0 0 0 0 0\n\
               docker0: 500 5 0 0 0 0 0 0  500 5 0 0 0 0 0 0\n\
               veth1234: 200 2 0 0 0 0 0 0  200 2 0 0 0 0 0 0\n\
               eth0: 9999 99 0 0 0 0 0 0  8888 88 0 0 0 0 0 0\n";
    let (iface, rx, tx) = pick_primary_iface(net).unwrap();
    assert_eq!(iface, "eth0");
    assert_eq!(rx, 9999);
    assert_eq!(tx, 8888);
}

#[test]
fn picks_busiest_when_multiple_physical() {
    let net = "h1\nh2\n\
               eth0: 10 1 0 0 0 0 0 0  10 1 0 0 0 0 0 0\n\
               eth1: 1000 10 0 0 0 0 0 0  1000 10 0 0 0 0 0 0\n";
    let (iface, _, _) = pick_primary_iface(net).unwrap();
    assert_eq!(iface, "eth1");
}

#[test]
fn first_interface_wins_a_tie() {
    let net = "h1\nh2\n\
               eth0: 10 1 0 0 0 0 0 0  10 1 0 0 0 0 0 0\n\
               eth1: 10 1 0 0 0 0 0 0  10 1 0 0 0 0 0 0\n";
    assert_eq!(pick_primary_iface(net).unwrap().0, "eth0");
}

#[test]
fn no_interface_without_body_lines() {
    assert!(pick_primary_iface("").is_none());
    assert!(pick_primary_iface("h1\nh2\n").is_none());
    assert!(pick_primary_iface("h1\nh2\nlo: 1 2 3 4 5 6 7 8 9\n").is_none());
    // Fewer than nine numeric fields: skipped.
    assert!(pick_primary_iface("h1\nh2\neth0: 1 2 3 4 5 6 7 8\n").is_none());
}

#[test]
fn cpu_stops_at_first_non_cpu_line() {
    let stat = "cpu 1 2 3 4 5\nintr 0\ncpu0 1 1 1 1 1\n";
    let ((idle, total), cores) = parse_cpu_all(stat).unwrap();
    assert_eq!((idle, total), (9, 15));
    assert!(cores.is_empty());
    // No aggregate line with five fields: nothing.
    assert!(parse_cpu_all("cpu 1 2 3 4\n").is_none());
    assert!(parse_cpu_all("").is_none());
}

#[test]
fn mem_requires_total_and_available() {
    assert!(parse_mem("MemTotal: 10 kB\n").is_none());
    let info = parse_mem("MemAvailable: 1 kB\nMemTotal: 2 kB\nMemTotal: 3 kB\n").unwrap();
    assert_eq!(info.total_bytes, 3 * 1024);
    assert_eq!(info.buffers_bytes, 0);
    // Saturating multiplication.
    let info = parse_mem("MemTotal: 18446744073709551615 kB\nMemAvailable: 0 kB\n").unwrap();
    assert_eq!(info.total_bytes, u64::MAX);
    assert_eq!(used_memory(&info), u64::MAX);
}

#[test]
fn virtual_interface_names() {
    for n in ["lo", "docker0", "br-1a2b", "veth9", "tun0", "tap1", "vboxnet0", "virbr0", "bridge0", "utun3", "awdl0", "llw0", "anpi1", "ap1"] {
        assert!(is_virtual_iface(n), "{n}");
    }
    for n in ["eth0", "enp3s0", "wlan0", "lo0", "en0"] {
        assert!(!is_virtual_iface(n), "{n}");
    }
}

#[test]
fn jiffy_deltas_and_samples() {
    assert_eq!(jiffy_delta((50, 100), Some((40, 80))), Some((10, 20)));
    assert_eq!(jiffy_delta((30, 100), Some((40, 80))), Some((0, 20)));
    assert_eq!(jiffy_delta((50, 80), Some((40, 80))), None);
    assert_eq!(jiffy_delta((50, 80), None), None);

    let mut s = MetricsSamples::default();
    let d = s.advance((10, 100), vec![(5, 50)], Some((1000, 2000)), 5_000);
    assert!(d.cpu.is_none());
    assert_eq!(d.cores, vec![None]);
    assert!(d.net.is_none());
    let d = s.advance((20, 200), vec![(6, 90), (1, 1)], Some((1500, 2100)), 6_000);
    assert_eq!(d.cpu, Some((10, 100)));
    assert_eq!(d.cores, vec![Some((1, 40)), None]);
    assert_eq!(d.net, Some((500, 100, 1_000)));
    // No interface this time: the old network sample stays.
    let d = s.advance((20, 200), vec![], None, 7_000);
    assert!(d.net.is_none());
    assert_eq!(s.net, Some((1500, 2100, 6_000)));
}

#[test]
fn cpu_totals_that_overflow_are_detected() {
    assert!(stream_backend::metrics::cpu_sums_fit_check("cpu  100 0 50 800 50 0 0 0 0 0\nintr 0\n"));
    let huge = format!("cpu  {} {} 0 0 0\n", u64::MAX, 1);
    assert!(!stream_backend::metrics::cpu_sums_fit_check(&huge));
    // Lines with fewer than five fields are not added up.
    let short = format!("cpu0 {} {}\n", u64::MAX, 1);
    assert!(stream_backend::metrics::cpu_sums_fit_check(&short));
    // Only the leading cpu lines count.
    let later = format!("intr 0\ncpu {} 1 1 1 1\n", u64::MAX);
    assert!(stream_backend::metrics::cpu_sums_fit_check(&later));
}
