use crowdb::metrics::perf;
use crowdb::metrics::system;
use crowdb::metrics::system::{Reading, SystemCollector, SystemMetrics};

fn reading(user: u64, sys: u64, retrans: u64, lost: u64) -> Reading {
    Reading { cpu_user_us: user, cpu_sys_us: sys, tcp_retransmits: retrans, tcp_lost: lost }
}

const STAT: &str = "12 (my (odd) name) S 1 12 12 0 -1 4194304 10 0 0 0 250 31 0 0 20";
const STATUS: &str = "Name:\tx\nVmPeak:\t  900 kB\nVmRSS:\t  4321 kB\nVmRSS:\t 1 kB\n";
const SNMP: &str = "Ip: Forwarding\nIp: 1\n\
    Tcp: RtoMin InSegs RetransSegs InErrs OutRsts\nTcp: 200 5000 17 3 40\nUdp: x\n";

#[test]
fn collect_returns_snapshot() {
    let (user, sys) = system::parse_cpu_times(STAT);
    let (retrans, lost) = system::parse_tcp_stats(SNMP);
    let mut collector = SystemCollector::new(reading(user, sys, retrans, lost));
    let snap = collector.collect(reading(user, sys, retrans, lost), system::parse_rss_kb(STATUS), 5);
    assert!(snap.rss_kb > 0, "RSS should be non-zero, got {}", snap.rss_kb);
}

#[test]
fn collect_delta_is_non_negative() {
    let mut collector = SystemCollector::new(reading(0, 0, 0, 0));
    let _snap1 = collector.collect(reading(100, 50, 3, 1), 1, 1_000);
    let snap2 = collector.collect(reading(90, 60, 2, 1), 1, 1_000);
    assert!(snap2.cpu_user_pct <= 100 * 1024);
    assert_eq!(snap2.cpu_user_pct, 0);
    assert_eq!(snap2.tcp_retransmits, 0);
}

#[test]
fn flush_system_writes_all_fields() {
    let snap = SystemMetrics {
        cpu_user_pct: 42,
        cpu_sys_pct: 17,
        rss_kb: 4096,
        tcp_retransmits: 3,
        tcp_lost: 1,
    };
    let rss_gb = format!("{:.2}", snap.rss_kb as f64 / 1024.0 / 1024.0);
    let bw = format!("{:.1}", 512.5);
    let out = system::flush_system(&snap, &rss_gb, Some(&bw));
    assert!(out.contains("cpu.user=42%"));
    assert!(out.contains("cpu.sys=17%"));
    assert!(out.contains("rss_gb=0.00"));
    assert!(out.contains("tcp_retrans=3"));
    assert!(out.contains("tcp_lost=1"));
    assert!(out.contains("bw_mib=512.5"));
    assert_eq!(
        out,
        "sys  cpu.user=42% cpu.sys=17% rss_gb=0.00 tcp_retrans=3 tcp_lost=1 bw_mib=512.5\n"
    );
}

#[test]
fn flush_system_writes_unsupported_when_none() {
    let snap = SystemMetrics {
        cpu_user_pct: 0,
        cpu_sys_pct: 0,
        rss_kb: 0,
        tcp_retransmits: 0,
        tcp_lost: 0,
    };
    let out = system::flush_system(&snap, "0.00", None);
    assert!(out.contains("bw_mib=unsupported"));
}

#[test]
fn processor_times_follow_the_name() {
    assert_eq!(system::parse_cpu_times(STAT), (2_500_000, 310_000));
    assert_eq!(system::parse_cpu_times("12 (x) S 1 2"), (0, 0));
    assert_eq!(system::parse_cpu_times("no name here"), (0, 0));
    assert!(system::cpu_times_readable(STAT));
    assert!(!system::cpu_times_readable("12 (x)"));
    assert!(!system::cpu_times_readable(
        "1 (x) S 1 2 3 4 5 6 7 8 9 0 18446744073709551615 1 2"
    ));
}

#[test]
fn memory_and_tcp_counters_are_found_by_label() {
    assert_eq!(system::parse_rss_kb(STATUS), 4321);
    assert_eq!(system::parse_rss_kb("Name: x\n"), 0);
    assert_eq!(system::parse_rss_kb("VmRSS:\n"), 0);
    assert_eq!(system::parse_ps_rss_kb("  5120\n"), 5120);
    assert_eq!(system::parse_ps_rss_kb("\n"), 0);
    assert_eq!(system::parse_ps_rss_kb("12 13\n"), 0);
    assert_eq!(system::parse_tcp_stats(SNMP), (17, 3));
    assert_eq!(system::parse_tcp_stats("Tcp: OutRsts RetransSegs\nTcp: 9\n"), (0, 9));
    assert_eq!(system::parse_tcp_stats("Tcp: RetransSegs\n"), (0, 0));
}

#[test]
fn utilization_can_exceed_one_core() {
    let mut collector = SystemCollector::new(reading(1_000, 0, 5, 5));
    let m = collector.collect(reading(4_000, 500, 8, 6), 77, 1_000);
    assert_eq!((m.cpu_user_pct, m.cpu_sys_pct), (300, 50));
    assert_eq!((m.tcp_retransmits, m.tcp_lost, m.rss_kb), (3, 1, 77));
    let m = collector.collect(reading(5_000, 500, 8, 6), 77, 0);
    assert_eq!(m.cpu_user_pct, 0);
    let m = collector.collect(reading(u64::MAX, 500, 8, 6), 77, 1);
    assert_eq!(m.cpu_user_pct, 0);
}

#[test]
fn amd_events_are_spread_over_the_configuration() {
    assert_eq!(perf::amd_df_config(0x07, 0x38), 0x3807);
    assert_eq!(perf::amd_df_config(0x1c7, 0x38), 0x1_0000_38c7);
    assert_eq!(perf::amd_df_config(0x3000, 0), 0x1800_0000_0000_0000);
    let events = perf::amd_df_channel_events();
    assert_eq!(
        events,
        vec![
            0x3807,
            0x3847,
            0x3887,
            0x38c7,
            0x1_0000_3807,
            0x1_0000_3847,
            0x1_0000_3887,
            0x1_0000_38c7,
        ]
    );
}

#[test]
fn event_descriptions_are_read() {
    assert_eq!(perf::parse_event_config("event=0x04,umask=0x03\n"), Some(0x304));
    assert_eq!(perf::parse_event_config("event=ff"), Some(0xff));
    assert_eq!(perf::parse_event_config("other=1"), Some(0));
    assert_eq!(perf::parse_event_config("event=0xzz"), None);
    assert_eq!(perf::parse_event_config("event="), None);
    assert_eq!(perf::parse_event_config("event=0x10000000000000000"), None);
    assert_eq!(perf::parse_pmu_type(" 12\n"), Some(12));
    assert_eq!(perf::parse_pmu_type("4294967296"), None);
    assert_eq!(perf::parse_pmu_cpumask(Some("-3\n")), -3);
    assert_eq!(perf::parse_pmu_cpumask(Some("0-3")), 0);
    assert_eq!(perf::parse_pmu_cpumask(None), 0);
    assert_eq!(
        perf::pmu_path("amd_df", "type"),
        "/sys/bus/event_source/devices/amd_df/type"
    );
}

#[test]
fn counters_are_summed_by_their_growth() {
    let mut before = vec![10, 20, 30];
    assert_eq!(perf::counter_growth(&mut before, &vec![15, 18, 40]), 15);
    assert_eq!(before, vec![15, 18, 40]);
    let mut before = vec![0, 0];
    assert_eq!(perf::counter_growth(&mut before, &vec![u64::MAX, 5]), u64::MAX);
}
