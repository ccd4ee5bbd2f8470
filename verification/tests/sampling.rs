use vessel::config::Config;
use vessel::monitor::ContainerMonitor;
use vessel::monitor::RequiredFileError;
use vessel::monitor::SampleFiles;
use vessel::monitor::get_block_io_usage;
use vessel::monitor::get_memory_usage;
use vessel::monitor::get_system_memory;
use vessel::monitor::parse_cpu_stat;

fn files(cpu: &str, cur: &str, max: &str, meminfo: Option<&str>, io: Option<&str>) -> SampleFiles {
    SampleFiles {
        cpu_stat: cpu.as_bytes().to_vec(),
        memory_current: cur.as_bytes().to_vec(),
        memory_max: max.as_bytes().to_vec(),
        meminfo: meminfo.map(|s| s.as_bytes().to_vec()),
        io_stat: io.map(|s| s.as_bytes().to_vec()),
    }
}

const SECOND_NS: u64 = 1_000_000_000;

#[test]
fn cpu_percentage_over_one_second() {
    let mut m = ContainerMonitor::new();
    let f1 = files("usage_usec 1000000\nsystem_usec 400\n", "1\n", "2\n", None, None);
    let st1 = m.get_stats(b"web", b"cafebabe", &f1, 10 * SECOND_NS).unwrap();
    // the first sample for a container never reports a rate
    assert_eq!(st1.cpu_percent_milli, 0);
    assert_eq!(st1.cpu_usage_usec, 1_000_000);
    assert_eq!(st1.system_usage_usec, 400);

    let f2 = files("usage_usec 1500000\nsystem_usec 500\n", "1\n", "2\n", None, None);
    let st2 = m.get_stats(b"web", b"cafebabe", &f2, 11 * SECOND_NS).unwrap();
    // 500000 usec of work over 1000000 usec elapsed: 50%, in thousandths
    assert_eq!(st2.cpu_percent_milli, 50_000);
    assert_eq!(st2.cpu_usage_usec, 1_500_000);
}

#[test]
fn counter_reset_reports_zero_percent() {
    let mut m = ContainerMonitor::new();
    let f1 = files("usage_usec 1000000\n", "1\n", "2\n", None, None);
    m.get_stats(b"web", b"id", &f1, 10 * SECOND_NS).unwrap();
    let f2 = files("usage_usec 900000\n", "1\n", "2\n", None, None);
    let st2 = m.get_stats(b"web", b"id", &f2, 11 * SECOND_NS).unwrap();
    assert_eq!(st2.cpu_percent_milli, 0);
}

#[test]
fn identical_timestamps_report_zero_percent() {
    let mut m = ContainerMonitor::new();
    let f1 = files("usage_usec 1000000\n", "1\n", "2\n", None, None);
    m.get_stats(b"web", b"id", &f1, 10 * SECOND_NS).unwrap();
    let f2 = files("usage_usec 2000000\n", "1\n", "2\n", None, None);
    let st2 = m.get_stats(b"web", b"id", &f2, 10 * SECOND_NS).unwrap();
    assert_eq!(st2.cpu_percent_milli, 0);
}

#[test]
fn consecutive_usage_reporting_is_monotone() {
    let mut m = ContainerMonitor::new();
    let f1 = files("usage_usec 1000\n", "1\n", "2\n", None, None);
    let st1 = m.get_stats(b"db", b"id", &f1, SECOND_NS).unwrap();
    let f2 = files("usage_usec 5000\n", "1\n", "2\n", None, None);
    let st2 = m.get_stats(b"db", b"id", &f2, 2 * SECOND_NS).unwrap();
    assert!(st2.cpu_usage_usec >= st1.cpu_usage_usec);
    assert_eq!(st1.cpu_usage_usec, 1000);
    assert_eq!(st2.cpu_usage_usec, 5000);
}

#[test]
fn distinct_names_keep_distinct_baselines() {
    let mut m = ContainerMonitor::new();
    let f1 = files("usage_usec 1000000\n", "1\n", "2\n", None, None);
    m.get_stats(b"one", b"id1", &f1, 10 * SECOND_NS).unwrap();
    let f2 = files("usage_usec 1500000\n", "1\n", "2\n", None, None);
    // first sample under the other name: no rate yet
    let st = m.get_stats(b"two", b"id2", &f2, 11 * SECOND_NS).unwrap();
    assert_eq!(st.cpu_percent_milli, 0);
}

#[test]
fn malformed_cpu_lines_default_to_zero() {
    let (usage, system) = parse_cpu_stat(b"usage_usec abc\nnonsense\n");
    assert_eq!(usage, 0);
    assert_eq!(system, 0);
    let (usage2, system2) = parse_cpu_stat(b"");
    assert_eq!(usage2, 0);
    assert_eq!(system2, 0);
}

#[test]
fn later_cpu_line_overwrites_earlier() {
    let (usage, _) = parse_cpu_stat(b"usage_usec 5\nusage_usec 7\n");
    assert_eq!(usage, 7);
}

#[test]
fn memory_percentage_half() {
    let r = get_memory_usage(b"500000000\n", b"1000000000\n", None).unwrap();
    assert_eq!(r, (500_000_000, 1_000_000_000, 50_000));
}

#[test]
fn memory_max_token_falls_back_to_meminfo() {
    let meminfo = "MemTotal:        8000000 kB\nMemFree:         123 kB\n";
    let r = get_memory_usage(b"500000000\n", b"max\n", Some(meminfo.as_bytes())).unwrap();
    assert_eq!(r.1, 8_000_000 * 1024);
}

#[test]
fn memory_max_token_without_meminfo_gives_zero_limit() {
    let r = get_memory_usage(b"500000000\n", b"max\n", None).unwrap();
    assert_eq!(r.1, 0);
    // a zero ceiling reports zero percent rather than dividing by it
    assert_eq!(r.2, 0);
}

#[test]
fn unparseable_memory_current_is_an_error() {
    let r = get_memory_usage(b"lots\n", b"1000\n", None);
    assert!(matches!(r, Err(RequiredFileError::MemoryCurrent)));
}

#[test]
fn unparseable_memory_max_is_an_error() {
    let r = get_memory_usage(b"1000\n", b"plenty\n", None);
    assert!(matches!(r, Err(RequiredFileError::MemoryMax)));
}

#[test]
fn meminfo_without_memtotal_gives_zero() {
    assert_eq!(get_system_memory(Some(b"MemFree: 5 kB\n")), 0);
    assert_eq!(get_system_memory(None), 0);
}

#[test]
fn io_stat_single_line_aggregates() {
    let r = get_block_io_usage(Some(b"8:0 rbytes=100 wbytes=200 rios=1 wios=1\n"));
    assert_eq!(r, (100, 200));
}

#[test]
fn io_stat_two_devices_sum() {
    let io = "8:0 rbytes=100 wbytes=200 rios=1 wios=1\n8:16 rbytes=40 wbytes=2 rios=1 wios=1\n";
    let r = get_block_io_usage(Some(io.as_bytes()));
    assert_eq!(r, (140, 202));
}

#[test]
fn missing_io_stat_is_zero_without_error() {
    let mut m = ContainerMonitor::new();
    let f = files("usage_usec 1\n", "1\n", "2\n", None, None);
    let st = m.get_stats(b"web", b"id", &f, SECOND_NS).unwrap();
    assert_eq!((st.block_read, st.block_write), (0, 0));
}

#[test]
fn network_usage_is_stubbed_to_zero() {
    let m = ContainerMonitor::new();
    assert_eq!(m.get_network_usage(), (0, 0));
}

#[test]
fn stats_record_carries_inputs_through() {
    let mut m = ContainerMonitor::new();
    let io = "8:0 rbytes=7 wbytes=9\n";
    let f = files(
        "usage_usec 123\nsystem_usec 456\n",
        "1024\n",
        "4096\n",
        None,
        Some(io),
    );
    let st = m.get_stats(b"app", b"fullid", &f, 42 * SECOND_NS).unwrap();
    assert_eq!(st.id, b"fullid".to_vec());
    assert_eq!(st.name, b"app".to_vec());
    assert_eq!(st.cpu_usage_usec, 123);
    assert_eq!(st.system_usage_usec, 456);
    assert_eq!(st.memory_usage, 1024);
    assert_eq!(st.memory_limit, 4096);
    assert_eq!(st.memory_percent_milli, 25_000);
    assert_eq!((st.network_rx, st.network_tx), (0, 0));
    assert_eq!((st.block_read, st.block_write), (7, 9));
    assert_eq!(st.timestamp_ns, 42 * SECOND_NS);
}

#[test]
fn default_config_is_empty_with_one_second_interval() {
    let c = Config::default();
    assert!(c.containers.is_empty());
    assert_eq!(c.interval_seconds, Some(1));
}
