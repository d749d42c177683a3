use homelab::metrics::{choose_timestamp, sample_timestamp};
use homelab::metrics::{
    blkio_line, container_display_name, containers_url, cpu_deltas, endpoints_url, escape_tag,
    network_line, poll_interval_secs, stats_line, stats_url, token_from_file, BlkioEntry,
    CpuCounters, FractionTexts, NetworkCounters, Target, WriterAction, WriterState,
};

fn target() -> Target {
    Target {
        endpoint_id: 2,
        endpoint_name: "local docker".to_string(),
        container_id: "abc123".to_string(),
        container_name: "my app".to_string(),
    }
}

const TAGS: &str = "endpoint_id=2,endpoint_name=local\\ docker,container_id=abc123,container_name=my\\ app";

#[test]
fn tags_escape_spaces() {
    assert_eq!(escape_tag("my container"), "my\\ container");
    assert_eq!(escape_tag("plain"), "plain");
}

#[test]
fn network_record() {
    let n = NetworkCounters {
        rx_bytes: 100,
        rx_packets: 2,
        rx_errors: 0,
        rx_dropped: 0,
        tx_bytes: 50,
        tx_packets: 1,
        tx_errors: 0,
        tx_dropped: u64::MAX,
    };
    assert_eq!(
        network_line(&target(), "eth 0", &n, 1700000000000000000),
        format!(
            "docker_container_network,{},interface=eth\\ 0 rx_bytes=100i,rx_packets=2i,rx_errors=0i,rx_dropped=0i,tx_bytes=50i,tx_packets=1i,tx_errors=0i,tx_dropped=-1i 1700000000000000000",
            TAGS
        )
    );
}

#[test]
fn blkio_record() {
    let e = BlkioEntry { major: 8, minor: 0, op: "Read".to_string(), value: 4096 };
    assert_eq!(
        blkio_line(&target(), &e, 5),
        format!("docker_container_blkio,{},device=8:0,operation=read blkio_read_bytes=4096i 5", TAGS)
    );
}

fn fractions() -> FractionTexts {
    FractionTexts {
        cpu_percent: "1.5".to_string(),
        memory_usage_mb: "10".to_string(),
        memory_limit_mb: "100".to_string(),
        memory_percent: "10".to_string(),
        memory_active_anon_mb: "1".to_string(),
        memory_active_file_mb: "2".to_string(),
        memory_inactive_anon_mb: "3".to_string(),
        memory_inactive_file_mb: "4".to_string(),
        memory_file_mapped_mb: "5".to_string(),
    }
}

#[test]
fn main_record() {
    let c = CpuCounters {
        total_usage: 1000,
        usage_in_kernelmode: 200,
        usage_in_usermode: 800,
        online_cpus: 4,
        throttle_periods: 0,
        throttled_periods: 0,
        throttled_time: 0,
    };
    let body = "cpu_percent=1.5,cpu_total_usage=1000i,cpu_kernelmode_usage=200i,cpu_usermode_usage=800i,cpu_online_cpus=4i,cpu_throttle_periods=0i,cpu_throttled_periods=0i,cpu_throttled_time=0i,memory_usage_mb=10,memory_limit_mb=100,memory_percent=10,memory_active_anon_mb=1,memory_active_file_mb=2,memory_inactive_anon_mb=3,memory_inactive_file_mb=4,memory_file_mapped_mb=5";
    assert_eq!(
        stats_line(&target(), &fractions(), &c, Some(12), -7),
        format!("docker_container_stats,{} {},pids_current=12i  -7", TAGS, body)
    );
    assert_eq!(
        stats_line(&target(), &fractions(), &c, None, 9),
        format!("docker_container_stats,{} {} 9", TAGS, body)
    );
}

#[test]
fn display_names() {
    assert_eq!(container_display_name(&vec!["/web".to_string(), "/alias".to_string()]), "web");
    assert_eq!(container_display_name(&vec!["//x/y".to_string()]), "x/y");
    assert_eq!(container_display_name(&vec![]), "unknown");
}

#[test]
fn cpu_share_inputs() {
    assert_eq!(cpu_deltas(300, 100, Some(2000), Some(1000)), Some((200, 1000)));
    assert_eq!(cpu_deltas(100, 100, Some(2000), Some(1000)), None);
    assert_eq!(cpu_deltas(300, 100, None, None), None);
    assert_eq!(cpu_deltas(300, 100, Some(5), None), Some((200, 5)));
}

#[test]
fn portainer_urls() {
    assert_eq!(endpoints_url("http://p:9000"), "http://p:9000/api/endpoints");
    assert_eq!(containers_url("http://p", 3), "http://p/api/endpoints/3/docker/containers/json?all=true");
    assert_eq!(stats_url("http://p", -1, "abc"), "http://p/api/endpoints/-1/docker/containers/abc/stats?stream=false");
}

#[test]
fn settings() {
    assert_eq!(poll_interval_secs(None), Some(10));
    assert_eq!(poll_interval_secs(Some("30")), Some(30));
    assert_eq!(poll_interval_secs(Some("+5")), Some(5));
    assert_eq!(poll_interval_secs(Some("abc")), None);
    assert_eq!(poll_interval_secs(Some("")), None);
    assert_eq!(token_from_file("  secret-token \n"), "secret-token");
}

#[test]
fn writer_batches_records() {
    let mut w = WriterState::new();
    assert_eq!(w.take_batch(), None);
    assert_eq!(w.on_record("a b=1i", 0), WriterAction::Wait);
    assert_eq!(w.on_record("c d=2i", 29), WriterAction::Wait);
    assert_eq!(w.take_batch(), Some("a b=1i\nc d=2i\n".to_string()));
    assert_eq!(w.take_batch(), None);
    assert_eq!(w.on_record("x", 30), WriterAction::Flush);
    assert_eq!(w.on_timeout(), WriterAction::Flush);
    assert_eq!(w.on_disconnected(), WriterAction::Exit);
}

#[test]
fn writer_flushes_a_full_buffer() {
    let mut w = WriterState::new();
    let big = "é".repeat(0x100000 / 2 - 1);
    assert_eq!(w.on_record(&big, 0), WriterAction::Wait);
    assert_eq!(w.on_record("", 0), WriterAction::Flush);
    assert_eq!(w.take_batch().unwrap().len(), 0x100000);
}

#[test]
fn blkio_record_with_lowered_operation() {
    let e = BlkioEntry { major: 259, minor: 1, op: "Write".to_string(), value: 7 };
    assert_eq!(
        homelab::metrics::blkio_line_with_op(&target(), "write", &e, 1),
        format!("docker_container_blkio,{},device=259:1,operation=write blkio_write_bytes=7i 1", TAGS)
    );
    assert_eq!(blkio_line(&target(), &e, 1), homelab::metrics::blkio_line_with_op(&target(), "write", &e, 1));
}

#[test]
fn sample_records_in_order() {
    let c = CpuCounters {
        total_usage: 1,
        usage_in_kernelmode: 0,
        usage_in_usermode: 1,
        online_cpus: 1,
        throttle_periods: 0,
        throttled_periods: 0,
        throttled_time: 0,
    };
    let n = NetworkCounters {
        rx_bytes: 1,
        rx_packets: 1,
        rx_errors: 0,
        rx_dropped: 0,
        tx_bytes: 1,
        tx_packets: 1,
        tx_errors: 0,
        tx_dropped: 0,
    };
    let nets = vec![("eth0".to_string(), n)];
    let blk = vec![
        BlkioEntry { major: 8, minor: 0, op: "Read".to_string(), value: 1 },
        BlkioEntry { major: 8, minor: 0, op: "Write".to_string(), value: 2 },
    ];
    let lines = homelab::metrics::sample_lines(&target(), &fractions(), &c, None, 3, &nets, &blk);
    assert_eq!(lines.len(), 4);
    assert_eq!(lines[0], stats_line(&target(), &fractions(), &c, None, 3));
    assert_eq!(lines[1], network_line(&target(), "eth0", &nets[0].1, 3));
    assert_eq!(lines[2], blkio_line(&target(), &blk[0], 3));
    assert_eq!(lines[3], blkio_line(&target(), &blk[1], 3));
}

#[test]
fn sample_time_from_reading_or_now() {
    assert_eq!(sample_timestamp("2024-01-01T00:00:00Z", None), Some(1704067200000000000));
    assert_eq!(sample_timestamp("2024-01-01T00:00:01.5+01:00", None), Some(1704067201500000000 - 3600000000000));
    assert_eq!(sample_timestamp("not a time", Some(7)), Some(7));
    assert_eq!(sample_timestamp("9999-01-01T00:00:00Z", Some(7)), None);
    assert_eq!(choose_timestamp(Some(Some(5)), Some(7)), Some(5));
    assert_eq!(choose_timestamp(None, Some(7)), Some(7));
    assert_eq!(choose_timestamp(Some(None), Some(7)), None);
}
