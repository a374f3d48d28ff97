use std::sync::Arc;

use rsdragonfly::observability::health::{
    health_check_handler, readiness_check_handler, SHARD_FAILED, SHARD_INITIALIZING, SHARD_READY,
};
use rsdragonfly::observability::metrics::{aggregate_shard_metrics, GlobalMetrics};
use rsdragonfly::observability::prometheus::{format_prometheus_metrics, format_prometheus_metrics_at, metrics_http_response};
use rsdragonfly::server::{Args, Config};
use rsdragonfly::shard::shard::ShardMetrics;

#[test]
fn health_checks() {
    assert_eq!(health_check_handler(&[SHARD_READY, SHARD_INITIALIZING]), "OK");
    assert_eq!(health_check_handler(&[SHARD_READY, SHARD_FAILED, SHARD_FAILED]), "ERR shard 1 failed");
    assert_eq!(health_check_handler(&[]), "OK");
    assert_eq!(readiness_check_handler(false, &[SHARD_READY]), "ERR loading snapshots");
    assert_eq!(readiness_check_handler(true, &[SHARD_READY, SHARD_READY, SHARD_INITIALIZING]), "ERR shard 2 not ready");
    assert_eq!(readiness_check_handler(true, &[SHARD_READY, SHARD_READY]), "READY");
}

fn metrics(commands: u64, keys: usize, memory: u64, expired: u64) -> Arc<ShardMetrics> {
    let mut m = ShardMetrics::new_at(0);
    m.commands_processed = commands;
    m.key_count = keys;
    m.memory_bytes = memory;
    m.keys_expired = expired;
    m.snapshots_written = 1;
    m.snapshot_write_errors = 0;
    Arc::new(m)
}

#[test]
fn aggregates_shards() {
    let shards = vec![metrics(10, 2, 100, 1), metrics(5, 3, 50, 0)];
    let total = aggregate_shard_metrics(&shards);
    assert_eq!(total.total_commands, 15);
    assert_eq!(total.total_keys, 5);
    assert_eq!(total.total_memory, 150);
    assert_eq!(total.total_expired, 1);
}

#[test]
fn global_metrics() {
    let g = GlobalMetrics::new_at(1_000);
    assert_eq!(g.uptime_seconds_at(62_999), 61);
    assert_eq!(g.uptime_seconds_at(0), 0);
    let now = GlobalMetrics::new();
    assert_eq!(now.connections_total, 0);
    assert!(now.uptime_seconds() < 5);
}

#[test]
fn prometheus_page() {
    let g = GlobalMetrics::new_at(0);
    let shards = vec![metrics(10, 2, 100, 1), metrics(5, 3, 50, 0)];
    let text = format_prometheus_metrics_at(&g, &shards, 7_500);
    let expected = "# HELP rsdragonfly_uptime_seconds Server uptime in seconds\n\
# TYPE rsdragonfly_uptime_seconds gauge\n\
rsdragonfly_uptime_seconds 7\n\
# HELP rsdragonfly_connections_active Active client connections\n\
# TYPE rsdragonfly_connections_active gauge\n\
rsdragonfly_connections_active 0\n\
# HELP rsdragonfly_connections_total Total connections accepted\n\
# TYPE rsdragonfly_connections_total counter\n\
rsdragonfly_connections_total 0\n\
# HELP rsdragonfly_shard_commands_total Commands processed per shard\n\
# TYPE rsdragonfly_shard_commands_total counter\n\
rsdragonfly_shard_commands_total{shard=\"0\"} 10\n\
rsdragonfly_shard_commands_total{shard=\"1\"} 5\n\
# HELP rsdragonfly_shard_keys Current key count per shard\n\
# TYPE rsdragonfly_shard_keys gauge\n\
rsdragonfly_shard_keys{shard=\"0\"} 2\n\
rsdragonfly_shard_keys{shard=\"1\"} 3\n\
# HELP rsdragonfly_shard_memory_bytes Memory usage per shard\n\
# TYPE rsdragonfly_shard_memory_bytes gauge\n\
rsdragonfly_shard_memory_bytes{shard=\"0\"} 100\n\
rsdragonfly_shard_memory_bytes{shard=\"1\"} 50\n\
# HELP rsdragonfly_shard_keys_expired_total Keys expired per shard\n\
# TYPE rsdragonfly_shard_keys_expired_total counter\n\
rsdragonfly_shard_keys_expired_total{shard=\"0\"} 1\n\
rsdragonfly_shard_keys_expired_total{shard=\"1\"} 0\n\
# HELP rsdragonfly_shard_snapshots_written_total Snapshots written per shard\n\
# TYPE rsdragonfly_shard_snapshots_written_total counter\n\
rsdragonfly_shard_snapshots_written_total{shard=\"0\"} 1\n\
rsdragonfly_shard_snapshots_written_total{shard=\"1\"} 1\n\
# HELP rsdragonfly_shard_snapshot_write_errors_total Snapshot write errors per shard\n\
# TYPE rsdragonfly_shard_snapshot_write_errors_total counter\n\
rsdragonfly_shard_snapshot_write_errors_total{shard=\"0\"} 0\n\
rsdragonfly_shard_snapshot_write_errors_total{shard=\"1\"} 0\n";
    assert_eq!(text, expected);
    let live = format_prometheus_metrics(&g, &shards);
    assert!(live.starts_with("# HELP rsdragonfly_uptime_seconds"));
}

#[test]
fn http_response_carries_length() {
    let body = "ab\u{e9}".to_string();
    assert_eq!(
        metrics_http_response(&body),
        "HTTP/1.1 200 OK\r\nContent-Type: text/plain; version=0.0.4\r\nContent-Length: 4\r\n\r\nab\u{e9}"
    );
}

#[test]
fn config_from_args() {
    let c = Config::from_args(Args {
        port: 6380,
        bind: "127.0.0.1".to_string(),
        snapshot_dir: "/tmp/snaps".to_string(),
        log_level: "info".to_string(),
        cpu_pinning: true,
    });
    assert_eq!(c.port, 6380);
    assert_eq!(c.bind, "127.0.0.1");
    assert_eq!(c.snapshot_dir, "/tmp/snaps");
    assert_eq!(c.log_level, "info");
    assert!(c.cpu_pinning);
}
