use vstd::prelude::*;

use std::sync::Arc;

use crate::common::text::{ascii_chars, decimal_digits, push_decimal_chars, push_text, text};
use crate::common::time::now_millis;
use crate::observability::metrics::{counter_value, Counter, GlobalMetrics};
use crate::shard::shard::{uptime_of, ShardMetrics};

verus! {

/// The `# HELP` and `# TYPE` lines of a metric.
pub open spec fn family_header(name: Seq<char>, help: Seq<char>, kind: Seq<char>) -> Seq<char> {
    "# HELP "@ + name + " "@ + help + "\n"@ + "# TYPE "@ + name + " "@ + kind + "\n"@
}

/// A metric's sample line: its name and value.
pub open spec fn value_line(name: Seq<char>, v: nat) -> Seq<char> {
    name + " "@ + ascii_chars(decimal_digits(v)) + "\n"@
}

/// A sample line for each shard, labelled with the shard's index.
pub open spec fn shard_lines(name: Seq<char>, shards: Seq<Arc<ShardMetrics>>, c: Counter) -> Seq<char>
    decreases shards.len(),
{
    if shards.len() == 0 {
        Seq::empty()
    } else {
        shard_lines(name, shards.drop_last(), c) + name + "{shard=\""@ + ascii_chars(
            decimal_digits((shards.len() - 1) as nat),
        ) + "\"} "@ + ascii_chars(decimal_digits(counter_value(*shards.last(), c))) + "\n"@
    }
}

/// A per-shard metric: its header and a line for each shard.
pub open spec fn shard_family(name: Seq<char>, help: Seq<char>, kind: Seq<char>, shards: Seq<Arc<ShardMetrics>>, c: Counter) -> Seq<char> {
    family_header(name, help, kind) + shard_lines(name, shards, c)
}

/// The metrics in the Prometheus text format, read on a clock showing `now`.
pub open spec fn prometheus_text(global: GlobalMetrics, shards: Seq<Arc<ShardMetrics>>, now: u64) -> Seq<char> {
    family_header("rsdragonfly_uptime_seconds"@, "Server uptime in seconds"@, "gauge"@)
        + value_line("rsdragonfly_uptime_seconds"@, uptime_of(global.uptime_start, now) as nat)
        + family_header("rsdragonfly_connections_active"@, "Active client connections"@, "gauge"@)
        + value_line("rsdragonfly_connections_active"@, global.connections_active as nat)
        + family_header("rsdragonfly_connections_total"@, "Total connections accepted"@, "counter"@)
        + value_line("rsdragonfly_connections_total"@, global.connections_total as nat)
        + shard_family("rsdragonfly_shard_commands_total"@, "Commands processed per shard"@, "counter"@, shards, Counter::CommandsProcessed)
        + shard_family("rsdragonfly_shard_keys"@, "Current key count per shard"@, "gauge"@, shards, Counter::KeyCount)
        + shard_family("rsdragonfly_shard_memory_bytes"@, "Memory usage per shard"@, "gauge"@, shards, Counter::MemoryBytes)
        + shard_family("rsdragonfly_shard_keys_expired_total"@, "Keys expired per shard"@, "counter"@, shards, Counter::KeysExpired)
        + shard_family("rsdragonfly_shard_snapshots_written_total"@, "Snapshots written per shard"@, "counter"@, shards, Counter::SnapshotsWritten)
        + shard_family("rsdragonfly_shard_snapshot_write_errors_total"@, "Snapshot write errors per shard"@, "counter"@, shards, Counter::SnapshotWriteErrors)
}

/// Appends a metric's `# HELP` and `# TYPE` lines.
fn push_family_header(s: &mut String, name: &str, help: &str, kind: &str)
    ensures
        final(s)@ == old(s)@ + family_header(name@, help@, kind@),
{
    push_text(s, "# HELP ");
    push_text(s, name);
    push_text(s, " ");
    push_text(s, help);
    push_text(s, "\n");
    push_text(s, "# TYPE ");
    push_text(s, name);
    push_text(s, " ");
    push_text(s, kind);
    push_text(s, "\n");
    assert(s@ =~= old(s)@ + family_header(name@, help@, kind@));
}

/// Appends a metric's sample line.
fn push_value_line(s: &mut String, name: &str, v: u64)
    ensures
        final(s)@ == old(s)@ + value_line(name@, v as nat),
{
    push_text(s, name);
    push_text(s, " ");
    push_decimal_chars(s, v);
    push_text(s, "\n");
    assert(s@ =~= old(s)@ + value_line(name@, v as nat));
}

/// The value of a shard's counter.
fn counter_of(m: &ShardMetrics, c: &Counter) -> (r: u64)
    ensures
        r as nat == counter_value(*m, *c),
{
    match c {
        Counter::CommandsProcessed => m.commands_processed,
        Counter::KeyCount => m.key_count as u64,
        Counter::MemoryBytes => m.memory_bytes,
        Counter::KeysExpired => m.keys_expired,
        Counter::SnapshotsWritten => m.snapshots_written,
        Counter::SnapshotWriteErrors => m.snapshot_write_errors,
    }
}

/// Appends a per-shard metric.
fn push_shard_family(s: &mut String, name: &str, help: &str, kind: &str, shards: &[Arc<ShardMetrics>], c: Counter)
    ensures
        final(s)@ == old(s)@ + shard_family(name@, help@, kind@, shards@, c),
{
    push_family_header(s, name, help, kind);
    let ghost head = s@;
    let mut i: usize = 0;
    while i < shards.len()
        invariant
            i <= shards@.len(),
            s@ == head + shard_lines(name@, shards@.take(i as int), c),
        decreases shards.len() - i,
    {
        let v = counter_of(&shards[i], &c);
        push_text(s, name);
        push_text(s, "{shard=\"");
        push_decimal_chars(s, i as u64);
        push_text(s, "\"} ");
        push_decimal_chars(s, v);
        push_text(s, "\n");
        proof {
            let t = shards@.take(i + 1);
            assert(t.drop_last() =~= shards@.take(i as int));
            assert(t.last() == shards@[i as int]);
            assert(s@ =~= head + shard_lines(name@, t, c));
        }
        i = i + 1;
    }
    assert(shards@.take(shards@.len() as int) =~= shards@);
}

/// The metrics in the Prometheus text format, read on a clock showing `now`.
pub fn format_prometheus_metrics_at(global: &GlobalMetrics, shards: &[Arc<ShardMetrics>], now: u64) -> (r: String)
    ensures
        r@ == prometheus_text(*global, shards@, now),
{
    let mut output = String::new();
    push_family_header(&mut output, "rsdragonfly_uptime_seconds", "Server uptime in seconds", "gauge");
    push_value_line(&mut output, "rsdragonfly_uptime_seconds", global.uptime_seconds_at(now));
    push_family_header(&mut output, "rsdragonfly_connections_active", "Active client connections", "gauge");
    push_value_line(&mut output, "rsdragonfly_connections_active", global.connections_active as u64);
    push_family_header(&mut output, "rsdragonfly_connections_total", "Total connections accepted", "counter");
    push_value_line(&mut output, "rsdragonfly_connections_total", global.connections_total);
    push_shard_family(&mut output, "rsdragonfly_shard_commands_total", "Commands processed per shard", "counter", shards, Counter::CommandsProcessed);
    push_shard_family(&mut output, "rsdragonfly_shard_keys", "Current key count per shard", "gauge", shards, Counter::KeyCount);
    push_shard_family(&mut output, "rsdragonfly_shard_memory_bytes", "Memory usage per shard", "gauge", shards, Counter::MemoryBytes);
    push_shard_family(&mut output, "rsdragonfly_shard_keys_expired_total", "Keys expired per shard", "counter", shards, Counter::KeysExpired);
    push_shard_family(&mut output, "rsdragonfly_shard_snapshots_written_total", "Snapshots written per shard", "counter", shards, Counter::SnapshotsWritten);
    push_shard_family(&mut output, "rsdragonfly_shard_snapshot_write_errors_total", "Snapshot write errors per shard", "counter", shards, Counter::SnapshotWriteErrors);
    assert(output@ =~= prometheus_text(*global, shards@, now));
    output
}

/// The metrics in the Prometheus text format, read now.
pub fn format_prometheus_metrics(global: &GlobalMetrics, shards: &[Arc<ShardMetrics>]) -> (r: String)
    ensures
        exists|now: u64| r@ == prometheus_text(*global, shards@, now),
{
    let now = now_millis();
    format_prometheus_metrics_at(global, shards, now)
}

/// The HTTP response that carries a metrics page: status line, content type
/// and length (in bytes) headers, a blank line, and the page.
pub open spec fn metrics_http_text(body: Seq<char>) -> Seq<char> {
    "HTTP/1.1 200 OK\r\nContent-Type: text/plain; version=0.0.4\r\nContent-Length: "@ + ascii_chars(
        decimal_digits(vstd::utf8::encode_utf8(body).len()),
    ) + "\r\n\r\n"@ + body
}

/// The HTTP response that carries a metrics page.
pub fn metrics_http_response(body: &String) -> (r: String)
    ensures
        r@ == metrics_http_text(body@),
{
    let mut response = text("HTTP/1.1 200 OK\r\nContent-Type: text/plain; version=0.0.4\r\nContent-Length: ");
    push_decimal_chars(&mut response, body.as_str().as_bytes().len() as u64);
    push_text(&mut response, "\r\n\r\n");
    push_text(&mut response, body.as_str());
    response
}

/// Whether `piece` stands somewhere in `page`.
pub open spec fn occurs_in(page: Seq<char>, piece: Seq<char>) -> bool {
    exists|i: int| 0 <= i && i + piece.len() <= page.len() && #[trigger] page.subrange(i, i + piece.len()) == piece
}

/// What stands in the first part stands in the whole.
proof fn lemma_occurs_left(a: Seq<char>, b: Seq<char>, piece: Seq<char>)
    requires
        occurs_in(a, piece),
    ensures
        occurs_in(a + b, piece),
{
    let i = choose|i: int| 0 <= i && i + piece.len() <= a.len() && #[trigger] a.subrange(i, i + piece.len()) == piece;
    assert((a + b).subrange(i, i + piece.len()) =~= a.subrange(i, i + piece.len()));
}

/// What stands in the second part stands in the whole.
proof fn lemma_occurs_right(a: Seq<char>, b: Seq<char>, piece: Seq<char>)
    requires
        occurs_in(b, piece),
    ensures
        occurs_in(a + b, piece),
{
    let i = choose|i: int| 0 <= i && i + piece.len() <= b.len() && #[trigger] b.subrange(i, i + piece.len()) == piece;
    let j = a.len() + i;
    assert((a + b).subrange(j, j + piece.len()) =~= b.subrange(i, i + piece.len()));
}

/// A text stands in itself.
proof fn lemma_occurs_self(piece: Seq<char>)
    ensures
        occurs_in(piece, piece),
{
    assert(piece.subrange(0int, 0int + piece.len()) =~= piece);
}

/// The line of the shard at `i`.
pub open spec fn shard_sample(name: Seq<char>, i: nat, value: nat) -> Seq<char> {
    name + "{shard=\""@ + ascii_chars(decimal_digits(i)) + "\"} "@ + ascii_chars(decimal_digits(value)) + "\n"@
}

/// The counter of the shard at `i`.
spec fn counter_at(shards: Seq<Arc<ShardMetrics>>, i: int, c: Counter) -> nat {
    counter_value(*shards[i], c)
}

/// Each shard's line stands among the per-shard lines.
proof fn lemma_shard_line_occurs(name: Seq<char>, shards: Seq<Arc<ShardMetrics>>, c: Counter, i: int)
    requires
        0 <= i < shards.len(),
    ensures
        occurs_in(shard_lines(name, shards, c), shard_sample(name, i as nat, counter_at(shards, i, c))),
    decreases shards.len(),
{
    let d = shards.drop_last();
    let n = shards.len() - 1;
    let last = shard_sample(name, n as nat, counter_at(shards, n, c));
    assert(shards.last() == shards[n]);
    assert(shard_lines(name, shards, c) =~= shard_lines(name, d, c) + last);
    if i == n {
        lemma_occurs_self(last);
        lemma_occurs_right(shard_lines(name, d, c), last, last);
    } else {
        assert(d[i] == shards[i]);
        assert(counter_at(d, i, c) == counter_at(shards, i, c));
        lemma_shard_line_occurs(name, d, c, i);
        lemma_occurs_left(shard_lines(name, d, c), last, shard_sample(name, i as nat, counter_at(shards, i, c)));
    }
}

/// The metrics page carries every counter in its own sample line: the uptime
/// read at `now`, the active connections, the connections accepted, and for
/// each shard its commands, keys, memory, expired keys, snapshots written and
/// snapshot write errors, each under that shard's index.
pub proof fn lemma_page_samples(global: GlobalMetrics, shards: Seq<Arc<ShardMetrics>>, now: u64)
    ensures
        occurs_in(
            prometheus_text(global, shards, now),
            "rsdragonfly_uptime_seconds"@ + " "@ + ascii_chars(decimal_digits(uptime_of(global.uptime_start, now) as nat)) + "\n"@,
        ),
        occurs_in(
            prometheus_text(global, shards, now),
            "rsdragonfly_connections_active"@ + " "@ + ascii_chars(decimal_digits(global.connections_active as nat)) + "\n"@,
        ),
        occurs_in(
            prometheus_text(global, shards, now),
            "rsdragonfly_connections_total"@ + " "@ + ascii_chars(decimal_digits(global.connections_total as nat)) + "\n"@,
        ),
        forall|i: int|
            0 <= i < shards.len() ==> {
                &&& occurs_in(
                    prometheus_text(global, shards, now),
                    shard_sample("rsdragonfly_shard_commands_total"@, i as nat, (#[trigger] shards[i]).commands_processed as nat),
                )
                &&& occurs_in(
                    prometheus_text(global, shards, now),
                    shard_sample("rsdragonfly_shard_keys"@, i as nat, shards[i].key_count as nat),
                )
                &&& occurs_in(
                    prometheus_text(global, shards, now),
                    shard_sample("rsdragonfly_shard_memory_bytes"@, i as nat, shards[i].memory_bytes as nat),
                )
                &&& occurs_in(
                    prometheus_text(global, shards, now),
                    shard_sample("rsdragonfly_shard_keys_expired_total"@, i as nat, shards[i].keys_expired as nat),
                )
                &&& occurs_in(
                    prometheus_text(global, shards, now),
                    shard_sample("rsdragonfly_shard_snapshots_written_total"@, i as nat, shards[i].snapshots_written as nat),
                )
                &&& occurs_in(
                    prometheus_text(global, shards, now),
                    shard_sample("rsdragonfly_shard_snapshot_write_errors_total"@, i as nat, shards[i].snapshot_write_errors as nat),
                )
            },
{
    let page = prometheus_text(global, shards, now);
    let h1 = family_header("rsdragonfly_uptime_seconds"@, "Server uptime in seconds"@, "gauge"@);
    let l1 = value_line("rsdragonfly_uptime_seconds"@, uptime_of(global.uptime_start, now) as nat);
    let h2 = family_header("rsdragonfly_connections_active"@, "Active client connections"@, "gauge"@);
    let l2 = value_line("rsdragonfly_connections_active"@, global.connections_active as nat);
    let h3 = family_header("rsdragonfly_connections_total"@, "Total connections accepted"@, "counter"@);
    let l3 = value_line("rsdragonfly_connections_total"@, global.connections_total as nat);
    let f1 = shard_family("rsdragonfly_shard_commands_total"@, "Commands processed per shard"@, "counter"@, shards, Counter::CommandsProcessed);
    let f2 = shard_family("rsdragonfly_shard_keys"@, "Current key count per shard"@, "gauge"@, shards, Counter::KeyCount);
    let f3 = shard_family("rsdragonfly_shard_memory_bytes"@, "Memory usage per shard"@, "gauge"@, shards, Counter::MemoryBytes);
    let f4 = shard_family("rsdragonfly_shard_keys_expired_total"@, "Keys expired per shard"@, "counter"@, shards, Counter::KeysExpired);
    let f5 = shard_family("rsdragonfly_shard_snapshots_written_total"@, "Snapshots written per shard"@, "counter"@, shards, Counter::SnapshotsWritten);
    let f6 = shard_family("rsdragonfly_shard_snapshot_write_errors_total"@, "Snapshot write errors per shard"@, "counter"@, shards, Counter::SnapshotWriteErrors);
    let t1 = h1 + l1;
    let t2 = t1 + h2;
    let t3 = t2 + l2;
    let t4 = t3 + h3;
    let t5 = t4 + l3;
    let t6 = t5 + f1;
    let t7 = t6 + f2;
    let t8 = t7 + f3;
    let t9 = t8 + f4;
    let t10 = t9 + f5;
    assert(page == t5 + f1 + f2 + f3 + f4 + f5 + f6);
    lemma_page_split(t5, f1, f2, f3, f4, f5, f6);
    lemma_prefix_chain(t5, f1, f2, f3, f4, f5, f6, l1, l2, l3, h1, h2, h3);
    assert forall|i: int| 0 <= i < shards.len() implies {
        &&& occurs_in(page, shard_sample("rsdragonfly_shard_commands_total"@, i as nat, (#[trigger] shards[i]).commands_processed as nat))
        &&& occurs_in(page, shard_sample("rsdragonfly_shard_keys"@, i as nat, shards[i].key_count as nat))
        &&& occurs_in(page, shard_sample("rsdragonfly_shard_memory_bytes"@, i as nat, shards[i].memory_bytes as nat))
        &&& occurs_in(page, shard_sample("rsdragonfly_shard_keys_expired_total"@, i as nat, shards[i].keys_expired as nat))
        &&& occurs_in(page, shard_sample("rsdragonfly_shard_snapshots_written_total"@, i as nat, shards[i].snapshots_written as nat))
        &&& occurs_in(page, shard_sample("rsdragonfly_shard_snapshot_write_errors_total"@, i as nat, shards[i].snapshot_write_errors as nat))
    } by {
        lemma_family_line(t5, f2 + f3 + f4 + f5 + f6, "rsdragonfly_shard_commands_total"@, "Commands processed per shard"@, "counter"@, shards, Counter::CommandsProcessed, i);
        lemma_family_line(t6, f3 + f4 + f5 + f6, "rsdragonfly_shard_keys"@, "Current key count per shard"@, "gauge"@, shards, Counter::KeyCount, i);
        lemma_family_line(t7, f4 + f5 + f6, "rsdragonfly_shard_memory_bytes"@, "Memory usage per shard"@, "gauge"@, shards, Counter::MemoryBytes, i);
        lemma_family_line(t8, f5 + f6, "rsdragonfly_shard_keys_expired_total"@, "Keys expired per shard"@, "counter"@, shards, Counter::KeysExpired, i);
        lemma_family_line(t9, f6, "rsdragonfly_shard_snapshots_written_total"@, "Snapshots written per shard"@, "counter"@, shards, Counter::SnapshotsWritten, i);
        lemma_family_line(t10, Seq::<char>::empty(), "rsdragonfly_shard_snapshot_write_errors_total"@, "Snapshot write errors per shard"@, "counter"@, shards, Counter::SnapshotWriteErrors, i);
    }
}

/// The ways the page splits around each per-shard metric.
proof fn lemma_page_split(t5: Seq<char>, f1: Seq<char>, f2: Seq<char>, f3: Seq<char>, f4: Seq<char>, f5: Seq<char>, f6: Seq<char>)
    ensures
        t5 + f1 + (f2 + f3 + f4 + f5 + f6) == t5 + f1 + f2 + f3 + f4 + f5 + f6,
        t5 + f1 + f2 + (f3 + f4 + f5 + f6) == t5 + f1 + f2 + f3 + f4 + f5 + f6,
        t5 + f1 + f2 + f3 + (f4 + f5 + f6) == t5 + f1 + f2 + f3 + f4 + f5 + f6,
        t5 + f1 + f2 + f3 + f4 + (f5 + f6) == t5 + f1 + f2 + f3 + f4 + f5 + f6,
        t5 + f1 + f2 + f3 + f4 + f5 + f6 + Seq::<char>::empty() == t5 + f1 + f2 + f3 + f4 + f5 + f6,
{
    assert(t5 + f1 + (f2 + f3 + f4 + f5 + f6) =~= t5 + f1 + f2 + f3 + f4 + f5 + f6);
    assert(t5 + f1 + f2 + (f3 + f4 + f5 + f6) =~= t5 + f1 + f2 + f3 + f4 + f5 + f6);
    assert(t5 + f1 + f2 + f3 + (f4 + f5 + f6) =~= t5 + f1 + f2 + f3 + f4 + f5 + f6);
    assert(t5 + f1 + f2 + f3 + f4 + (f5 + f6) =~= t5 + f1 + f2 + f3 + f4 + f5 + f6);
    assert(t5 + f1 + f2 + f3 + f4 + f5 + f6 + Seq::<char>::empty() =~= t5 + f1 + f2 + f3 + f4 + f5 + f6);
}

/// A per-shard line stands in any text that holds its metric.
proof fn lemma_family_line(
    before: Seq<char>,
    after: Seq<char>,
    name: Seq<char>,
    help: Seq<char>,
    kind: Seq<char>,
    shards: Seq<Arc<ShardMetrics>>,
    c: Counter,
    i: int,
)
    requires
        0 <= i < shards.len(),
    ensures
        occurs_in(before + shard_family(name, help, kind, shards, c) + after, shard_sample(name, i as nat, counter_value(*shards[i], c))),
{
    lemma_shard_line_occurs(name, shards, c, i);
    let piece = shard_sample(name, i as nat, counter_at(shards, i, c));
    lemma_occurs_right(family_header(name, help, kind), shard_lines(name, shards, c), piece);
    lemma_occurs_right(before, shard_family(name, help, kind, shards, c), piece);
    lemma_occurs_left(before + shard_family(name, help, kind, shards, c), after, piece);
}

/// The global sample lines stand in the page.
proof fn lemma_prefix_chain(
    t5: Seq<char>,
    f1: Seq<char>,
    f2: Seq<char>,
    f3: Seq<char>,
    f4: Seq<char>,
    f5: Seq<char>,
    f6: Seq<char>,
    l1: Seq<char>,
    l2: Seq<char>,
    l3: Seq<char>,
    h1: Seq<char>,
    h2: Seq<char>,
    h3: Seq<char>,
)
    requires
        t5 == h1 + l1 + h2 + l2 + h3 + l3,
    ensures
        occurs_in(t5 + f1 + f2 + f3 + f4 + f5 + f6, l1),
        occurs_in(t5 + f1 + f2 + f3 + f4 + f5 + f6, l2),
        occurs_in(t5 + f1 + f2 + f3 + f4 + f5 + f6, l3),
{
    let rest = f1 + f2 + f3 + f4 + f5 + f6;
    assert(t5 + f1 + f2 + f3 + f4 + f5 + f6 =~= t5 + rest);
    lemma_occurs_self(l1);
    lemma_occurs_self(l2);
    lemma_occurs_self(l3);
    lemma_occurs_right(h1, l1, l1);
    lemma_occurs_left(h1 + l1, h2 + l2 + h3 + l3, l1);
    assert(h1 + l1 + (h2 + l2 + h3 + l3) =~= t5);
    lemma_occurs_right(h1 + l1 + h2, l2, l2);
    lemma_occurs_left(h1 + l1 + h2 + l2, h3 + l3, l2);
    assert(h1 + l1 + h2 + l2 + (h3 + l3) =~= t5);
    lemma_occurs_right(h1 + l1 + h2 + l2 + h3, l3, l3);
    lemma_occurs_left(t5, rest, l1);
    lemma_occurs_left(t5, rest, l2);
    lemma_occurs_left(t5, rest, l3);
}

} // verus!
