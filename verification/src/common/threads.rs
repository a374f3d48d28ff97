use vstd::prelude::*;

use crate::common::shard_id::ShardId;
use crate::common::text::{ascii_chars, decimal_digits, push_decimal_chars, text};

verus! {

/// The threads of the server, by role.
pub enum ThreadType {
    Acceptor,
    ConnectionHandler(usize),
    ShardWorker(ShardId),
    SnapshotWriter(ShardId),
    MetricsExporter,
}

impl ThreadType {
    /// The thread name of a role.
    pub open spec fn spec_name(&self) -> Seq<char> {
        match self {
            ThreadType::Acceptor => "acceptor"@,
            ThreadType::ConnectionHandler(id) => "conn-handler-"@ + ascii_chars(decimal_digits(*id as nat)),
            ThreadType::ShardWorker(shard_id) => "shard-"@ + ascii_chars(decimal_digits(shard_id.0 as nat)),
            ThreadType::SnapshotWriter(shard_id) => "snapshot-"@ + ascii_chars(decimal_digits(shard_id.0 as nat)),
            ThreadType::MetricsExporter => "metrics"@,
        }
    }

    pub fn name(&self) -> (r: String)
        ensures
            r@ == self.spec_name(),
    {
        match self {
            ThreadType::Acceptor => text("acceptor"),
            ThreadType::ConnectionHandler(id) => {
                let mut s = text("conn-handler-");
                push_decimal_chars(&mut s, *id as u64);
                s
            },
            ThreadType::ShardWorker(shard_id) => {
                let mut s = text("shard-");
                push_decimal_chars(&mut s, shard_id.0 as u64);
                s
            },
            ThreadType::SnapshotWriter(shard_id) => {
                let mut s = text("snapshot-");
                push_decimal_chars(&mut s, shard_id.0 as u64);
                s
            },
            ThreadType::MetricsExporter => text("metrics"),
        }
    }
}

} // verus!
