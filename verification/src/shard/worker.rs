use vstd::prelude::*;

use crate::common::shard_id::ShardId;
use crate::protocol::command::Command;
use crate::protocol::response::Response;
use crate::shard::expiration::spec_expire_keys;
use crate::shard::serialize::{serialize_shard_at, snapshot_image};
use crate::shard::shard::{admissible, spec_execute, Shard};

verus! {

/// A snapshot on its way from a shard to the writer.
pub struct SnapshotRequest {
    pub shard_id: ShardId,
    pub data: Vec<u8>,
}

/// What a shard's worker was woken by.
pub enum WorkerEvent {
    /// A command arrived.
    Command(Command),
    /// Time to delete expired keys.
    TtlTick,
    /// Time to take a snapshot.
    SnapshotTick,
    /// The command queue closed: the server shuts down.
    Closed,
}

/// What the worker does next.
pub enum WorkerAction {
    /// Send the reply to the command.
    Reply(Response),
    /// Nothing beyond what the shard did.
    Continue,
    /// Hand the snapshot to the writer, unless the writer is busy.
    Snapshot(SnapshotRequest),
    /// Hand the last snapshot to the writer and stop.
    Stop(SnapshotRequest),
}

impl Shard {
    /// The snapshot of this shard taken at `now`, addressed to the writer.
    pub fn snapshot_request_at(&self, now: u64) -> (r: SnapshotRequest)
        requires
            self.wf(),
        ensures
            r.shard_id == self.id,
            r.data@ == snapshot_image(self.id.0, self.data.ordered(), now),
    {
        SnapshotRequest { shard_id: self.id, data: serialize_shard_at(self, now) }
    }

    /// One step of the worker at `now`: a command is run and answered, a TTL
    /// tick deletes expired keys, a snapshot tick takes a snapshot, and a
    /// closed queue takes a last snapshot and stops.
    pub fn handle_event_at(&mut self, event: WorkerEvent, now: u64) -> (r: WorkerAction)
        requires
            old(self).wf(),
            event matches WorkerEvent::Command(c) ==> admissible(old(self)@, c.model()),
        ensures
            final(self).wf(),
            match event {
                WorkerEvent::Command(c) => r matches WorkerAction::Reply(resp) && (final(self)@, resp.model())
                    == spec_execute(old(self)@, c.model(), now),
                WorkerEvent::TtlTick => r is Continue && final(self)@ == spec_expire_keys(old(self)@, now),
                WorkerEvent::SnapshotTick => r matches WorkerAction::Snapshot(req) && req.shard_id == old(self).id
                    && req.data@ == snapshot_image(old(self).id.0, old(self).data.ordered(), now)
                    && *final(self) == *old(self),
                WorkerEvent::Closed => r matches WorkerAction::Stop(req) && req.shard_id == old(self).id
                    && req.data@ == snapshot_image(old(self).id.0, old(self).data.ordered(), now)
                    && *final(self) == *old(self),
            },
    {
        match event {
            WorkerEvent::Command(command) => WorkerAction::Reply(self.execute_at(command, now)),
            WorkerEvent::TtlTick => {
                self.expire_keys_at(now);
                WorkerAction::Continue
            },
            WorkerEvent::SnapshotTick => WorkerAction::Snapshot(self.snapshot_request_at(now)),
            WorkerEvent::Closed => WorkerAction::Stop(self.snapshot_request_at(now)),
        }
    }
}

} // verus!
