use vstd::prelude::*;

use crate::common::shard_id::ShardId;
use crate::common::text::{
    ascii_chars, decimal_digits, decimal_text, joined, push_decimal_chars, push_joined,
    push_signed_decimal_chars, push_text, string_views, text,
};
use crate::protocol::response::{Response, ResponseModel};

verus! {

/// What became of a command sent to one shard.
pub enum ShardCall {
    /// There is no shard with that id.
    NoShard,
    /// The shard's queue did not take the command in time, or is closed.
    SendFailed,
    /// The shard answered.
    Replied(Response),
    /// The shard dropped the command without answering.
    Closed,
    /// The shard did not answer in time.
    TimedOut,
}

/// How a DEL spread over several shards ended.
pub enum MultiKeyResult {
    Success(i64),
    PartialFailure { succeeded: i64, failed_shards: Vec<ShardId>, errors: Vec<String> },
    TotalFailure(String),
}

/// The mathematical content of a `MultiKeyResult`.
pub enum MultiKeyModel {
    Success(i64),
    PartialFailure { succeeded: i64, failed_shards: Seq<ShardId>, errors: Seq<Seq<char>> },
    TotalFailure(Seq<char>),
}

impl MultiKeyResult {
    pub open spec fn model(self) -> MultiKeyModel {
        match self {
            MultiKeyResult::Success(n) => MultiKeyModel::Success(n),
            MultiKeyResult::PartialFailure { succeeded, failed_shards, errors } => MultiKeyModel::PartialFailure {
                succeeded,
                failed_shards: failed_shards@,
                errors: string_views(errors@),
            },
            MultiKeyResult::TotalFailure(m) => MultiKeyModel::TotalFailure(m@),
        }
    }
}

/// How `{:?}` writes a shard id: `ShardId(7)`.
pub open spec fn shard_id_text(id: ShardId) -> Seq<char> {
    "ShardId("@ + ascii_chars(decimal_digits(id.0 as nat)) + ")"@
}

/// How `{:?}` writes a list of shard ids: `[ShardId(1), ShardId(7)]`.
pub open spec fn shard_list_text(ids: Seq<ShardId>) -> Seq<char> {
    "["@ + joined(Seq::new(ids.len(), |i: int| shard_id_text(ids[i])), ", "@) + "]"@
}

/// The error that a partial failure answers.
pub open spec fn partial_failure_text(succeeded: i64, failed: Seq<ShardId>, errors: Seq<Seq<char>>) -> Seq<char> {
    "ERR partial failure: "@ + ascii_chars(decimal_text(succeeded as int)) + " succeeded, "@
        + ascii_chars(decimal_digits(failed.len())) + " failed on shards "@ + shard_list_text(failed) + ": "@
        + joined(errors, ", "@)
}

/// What a result of a DEL spread over shards answers.
pub open spec fn multi_key_response(m: MultiKeyModel) -> ResponseModel {
    match m {
        MultiKeyModel::Success(n) => ResponseModel::Integer(n),
        MultiKeyModel::PartialFailure { succeeded, failed_shards, errors } => ResponseModel::Error(
            partial_failure_text(succeeded, failed_shards, errors),
        ),
        MultiKeyModel::TotalFailure(m) => ResponseModel::Error(m),
    }
}

/// Appends how `{:?}` writes a list of shard ids.
fn push_shard_list(s: &mut String, ids: &Vec<ShardId>)
    ensures
        final(s)@ == old(s)@ + shard_list_text(ids@),
{
    let mut items: Vec<String> = Vec::new();
    let mut i: usize = 0;
    while i < ids.len()
        invariant
            i <= ids@.len(),
            items@.len() == i,
            string_views(items@) == Seq::new(i as nat, |j: int| shard_id_text(ids@[j])),
        decreases ids.len() - i,
    {
        let mut item = text("ShardId(");
        push_decimal_chars(&mut item, ids[i].0 as u64);
        push_text(&mut item, ")");
        assert(item@ =~= shard_id_text(ids@[i as int]));
        let ghost before = items@;
        items.push(item);
        proof {
            assert forall|j: int| 0 <= j <= i implies #[trigger] string_views(items@)[j] == shard_id_text(ids@[j]) by {
                if j < i {
                    assert(items@[j] == before[j]);
                    assert(string_views(before)[j] == shard_id_text(ids@[j]));
                }
            }
        }
        i = i + 1;
        assert(string_views(items@) =~= Seq::new(i as nat, |j: int| shard_id_text(ids@[j])));
    }
    push_text(s, "[");
    push_joined(s, &items, ", ");
    push_text(s, "]");
    assert(Seq::new(ids@.len(), |j: int| shard_id_text(ids@[j])) =~= string_views(items@));
}

impl MultiKeyResult {
    /// The answer to the client: the count deleted, or an error that says
    /// what failed.
    pub fn to_response(self) -> (r: Response)
        ensures
            r.model() == multi_key_response(self.model()),
    {
        match self {
            MultiKeyResult::Success(n) => Response::Integer(n),
            MultiKeyResult::PartialFailure { succeeded, failed_shards, errors } => {
                let mut msg = text("ERR partial failure: ");
                push_signed_decimal_chars(&mut msg, succeeded);
                push_text(&mut msg, " succeeded, ");
                push_decimal_chars(&mut msg, failed_shards.len() as u64);
                push_text(&mut msg, " failed on shards ");
                push_shard_list(&mut msg, &failed_shards);
                push_text(&mut msg, ": ");
                push_joined(&mut msg, &errors, ", ");
                Response::Error(msg)
            },
            MultiKeyResult::TotalFailure(msg) => Response::Error(msg),
        }
    }
}

/// What one shard's part of a DEL came to: the count it deleted, or why it
/// failed.
pub open spec fn del_outcome(call: ShardCall) -> Result<i64, Seq<char>> {
    match call {
        ShardCall::Replied(Response::Integer(n)) => Ok(n),
        ShardCall::Replied(Response::Error(e)) => Err(e@),
        ShardCall::Replied(_) => Err("Unexpected response type"@),
        ShardCall::NoShard => Err(Seq::empty()),
        ShardCall::SendFailed => Err("Shard overloaded (Send timeout)"@),
        ShardCall::Closed => Err("Shard disconnected"@),
        ShardCall::TimedOut => Err("Shard response timeout"@),
    }
}

/// One shard's part of a DEL: the count it deleted, or why it failed.
pub fn shard_del_outcome(call: ShardCall) -> (r: Result<i64, String>)
    requires
        !(call is NoShard),
    ensures
        match (r, del_outcome(call)) {
            (Ok(n), Ok(m)) => n == m,
            (Err(e), Err(m)) => e@ == m,
            _ => false,
        },
{
    match call {
        ShardCall::Replied(Response::Integer(n)) => Ok(n),
        ShardCall::Replied(Response::Error(e)) => Err(e),
        ShardCall::Replied(_) => Err(text("Unexpected response type")),
        ShardCall::NoShard => Err(String::new()),
        ShardCall::SendFailed => Err(text("Shard overloaded (Send timeout)")),
        ShardCall::Closed => Err(text("Shard disconnected")),
        ShardCall::TimedOut => Err(text("Shard response timeout")),
    }
}

/// The counts that the shards deleted, summed.
pub open spec fn ok_total(results: Seq<(ShardId, Result<i64, String>)>) -> int
    decreases results.len(),
{
    if results.len() == 0 {
        0
    } else {
        ok_total(results.drop_last()) + match results.last().1 {
            Ok(n) => n as int,
            Err(_) => 0,
        }
    }
}

/// The shards that failed, in order.
pub open spec fn failed_ids(results: Seq<(ShardId, Result<i64, String>)>) -> Seq<ShardId>
    decreases results.len(),
{
    if results.len() == 0 {
        Seq::empty()
    } else {
        let rest = failed_ids(results.drop_last());
        match results.last().1 {
            Ok(_) => rest,
            Err(_) => rest.push(results.last().0),
        }
    }
}

/// `Shard 7: why`, for each shard that failed, in order.
pub open spec fn failure_texts(results: Seq<(ShardId, Result<i64, String>)>) -> Seq<Seq<char>>
    decreases results.len(),
{
    if results.len() == 0 {
        Seq::empty()
    } else {
        let rest = failure_texts(results.drop_last());
        match results.last().1 {
            Ok(_) => rest,
            Err(e) => rest.push("Shard "@ + ascii_chars(decimal_digits(results.last().0.0 as nat)) + ": "@ + e@),
        }
    }
}

/// Whether every running total of the counts fits in `i64`.
pub open spec fn totals_fit(results: Seq<(ShardId, Result<i64, String>)>) -> bool {
    forall|i: int| 0 <= i <= results.len() ==> i64::MIN <= #[trigger] ok_total(results.take(i)) <= i64::MAX
}

/// How a DEL spread over shards ended, given what each shard's part came to:
/// success when no shard failed; else a partial failure when more than none
/// were deleted; else a total failure that lists the failures.
pub open spec fn spec_aggregate(results: Seq<(ShardId, Result<i64, String>)>) -> MultiKeyModel {
    let total = ok_total(results) as i64;
    if failure_texts(results).len() == 0 {
        MultiKeyModel::Success(total)
    } else if total > 0 {
        MultiKeyModel::PartialFailure { succeeded: total, failed_shards: failed_ids(results), errors: failure_texts(results) }
    } else {
        MultiKeyModel::TotalFailure(joined(failure_texts(results), "; "@))
    }
}

/// Adds up what the shards' parts of a DEL came to.
pub fn aggregate_del_results(results: Vec<(ShardId, Result<i64, String>)>) -> (r: MultiKeyResult)
    requires
        totals_fit(results@),
    ensures
        r.model() == spec_aggregate(results@),
{
    let ghost all = results@;
    let mut total_deleted: i64 = 0;
    let mut failed_shards: Vec<ShardId> = Vec::new();
    let mut errors: Vec<String> = Vec::new();
    let mut i: usize = 0;
    while i < results.len()
        invariant
            all == results@,
            totals_fit(all),
            i <= all.len(),
            total_deleted == ok_total(all.take(i as int)),
            failed_shards@ == failed_ids(all.take(i as int)),
            string_views(errors@) == failure_texts(all.take(i as int)),
        decreases all.len() - i,
    {
        let ghost prefix = all.take(i + 1);
        assert(prefix.drop_last() =~= all.take(i as int));
        assert(prefix.last() == all[i as int]);
        assert(i64::MIN <= ok_total(all.take(i + 1)) <= i64::MAX);
        let id = results[i].0;
        match &results[i].1 {
            Ok(n) => {
                total_deleted = total_deleted + *n;
            },
            Err(e) => {
                failed_shards.push(id);
                let mut line = text("Shard ");
                push_decimal_chars(&mut line, id.0 as u64);
                push_text(&mut line, ": ");
                push_text(&mut line, e.as_str());
                errors.push(line);
                assert(string_views(errors@) =~= failure_texts(prefix));
            },
        }
        i = i + 1;
    }
    assert(all.take(all.len() as int) =~= all);
    if errors.len() == 0 {
        MultiKeyResult::Success(total_deleted)
    } else if total_deleted > 0 {
        MultiKeyResult::PartialFailure { succeeded: total_deleted, failed_shards, errors }
    } else {
        let mut msg = String::new();
        push_joined(&mut msg, &errors, "; ");
        MultiKeyResult::TotalFailure(msg)
    }
}

} // verus!
