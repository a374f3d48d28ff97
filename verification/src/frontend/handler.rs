use vstd::prelude::*;

use crate::common::shard_id::ShardId;
use crate::common::text::{debug_quoted, debug_text, joined, push_joined, push_text, string_views, text};
use crate::common::types::copy_bytes;
use crate::frontend::multi_key::ShardCall;
use crate::frontend::router::{shard_of, Router};
use crate::protocol::command::{spec_command, Command, CommandError, CommandErrorModel, CommandModel};
use crate::protocol::parser::{spec_parse_value, ParseError, RespParser};
use crate::protocol::resp::{RespModel, RespValue};
use crate::protocol::response::{Response, ResponseModel};

verus! {

/// The RESP2 value that answers a response.
pub open spec fn resp_of(r: ResponseModel) -> RespModel {
    match r {
        ResponseModel::Value(v) => RespModel::BulkString(v),
        ResponseModel::Integer(n) => RespModel::Integer(n),
        ResponseModel::Okay => RespModel::SimpleString("OK"@),
        ResponseModel::Error(m) => RespModel::Error(m),
    }
}

/// The RESP2 value that answers a response: a value as a bulk string (null
/// when there is none), OK as a simple string.
pub fn response_to_resp(response: Response) -> (r: RespValue)
    ensures
        r.model() == resp_of(response.model()),
{
    match response {
        Response::Value(Some(value)) => RespValue::BulkString(Some(copy_bytes(value.as_bytes()))),
        Response::Value(None) => RespValue::BulkString(None),
        Response::Integer(n) => RespValue::Integer(n),
        Response::Okay => RespValue::ok(),
        Response::Error(msg) => RespValue::Error(msg),
    }
}

/// How `{:?}` writes a command error.
pub open spec fn command_error_text(e: CommandErrorModel) -> Seq<char> {
    match e {
        CommandErrorModel::InvalidFormat => "InvalidFormat"@,
        CommandErrorModel::EmptyCommand => "EmptyCommand"@,
        CommandErrorModel::UnknownCommand(name) => "UnknownCommand("@ + debug_quoted(name) + ")"@,
        CommandErrorModel::WrongArgCount => "WrongArgCount"@,
        CommandErrorModel::InvalidArgument => "InvalidArgument"@,
    }
}

/// The error that answers a value that is no command: `ERR` and how `{:?}`
/// writes the reason.
pub fn command_error_reply(e: CommandError) -> (r: Response)
    ensures
        r.model() == ResponseModel::Error("ERR "@ + command_error_text(e.model())),
{
    let ghost em = e.model();
    let mut msg = text("ERR ");
    match e {
        CommandError::InvalidFormat => push_text(&mut msg, "InvalidFormat"),
        CommandError::EmptyCommand => push_text(&mut msg, "EmptyCommand"),
        CommandError::UnknownCommand(name) => {
            push_text(&mut msg, "UnknownCommand(");
            let quoted = debug_text(name.as_str());
            push_text(&mut msg, quoted.as_str());
            push_text(&mut msg, ")");
        },
        CommandError::WrongArgCount => push_text(&mut msg, "WrongArgCount"),
        CommandError::InvalidArgument => push_text(&mut msg, "InvalidArgument"),
    }
    assert(msg@ =~= "ERR "@ + command_error_text(em));
    Response::Error(msg)
}

/// What a connection does next with the bytes it has read.
pub enum ConnectionStep {
    /// The next value has not fully arrived.
    NeedMore,
    /// A command to run.
    Execute(Command),
    /// A value that is no command, and the error that answers it.
    Reply(Response),
    /// The bytes are no RESP2: the connection ends.
    Fail(ParseError),
}

/// Takes the next value off the parser and says what to do with it: run the
/// command it makes, answer the error of one that makes none, wait for more
/// bytes, or give up on bytes that are no RESP2.
pub fn next_step(parser: &mut RespParser) -> (r: ConnectionStep)
    requires
        old(parser).wf(),
    ensures
        final(parser).wf(),
        final(parser).buffered() == old(parser).buffered(),
        match spec_parse_value(old(parser).pending()) {
            Ok((m, k)) => {
                &&& final(parser).consumed() == old(parser).consumed() + k
                &&& match spec_command(m) {
                    Ok(c) => r matches ConnectionStep::Execute(cmd) && cmd.model() == c,
                    Err(e) => r matches ConnectionStep::Reply(resp) && resp.model() == ResponseModel::Error(
                        "ERR "@ + command_error_text(e),
                    ),
                }
            },
            Err(ParseError::Incomplete) => {
                &&& r is NeedMore
                &&& final(parser).consumed() == old(parser).consumed()
            },
            Err(e) => {
                &&& r matches ConnectionStep::Fail(f) && f == e
                &&& final(parser).consumed() == old(parser).consumed()
            },
        },
{
    match parser.parse() {
        Ok(Some(value)) => match Command::from_resp(value) {
            Ok(cmd) => ConnectionStep::Execute(cmd),
            Err(e) => ConnectionStep::Reply(command_error_reply(e)),
        },
        Ok(None) => ConnectionStep::NeedMore,
        Err(e) => ConnectionStep::Fail(e),
    }
}

/// Where a command goes.
pub enum CommandRoute {
    /// To one shard, with the command to send it.
    Shard(ShardId, Command),
    /// A DEL, split over the shards of its keys.
    SplitDel(Vec<Vec<u8>>),
}

/// The shard a command goes to; none for a DEL, which is split by key.
pub open spec fn spec_route(c: CommandModel) -> Option<u16> {
    match c {
        CommandModel::Ping(_) => Some(0),
        CommandModel::Info(_) => Some(0),
        CommandModel::Get(k) => Some(shard_of(k)),
        CommandModel::SetKey(k, _, _) => Some(shard_of(k)),
        CommandModel::Expire(k, _) => Some(shard_of(k)),
        CommandModel::Ttl(k) => Some(shard_of(k)),
        CommandModel::Del(_) => None,
    }
}

/// Where a command goes: PING and INFO to shard 0, a command on one key to
/// that key's shard, a DEL split over its keys' shards. The command comes back
/// for sending, except a DEL, whose keys come back.
pub fn route_command(command: Command) -> (r: CommandRoute)
    ensures
        match spec_route(command.model()) {
            Some(id) => r matches CommandRoute::Shard(s, c) && s.0 == id && c == command,
            None => command.model() matches CommandModel::Del(keys) && r matches CommandRoute::SplitDel(ks)
                && crate::protocol::command::key_views(ks@) == keys,
        },
{
    match command {
        Command::Ping { .. } | Command::Info { .. } => CommandRoute::Shard(ShardId(0), command),
        Command::Get { ref key } | Command::SetKey { ref key, .. } | Command::Expire { ref key, .. } | Command::Ttl {
            ref key,
        } => {
            let shard = Router::route_key(key.as_slice());
            CommandRoute::Shard(shard, command)
        },
        Command::Del { keys } => CommandRoute::SplitDel(keys),
    }
}

/// What a command sent to one shard answers: the shard's reply, or an error
/// that says what went wrong.
pub open spec fn spec_shard_reply(call: ShardCall) -> ResponseModel {
    match call {
        ShardCall::NoShard => ResponseModel::Error("ERR invalid shard id"@),
        ShardCall::SendFailed => ResponseModel::Error("ERR shard overloaded"@),
        ShardCall::Replied(r) => r.model(),
        ShardCall::Closed => ResponseModel::Error("ERR shard closed connection"@),
        ShardCall::TimedOut => ResponseModel::Error("ERR shard timeout"@),
    }
}

/// What a command sent to one shard answers.
pub fn shard_reply(call: ShardCall) -> (r: Response)
    ensures
        r.model() == spec_shard_reply(call),
{
    match call {
        ShardCall::NoShard => Response::Error(text("ERR invalid shard id")),
        ShardCall::SendFailed => Response::Error(text("ERR shard overloaded")),
        ShardCall::Replied(r) => r,
        ShardCall::Closed => Response::Error(text("ERR shard closed connection")),
        ShardCall::TimedOut => Response::Error(text("ERR shard timeout")),
    }
}

/// What one shard's part of a split DEL answers: its reply, or an error.
pub open spec fn spec_del_part_reply(call: ShardCall) -> ResponseModel {
    match call {
        ShardCall::SendFailed => ResponseModel::Error("ERR shard overloaded"@),
        ShardCall::Replied(r) => r.model(),
        _ => ResponseModel::Error("ERR timeout"@),
    }
}

/// What one shard's part of a split DEL answers.
pub fn del_part_reply(call: ShardCall) -> (r: Response)
    requires
        !(call is NoShard),
    ensures
        r.model() == spec_del_part_reply(call),
{
    match call {
        ShardCall::SendFailed => Response::Error(text("ERR shard overloaded")),
        ShardCall::Replied(r) => r,
        _ => Response::Error(text("ERR timeout")),
    }
}

/// The counts that the parts answered, summed.
pub open spec fn deleted_total(parts: Seq<Response>) -> int
    decreases parts.len(),
{
    if parts.len() == 0 {
        0
    } else {
        deleted_total(parts.drop_last()) + match parts.last() {
            Response::Integer(n) => n as int,
            _ => 0,
        }
    }
}

/// The errors that the parts answered, in order.
pub open spec fn part_errors(parts: Seq<Response>) -> Seq<Seq<char>>
    decreases parts.len(),
{
    if parts.len() == 0 {
        Seq::empty()
    } else {
        let rest = part_errors(parts.drop_last());
        match parts.last() {
            Response::Error(e) => rest.push(e@),
            _ => rest,
        }
    }
}

/// What the parts of a split DEL answer together: the sum of the counts, or,
/// when a part failed, an error that lists the failures.
pub open spec fn spec_combine(parts: Seq<Response>) -> ResponseModel {
    if part_errors(parts).len() == 0 {
        ResponseModel::Integer(deleted_total(parts) as i64)
    } else {
        ResponseModel::Error("ERR partial failure: "@ + joined(part_errors(parts), ", "@))
    }
}

/// What the parts of a split DEL answer together.
pub fn combine_del_responses(parts: Vec<Response>) -> (r: Response)
    requires
        forall|i: int| 0 <= i <= parts@.len() ==> i64::MIN <= #[trigger] deleted_total(parts@.take(i)) <= i64::MAX,
    ensures
        r.model() == spec_combine(parts@),
{
    let ghost all = parts@;
    let mut total_deleted: i64 = 0;
    let mut errors: Vec<String> = Vec::new();
    let mut i: usize = 0;
    while i < parts.len()
        invariant
            all == parts@,
            forall|j: int| 0 <= j <= all.len() ==> i64::MIN <= #[trigger] deleted_total(all.take(j)) <= i64::MAX,
            i <= all.len(),
            total_deleted == deleted_total(all.take(i as int)),
            string_views(errors@) == part_errors(all.take(i as int)),
        decreases all.len() - i,
    {
        let ghost prefix = all.take(i + 1);
        assert(prefix.drop_last() =~= all.take(i as int));
        assert(prefix.last() == all[i as int]);
        assert(i64::MIN <= deleted_total(all.take(i + 1)) <= i64::MAX);
        match &parts[i] {
            Response::Integer(n) => {
                total_deleted = total_deleted + *n;
            },
            Response::Error(e) => {
                errors.push(text(e.as_str()));
                assert(string_views(errors@) =~= part_errors(prefix));
            },
            _ => {},
        }
        i = i + 1;
    }
    assert(all.take(all.len() as int) =~= all);
    if errors.len() == 0 {
        Response::Integer(total_deleted)
    } else {
        let mut msg = text("ERR partial failure: ");
        push_joined(&mut msg, &errors, ", ");
        Response::Error(msg)
    }
}

/// Every command on one key goes to the shard of that key (its CRC-16 modulo
/// the 64 shards), whatever the command: GET, SET, EXPIRE and TTL of a key meet
/// at one shard. PING and INFO go to shard 0; a DEL goes to no single shard.
pub proof fn lemma_routes(key: Seq<u8>, value: Seq<u8>, ttl: Option<u64>, seconds: u64, message: Option<Seq<u8>>, section: Option<Seq<char>>, keys: Seq<Seq<u8>>)
    ensures
        spec_route(CommandModel::Get(key)) == Some((crate::common::hash::crc16_spec(key) % 64) as u16),
        spec_route(CommandModel::SetKey(key, value, ttl)) == Some((crate::common::hash::crc16_spec(key) % 64) as u16),
        spec_route(CommandModel::Expire(key, seconds)) == Some((crate::common::hash::crc16_spec(key) % 64) as u16),
        spec_route(CommandModel::Ttl(key)) == Some((crate::common::hash::crc16_spec(key) % 64) as u16),
        spec_route(CommandModel::Ping(message)) == Some(0u16),
        spec_route(CommandModel::Info(section)) == Some(0u16),
        spec_route(CommandModel::Del(keys)) is None,
{
}

} // verus!
