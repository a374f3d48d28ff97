use rsdragonfly::common::shard_id::ShardId;
use rsdragonfly::common::types::Value;
use rsdragonfly::frontend::handler::{
    combine_del_responses, command_error_reply, del_part_reply, next_step, response_to_resp, route_command,
    shard_reply, CommandRoute, ConnectionStep,
};
use rsdragonfly::frontend::multi_key::{aggregate_del_results, shard_del_outcome, MultiKeyResult, ShardCall};
use rsdragonfly::frontend::router::Router;
use rsdragonfly::protocol::command::{Command, CommandError};
use rsdragonfly::protocol::parser::{ParseError, RespParser};
use rsdragonfly::protocol::resp::RespValue;
use rsdragonfly::protocol::response::Response;

fn error_text(r: Response) -> String {
    match r {
        Response::Error(m) => m,
        other => panic!("not an error: {:?}", other),
    }
}

#[test]
fn multi_key_result_responses() {
    assert!(matches!(MultiKeyResult::Success(5).to_response(), Response::Integer(5)));
    let partial = MultiKeyResult::PartialFailure {
        succeeded: 3,
        failed_shards: vec![ShardId(2), ShardId(40)],
        errors: vec!["Shard 2: down".to_string(), "Shard 40: slow".to_string()],
    };
    assert_eq!(
        error_text(partial.to_response()),
        "ERR partial failure: 3 succeeded, 2 failed on shards [ShardId(2), ShardId(40)]: Shard 2: down, Shard 40: slow"
    );
    let none_failed = MultiKeyResult::PartialFailure { succeeded: -1, failed_shards: vec![], errors: vec![] };
    assert_eq!(error_text(none_failed.to_response()), "ERR partial failure: -1 succeeded, 0 failed on shards []: ");
    assert_eq!(error_text(MultiKeyResult::TotalFailure("boom".to_string()).to_response()), "boom");
}

#[test]
fn aggregate_success_partial_and_total() {
    match aggregate_del_results(vec![(ShardId(1), Ok(2)), (ShardId(5), Ok(3))]) {
        MultiKeyResult::Success(n) => assert_eq!(n, 5),
        _ => panic!("expected success"),
    }
    match aggregate_del_results(vec![(ShardId(1), Ok(2)), (ShardId(5), Err("Shard disconnected".to_string()))]) {
        MultiKeyResult::PartialFailure { succeeded, failed_shards, errors } => {
            assert_eq!(succeeded, 2);
            assert_eq!(failed_shards, vec![ShardId(5)]);
            assert_eq!(errors, vec!["Shard 5: Shard disconnected".to_string()]);
        }
        _ => panic!("expected a partial failure"),
    }
    match aggregate_del_results(vec![
        (ShardId(1), Ok(0)),
        (ShardId(7), Err("a".to_string())),
        (ShardId(9), Err("b".to_string())),
    ]) {
        MultiKeyResult::TotalFailure(m) => assert_eq!(m, "Shard 7: a; Shard 9: b"),
        _ => panic!("expected a total failure"),
    }
    assert!(matches!(aggregate_del_results(vec![]), MultiKeyResult::Success(0)));
}

#[test]
fn shard_del_outcomes() {
    assert_eq!(shard_del_outcome(ShardCall::Replied(Response::Integer(4))), Ok(4));
    assert_eq!(shard_del_outcome(ShardCall::Replied(Response::Error("ERR x".to_string()))), Err("ERR x".to_string()));
    assert_eq!(shard_del_outcome(ShardCall::Replied(Response::Okay)), Err("Unexpected response type".to_string()));
    assert_eq!(shard_del_outcome(ShardCall::SendFailed), Err("Shard overloaded (Send timeout)".to_string()));
    assert_eq!(shard_del_outcome(ShardCall::Closed), Err("Shard disconnected".to_string()));
    assert_eq!(shard_del_outcome(ShardCall::TimedOut), Err("Shard response timeout".to_string()));
}

#[test]
fn responses_to_resp() {
    assert_eq!(
        response_to_resp(Response::Value(Some(Value::String(b"v".to_vec())))),
        RespValue::BulkString(Some(b"v".to_vec()))
    );
    assert_eq!(response_to_resp(Response::Value(None)), RespValue::BulkString(None));
    assert_eq!(response_to_resp(Response::Integer(-2)), RespValue::Integer(-2));
    assert_eq!(response_to_resp(Response::Okay), RespValue::SimpleString("OK".to_string()));
    assert_eq!(response_to_resp(Response::Error("ERR e".to_string())), RespValue::Error("ERR e".to_string()));
}

#[test]
fn command_error_replies() {
    assert_eq!(error_text(command_error_reply(CommandError::InvalidFormat)), "ERR InvalidFormat");
    assert_eq!(error_text(command_error_reply(CommandError::EmptyCommand)), "ERR EmptyCommand");
    assert_eq!(error_text(command_error_reply(CommandError::WrongArgCount)), "ERR WrongArgCount");
    assert_eq!(error_text(command_error_reply(CommandError::InvalidArgument)), "ERR InvalidArgument");
    assert_eq!(
        error_text(command_error_reply(CommandError::UnknownCommand("FO\"O".to_string()))),
        "ERR UnknownCommand(\"FO\\\"O\")"
    );
}

#[test]
fn connection_steps() {
    let mut p = RespParser::new();
    assert!(matches!(next_step(&mut p), ConnectionStep::NeedMore));
    p.feed(b"*1\r\n$4\r\nPING\r\n*1\r\n$3\r\nFOO\r\n*1\r\n");
    assert!(matches!(next_step(&mut p), ConnectionStep::Execute(Command::Ping { message: None })));
    match next_step(&mut p) {
        ConnectionStep::Reply(r) => assert_eq!(error_text(r), "ERR UnknownCommand(\"FOO\")"),
        _ => panic!("expected a reply"),
    }
    assert!(matches!(next_step(&mut p), ConnectionStep::NeedMore));
    let mut q = RespParser::new();
    q.feed(b"!\r\n");
    assert!(matches!(next_step(&mut q), ConnectionStep::Fail(ParseError::InvalidType(b'!'))));
}

#[test]
fn command_routes() {
    match route_command(Command::Ping { message: None }) {
        CommandRoute::Shard(s, Command::Ping { .. }) => assert_eq!(s, ShardId(0)),
        _ => panic!("PING goes to shard 0"),
    }
    match route_command(Command::Info { section: None }) {
        CommandRoute::Shard(s, Command::Info { .. }) => assert_eq!(s, ShardId(0)),
        _ => panic!("INFO goes to shard 0"),
    }
    match route_command(Command::Get { key: b"user:1".to_vec() }) {
        CommandRoute::Shard(s, Command::Get { .. }) => assert_eq!(s, Router::route_key(b"user:1")),
        _ => panic!("GET goes to its key's shard"),
    }
    match route_command(Command::Del { keys: vec![b"a".to_vec(), b"b".to_vec()] }) {
        CommandRoute::SplitDel(keys) => assert_eq!(keys, vec![b"a".to_vec(), b"b".to_vec()]),
        _ => panic!("DEL is split"),
    }
}

#[test]
fn shard_replies() {
    assert_eq!(error_text(shard_reply(ShardCall::NoShard)), "ERR invalid shard id");
    assert_eq!(error_text(shard_reply(ShardCall::SendFailed)), "ERR shard overloaded");
    assert_eq!(error_text(shard_reply(ShardCall::Closed)), "ERR shard closed connection");
    assert_eq!(error_text(shard_reply(ShardCall::TimedOut)), "ERR shard timeout");
    assert!(matches!(shard_reply(ShardCall::Replied(Response::Integer(1))), Response::Integer(1)));
    assert_eq!(error_text(del_part_reply(ShardCall::SendFailed)), "ERR shard overloaded");
    assert_eq!(error_text(del_part_reply(ShardCall::Closed)), "ERR timeout");
    assert_eq!(error_text(del_part_reply(ShardCall::TimedOut)), "ERR timeout");
}

#[test]
fn combined_del_responses() {
    assert!(matches!(
        combine_del_responses(vec![Response::Integer(2), Response::Okay, Response::Integer(1)]),
        Response::Integer(3)
    ));
    assert_eq!(
        error_text(combine_del_responses(vec![
            Response::Integer(2),
            Response::Error("ERR timeout".to_string()),
            Response::Error("ERR shard overloaded".to_string()),
        ])),
        "ERR partial failure: ERR timeout, ERR shard overloaded"
    );
    assert!(matches!(combine_del_responses(vec![]), Response::Integer(0)));
}
