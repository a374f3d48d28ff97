use rsdragonfly::common::types::Value;
use rsdragonfly::protocol::command::{Command, CommandError};
use rsdragonfly::protocol::parser::{ParseError, RespParser};
use rsdragonfly::protocol::resp::RespValue;
use rsdragonfly::protocol::response::Response;
use rsdragonfly::protocol::serializer::serialize_resp2;

fn bulk(b: &[u8]) -> RespValue {
    RespValue::BulkString(Some(b.to_vec()))
}

fn array(items: Vec<RespValue>) -> RespValue {
    RespValue::Array(Some(items))
}

#[test]
fn serializes_each_kind() {
    assert_eq!(serialize_resp2(&RespValue::ok()), b"+OK\r\n".to_vec());
    assert_eq!(serialize_resp2(&RespValue::pong()), b"+PONG\r\n".to_vec());
    assert_eq!(serialize_resp2(&RespValue::error("ERR bad".to_string())), b"-ERR bad\r\n".to_vec());
    assert_eq!(serialize_resp2(&RespValue::Integer(-42)), b":-42\r\n".to_vec());
    assert_eq!(serialize_resp2(&RespValue::Integer(i64::MIN)), b":-9223372036854775808\r\n".to_vec());
    assert_eq!(serialize_resp2(&bulk(b"foo")), b"$3\r\nfoo\r\n".to_vec());
    assert_eq!(serialize_resp2(&bulk(b"")), b"$0\r\n\r\n".to_vec());
    assert_eq!(serialize_resp2(&RespValue::null()), b"$-1\r\n".to_vec());
    assert_eq!(serialize_resp2(&RespValue::Array(None)), b"*-1\r\n".to_vec());
    assert_eq!(
        serialize_resp2(&array(vec![bulk(b"GET"), RespValue::Integer(7)])),
        b"*2\r\n$3\r\nGET\r\n:7\r\n".to_vec()
    );
}

#[test]
fn parses_a_command_array() {
    let mut p = RespParser::new();
    p.feed(b"*2\r\n$3\r\nGET\r\n$3\r\nfoo\r\n");
    let v = p.parse().unwrap().unwrap();
    assert_eq!(v, array(vec![bulk(b"GET"), bulk(b"foo")]));
    assert!(matches!(p.parse(), Ok(None)));
}

#[test]
fn parse_of_serialized_value_gives_it_back() {
    let value = array(vec![
        RespValue::SimpleString("hi".to_string()),
        RespValue::Error("ERR x".to_string()),
        RespValue::Integer(-3),
        bulk(b"a\r\nb"),
        RespValue::null(),
        RespValue::Array(None),
        array(vec![]),
    ]);
    let bytes = serialize_resp2(&value);
    let mut p = RespParser::new();
    p.feed(&bytes);
    assert_eq!(p.parse().unwrap().unwrap(), value);
    assert!(matches!(p.parse(), Ok(None)));
}

#[test]
fn partial_input_waits_or_fails_as_lines_dictate() {
    // Bulk data cut short: wait for more.
    let mut p = RespParser::new();
    p.feed(b"*2\r\n$3\r\nGE");
    assert!(matches!(p.parse(), Ok(None)));
    p.feed(b"T\r\n$1\r\nk\r\n");
    assert_eq!(p.parse().unwrap().unwrap(), array(vec![bulk(b"GET"), bulk(b"k")]));

    // A line without its line feed is refused outright.
    let mut q = RespParser::new();
    q.feed(b"+OK");
    assert!(matches!(q.parse(), Err(ParseError::InvalidFormat)));

    // Only a type byte: wait.
    let mut r = RespParser::new();
    r.feed(b"+");
    assert!(matches!(r.parse(), Ok(None)));
}

#[test]
fn parse_errors() {
    let cases: Vec<(&[u8], ParseError)> = vec![
        (b"?x\r\n", ParseError::InvalidType(b'?')),
        (b":12a\r\n", ParseError::InvalidInteger),
        (b"$-2\r\n", ParseError::InvalidLength),
        (b"*-5\r\n", ParseError::InvalidLength),
        (b"$3\r\nabcXY", ParseError::InvalidFormat),
        (b"+OK\n", ParseError::InvalidFormat),
    ];
    for (input, expected) in cases {
        let mut p = RespParser::new();
        p.feed(input);
        assert_eq!(p.parse().unwrap_err(), expected);
    }
}

#[test]
fn compact_keeps_unread_bytes() {
    let mut p = RespParser::new();
    p.feed(b":1\r\n:2");
    assert_eq!(p.parse().unwrap().unwrap(), RespValue::Integer(1));
    p.compact();
    p.feed(b"\r\n");
    assert_eq!(p.parse().unwrap().unwrap(), RespValue::Integer(2));
}

#[test]
fn commands_from_resp() {
    let get = Command::from_resp(array(vec![bulk(b"get"), bulk(b"k")])).unwrap();
    assert!(matches!(get, Command::Get { ref key } if key == b"k"));

    let set = Command::from_resp(array(vec![bulk(b"SET"), bulk(b"k"), bulk(b"v"), bulk(b"ex"), bulk(b"10")])).unwrap();
    match set {
        Command::SetKey { key, value, ttl } => {
            assert_eq!(key, b"k".to_vec());
            assert_eq!(value, Value::String(b"v".to_vec()));
            assert_eq!(ttl, Some(10));
        }
        _ => panic!("not a SET"),
    }

    let set_int = Command::from_resp(array(vec![bulk(b"SET"), bulk(b"k"), bulk(b"v"), bulk(b"EX"), RespValue::Integer(3)])).unwrap();
    assert!(matches!(set_int, Command::SetKey { ttl: Some(3), .. }));

    let del = Command::from_resp(array(vec![bulk(b"DEL"), bulk(b"a"), bulk(b"b")])).unwrap();
    assert!(matches!(del, Command::Del { ref keys } if keys.len() == 2));

    let ping = Command::from_resp(array(vec![bulk(b"PING")])).unwrap();
    assert!(matches!(ping, Command::Ping { message: None }));

    let expire = Command::from_resp(array(vec![bulk(b"EXPIRE"), bulk(b"k"), bulk(b"+5")])).unwrap();
    assert!(matches!(expire, Command::Expire { seconds: 5, .. }));

    let ttl = Command::from_resp(array(vec![bulk(b"TTL"), bulk(b"k")])).unwrap();
    assert!(matches!(ttl, Command::Ttl { .. }));

    let info = Command::from_resp(array(vec![bulk(b"INFO"), bulk(b"stats")])).unwrap();
    assert!(matches!(info, Command::Info { section: Some(ref s) } if s == "stats"));
}

#[test]
fn command_errors() {
    assert!(matches!(Command::from_resp(RespValue::Array(None)), Err(CommandError::EmptyCommand)));
    assert!(matches!(Command::from_resp(array(vec![])), Err(CommandError::EmptyCommand)));
    assert!(matches!(Command::from_resp(RespValue::Integer(1)), Err(CommandError::InvalidFormat)));
    assert!(matches!(Command::from_resp(array(vec![RespValue::Integer(1)])), Err(CommandError::InvalidFormat)));
    match Command::from_resp(array(vec![bulk(b"flushall")])) {
        Err(CommandError::UnknownCommand(name)) => assert_eq!(name, "FLUSHALL"),
        _ => panic!("expected an unknown command"),
    }
    assert!(matches!(Command::from_resp(array(vec![bulk(b"GET")])), Err(CommandError::WrongArgCount)));
    assert!(matches!(Command::from_resp(array(vec![bulk(b"SET"), bulk(b"k")])), Err(CommandError::WrongArgCount)));
    assert!(matches!(
        Command::from_resp(array(vec![bulk(b"SET"), bulk(b"k"), bulk(b"v"), bulk(b"EX")])),
        Err(CommandError::WrongArgCount)
    ));
    assert!(matches!(
        Command::from_resp(array(vec![bulk(b"SET"), bulk(b"k"), bulk(b"v"), bulk(b"PX"), bulk(b"1")])),
        Err(CommandError::InvalidArgument)
    ));
    assert!(matches!(
        Command::from_resp(array(vec![bulk(b"EXPIRE"), bulk(b"k"), bulk(b"-1")])),
        Err(CommandError::InvalidArgument)
    ));
    assert!(matches!(
        Command::from_resp(array(vec![bulk(b"GET"), RespValue::null()])),
        Err(CommandError::InvalidArgument)
    ));
    assert!(matches!(Command::from_resp(array(vec![bulk(b"DEL")])), Err(CommandError::WrongArgCount)));
    assert!(matches!(
        Command::from_resp(array(vec![bulk(b"PING"), bulk(b"a"), bulk(b"b")])),
        Err(CommandError::WrongArgCount)
    ));
}

#[test]
fn response_helpers() {
    assert!(matches!(Response::ok(), Response::Okay));
    assert!(matches!(Response::error("ERR x".to_string()), Response::Error(ref m) if m == "ERR x"));
}

#[test]
fn complete_value_parses_whatever_follows() {
    for tail in [&b""[..], b"+PAR", b"$5\r\nab", b"\r\n"] {
        let mut p = RespParser::new();
        p.feed(b"*1\r\n$4\r\nPING\r\n");
        p.feed(tail);
        assert_eq!(p.parse().unwrap().unwrap(), array(vec![bulk(b"PING")]));
    }
}

fn drain(p: &mut RespParser) -> Vec<Result<Option<RespValue>, ParseError>> {
    let mut out = Vec::new();
    loop {
        let r = p.parse();
        let stop = !matches!(r, Ok(Some(_)));
        out.push(r);
        if stop {
            return out;
        }
    }
}

#[test]
fn concatenated_values_parse_one_by_one() {
    let values = vec![
        RespValue::ok(),
        RespValue::Integer(12),
        bulk(b"x\r\ny"),
        array(vec![bulk(b"SET"), bulk(b"k"), bulk(b"v")]),
        RespValue::null(),
    ];
    let mut bytes = Vec::new();
    for v in &values {
        bytes.extend_from_slice(&serialize_resp2(v));
    }
    let mut p = RespParser::new();
    p.feed(&bytes);
    let got = drain(&mut p);
    assert_eq!(got.len(), values.len() + 1);
    for (g, v) in got.iter().zip(values.iter()) {
        assert_eq!(g.as_ref().unwrap().as_ref().unwrap(), v);
    }
    assert!(matches!(got[values.len()], Ok(None)));
}

#[test]
fn feeding_in_pieces_or_at_once_agrees() {
    let bytes = b"*2\r\n$3\r\nGET\r\n$1\r\nk\r\n:7\r\n$2\r\nab\r\n";
    let mut whole = RespParser::new();
    whole.feed(bytes);
    let expected = drain(&mut whole);
    for cut in [4usize, 9, 14, 22] {
        let mut p = RespParser::new();
        p.feed(&bytes[..cut]);
        p.feed(&bytes[cut..]);
        assert_eq!(drain(&mut p), expected);
    }
}

#[test]
fn compact_is_not_seen_by_parse() {
    let mut a = RespParser::new();
    let mut b = RespParser::new();
    for p in [&mut a, &mut b] {
        p.feed(b":1\r\n:2\r\n$3\r\nab");
        assert_eq!(p.parse().unwrap().unwrap(), RespValue::Integer(1));
    }
    a.compact();
    a.compact();
    for p in [&mut a, &mut b] {
        p.feed(b"c\r\n");
    }
    assert_eq!(drain(&mut a), drain(&mut b));
}

#[test]
fn set_options() {
    let args = vec![bulk(b"k"), bulk(b"v"), bulk(b"ex"), bulk(b"9")];
    assert_eq!(Command::parse_set_option(&"EX".to_string(), &args, 2).unwrap(), 9);
    assert!(matches!(Command::parse_set_option(&"ex".to_string(), &args, 2), Err(CommandError::InvalidArgument)));
    assert!(matches!(Command::parse_set_option(&"PX".to_string(), &args, 2), Err(CommandError::InvalidArgument)));
    assert!(matches!(Command::parse_set_option(&"EX".to_string(), &args, 3), Err(CommandError::WrongArgCount)));
    let negative = vec![bulk(b"EX"), RespValue::Integer(-1)];
    assert!(matches!(Command::parse_set_option(&"EX".to_string(), &negative, 0), Err(CommandError::InvalidArgument)));
    let not_number = vec![bulk(b"EX"), bulk(b"soon")];
    assert!(matches!(Command::parse_set_option(&"EX".to_string(), &not_number, 0), Err(CommandError::InvalidArgument)));
}
