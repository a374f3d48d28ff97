use vstd::prelude::*;

use crate::common::text::{is_text, lossy_string, lossy_text, parse_i64, text, to_uppercase, uppercase};
use crate::common::types::{copy_bytes, Key, Value};
use crate::protocol::parser::parse_i64_at;
use crate::protocol::resp::{RespModel, RespValue, lemma_array_model, models};

verus! {

/// A client command.
pub enum Command {
    Ping { message: Option<Vec<u8>> },
    SetKey { key: Key, value: Value, ttl: Option<u64> },
    Get { key: Key },
    Del { keys: Vec<Key> },
    Expire { key: Key, seconds: u64 },
    Ttl { key: Key },
    Info { section: Option<String> },
}

/// The mathematical content of a `Command`.
pub enum CommandModel {
    Ping(Option<Seq<u8>>),
    SetKey(Seq<u8>, Seq<u8>, Option<u64>),
    Get(Seq<u8>),
    Del(Seq<Seq<u8>>),
    Expire(Seq<u8>, u64),
    Ttl(Seq<u8>),
    Info(Option<Seq<char>>),
}

/// Why a RESP2 value is no command.
#[derive(Debug)]
pub enum CommandError {
    InvalidFormat,
    EmptyCommand,
    UnknownCommand(String),
    WrongArgCount,
    InvalidArgument,
}

/// The mathematical content of a `CommandError`.
pub enum CommandErrorModel {
    InvalidFormat,
    EmptyCommand,
    UnknownCommand(Seq<char>),
    WrongArgCount,
    InvalidArgument,
}

/// The byte strings of a sequence of keys.
pub open spec fn key_views(keys: Seq<Key>) -> Seq<Seq<u8>> {
    Seq::new(keys.len(), |i: int| keys[i]@)
}

impl Command {
    pub open spec fn model(self) -> CommandModel {
        match self {
            Command::Ping { message: None } => CommandModel::Ping(None),
            Command::Ping { message: Some(m) } => CommandModel::Ping(Some(m@)),
            Command::SetKey { key, value, ttl } => CommandModel::SetKey(key@, value.bytes(), ttl),
            Command::Get { key } => CommandModel::Get(key@),
            Command::Del { keys } => CommandModel::Del(key_views(keys@)),
            Command::Expire { key, seconds } => CommandModel::Expire(key@, seconds),
            Command::Ttl { key } => CommandModel::Ttl(key@),
            Command::Info { section: None } => CommandModel::Info(None),
            Command::Info { section: Some(s) } => CommandModel::Info(Some(s@)),
        }
    }
}

impl CommandError {
    pub open spec fn model(self) -> CommandErrorModel {
        match self {
            CommandError::InvalidFormat => CommandErrorModel::InvalidFormat,
            CommandError::EmptyCommand => CommandErrorModel::EmptyCommand,
            CommandError::UnknownCommand(s) => CommandErrorModel::UnknownCommand(s@),
            CommandError::WrongArgCount => CommandErrorModel::WrongArgCount,
            CommandError::InvalidArgument => CommandErrorModel::InvalidArgument,
        }
    }
}

/// Whether an outcome matches its specification.
pub open spec fn outcome_matches<T, M>(
    r: Result<T, CommandError>,
    spec: Result<M, CommandErrorModel>,
    view: spec_fn(T) -> M,
) -> bool {
    match (r, spec) {
        (Ok(v), Ok(m)) => view(v) == m,
        (Err(e), Err(em)) => e.model() == em,
        _ => false,
    }
}

/// The bytes of an argument that must be a bulk string.
pub open spec fn spec_bulk(m: RespModel) -> Result<Seq<u8>, CommandErrorModel> {
    match m {
        RespModel::BulkString(Some(b)) => Ok(b),
        RespModel::BulkString(None) => Err(CommandErrorModel::InvalidArgument),
        _ => Err(CommandErrorModel::InvalidFormat),
    }
}

/// The number of an argument that must be an integer, or a bulk string that
/// `str::parse::<i64>` reads (its bytes taken as UTF-8 with invalid sequences
/// replaced, which never makes a number of a string that is not one).
pub open spec fn spec_integer(m: RespModel) -> Result<i64, CommandErrorModel> {
    match m {
        RespModel::Integer(n) => Ok(n),
        RespModel::BulkString(Some(b)) => match parse_i64(b) {
            Some(n) => Ok(n),
            None => Err(CommandErrorModel::InvalidArgument),
        },
        RespModel::BulkString(None) => Err(CommandErrorModel::InvalidArgument),
        _ => Err(CommandErrorModel::InvalidFormat),
    }
}

/// A command or option name as compared: its text, upper-cased.
pub open spec fn spec_name(b: Seq<u8>) -> Seq<char> {
    uppercase(lossy_text(b))
}

pub open spec fn spec_ping(args: Seq<RespModel>) -> Result<CommandModel, CommandErrorModel> {
    if args.len() == 0 {
        Ok(CommandModel::Ping(None))
    } else if args.len() == 1 {
        match spec_bulk(args[0]) {
            Ok(m) => Ok(CommandModel::Ping(Some(m))),
            Err(e) => Err(e),
        }
    } else {
        Err(CommandErrorModel::WrongArgCount)
    }
}

/// The options of SET from argument `i` on, the last `EX` winning.
pub open spec fn spec_set_options(args: Seq<RespModel>, i: int, ttl: Option<u64>) -> Result<
    Option<u64>,
    CommandErrorModel,
>
    decreases args.len() - i,
{
    if i < 0 || i >= args.len() {
        Ok(ttl)
    } else {
        match spec_bulk(args[i]) {
            Err(e) => Err(e),
            Ok(option) => match spec_set_option(spec_name(option), args, i) {
                Err(e) => Err(e),
                Ok(seconds) => spec_set_options(args, i + 2, Some(seconds)),
            },
        }
    }
}

/// What one option of SET, at argument `i`, says, given its upper-cased name:
/// `EX` and the seconds after it (an integer, not negative); any other name
/// is refused.
pub open spec fn spec_set_option(name: Seq<char>, args: Seq<RespModel>, i: int) -> Result<u64, CommandErrorModel> {
    if name == "EX"@ {
        if i + 1 >= args.len() {
            Err(CommandErrorModel::WrongArgCount)
        } else {
            match spec_integer(args[i + 1]) {
                Err(e) => Err(e),
                Ok(seconds) => {
                    if seconds < 0 {
                        Err(CommandErrorModel::InvalidArgument)
                    } else {
                        Ok(seconds as u64)
                    }
                },
            }
        }
    } else {
        Err(CommandErrorModel::InvalidArgument)
    }
}

pub open spec fn spec_set(args: Seq<RespModel>) -> Result<CommandModel, CommandErrorModel> {
    if args.len() < 2 {
        Err(CommandErrorModel::WrongArgCount)
    } else {
        match spec_bulk(args[0]) {
            Err(e) => Err(e),
            Ok(key) => match spec_bulk(args[1]) {
                Err(e) => Err(e),
                Ok(value) => match spec_set_options(args, 2, None) {
                    Err(e) => Err(e),
                    Ok(ttl) => Ok(CommandModel::SetKey(key, value, ttl)),
                },
            },
        }
    }
}

/// The keys of DEL, up to the first argument that is none.
pub open spec fn spec_keys(args: Seq<RespModel>) -> Result<Seq<Seq<u8>>, CommandErrorModel>
    decreases args.len(),
{
    if args.len() == 0 {
        Ok(Seq::empty())
    } else {
        match spec_bulk(args[0]) {
            Err(e) => Err(e),
            Ok(k) => match spec_keys(args.drop_first()) {
                Err(e) => Err(e),
                Ok(keys) => Ok(seq![k] + keys),
            },
        }
    }
}

pub open spec fn spec_del(args: Seq<RespModel>) -> Result<CommandModel, CommandErrorModel> {
    if args.len() == 0 {
        Err(CommandErrorModel::WrongArgCount)
    } else {
        match spec_keys(args) {
            Err(e) => Err(e),
            Ok(keys) => Ok(CommandModel::Del(keys)),
        }
    }
}

pub open spec fn spec_single_key(args: Seq<RespModel>) -> Result<Seq<u8>, CommandErrorModel> {
    if args.len() != 1 {
        Err(CommandErrorModel::WrongArgCount)
    } else {
        spec_bulk(args[0])
    }
}

pub open spec fn spec_expire(args: Seq<RespModel>) -> Result<CommandModel, CommandErrorModel> {
    if args.len() != 2 {
        Err(CommandErrorModel::WrongArgCount)
    } else {
        match spec_bulk(args[0]) {
            Err(e) => Err(e),
            Ok(key) => match spec_integer(args[1]) {
                Err(e) => Err(e),
                Ok(seconds) => {
                    if seconds < 0 {
                        Err(CommandErrorModel::InvalidArgument)
                    } else {
                        Ok(CommandModel::Expire(key, seconds as u64))
                    }
                },
            },
        }
    }
}

pub open spec fn spec_info(args: Seq<RespModel>) -> Result<CommandModel, CommandErrorModel> {
    if args.len() == 0 {
        Ok(CommandModel::Info(None))
    } else {
        match spec_bulk(args[0]) {
            Err(e) => Err(e),
            Ok(s) => Ok(CommandModel::Info(Some(lossy_text(s)))),
        }
    }
}

/// The command a name and its arguments make.
pub open spec fn spec_dispatch(name: Seq<char>, args: Seq<RespModel>) -> Result<CommandModel, CommandErrorModel> {
    if name == "PING"@ {
        spec_ping(args)
    } else if name == "SET"@ {
        spec_set(args)
    } else if name == "GET"@ {
        match spec_single_key(args) {
            Err(e) => Err(e),
            Ok(key) => Ok(CommandModel::Get(key)),
        }
    } else if name == "DEL"@ {
        spec_del(args)
    } else if name == "EXPIRE"@ {
        spec_expire(args)
    } else if name == "TTL"@ {
        match spec_single_key(args) {
            Err(e) => Err(e),
            Ok(key) => Ok(CommandModel::Ttl(key)),
        }
    } else if name == "INFO"@ {
        spec_info(args)
    } else {
        Err(CommandErrorModel::UnknownCommand(name))
    }
}

/// The command a RESP2 value makes: an array whose first element, a bulk
/// string, names it (case-insensitively) and whose other elements are its
/// arguments.
pub open spec fn spec_command(v: RespModel) -> Result<CommandModel, CommandErrorModel> {
    match v {
        RespModel::Array(Some(arr)) => {
            if arr.len() == 0 {
                Err(CommandErrorModel::EmptyCommand)
            } else {
                match arr[0] {
                    RespModel::BulkString(Some(b)) => spec_dispatch(spec_name(b), arr.skip(1)),
                    _ => Err(CommandErrorModel::InvalidFormat),
                }
            }
        },
        RespModel::Array(None) => Err(CommandErrorModel::EmptyCommand),
        _ => Err(CommandErrorModel::InvalidFormat),
    }
}


/// The bytes of an argument that must be a bulk string.
fn extract_bulk_string(value: &RespValue) -> (r: Result<Vec<u8>, CommandError>)
    ensures
        outcome_matches(r, spec_bulk(value.model()), |b: Vec<u8>| b@),
{
    match value {
        RespValue::BulkString(Some(bytes)) => Ok(copy_bytes(bytes.as_slice())),
        RespValue::BulkString(None) => Err(CommandError::InvalidArgument),
        _ => Err(CommandError::InvalidFormat),
    }
}

/// The number of an argument that must be an integer or a decimal bulk string.
fn extract_integer(value: &RespValue) -> (r: Result<i64, CommandError>)
    ensures
        outcome_matches(r, spec_integer(value.model()), |n: i64| n),
{
    match value {
        RespValue::Integer(n) => Ok(*n),
        RespValue::BulkString(Some(bytes)) => {
            proof {
                assert(bytes@.subrange(0, bytes@.len() as int) =~= bytes@);
            }
            match parse_i64_at(bytes.as_slice(), 0, bytes.len()) {
                Some(n) => Ok(n),
                None => Err(CommandError::InvalidArgument),
            }
        },
        RespValue::BulkString(None) => Err(CommandError::InvalidArgument),
        _ => Err(CommandError::InvalidFormat),
    }
}

/// A command or option name as compared: its text, upper-cased.
fn name_of(bytes: &[u8]) -> (r: String)
    ensures
        r@ == spec_name(bytes@),
{
    let lossy = lossy_string(bytes);
    to_uppercase(lossy.as_str())
}

impl Command {
    fn parse_ping(args: &[RespValue]) -> (r: Result<Self, CommandError>)
        ensures
            outcome_matches(r, spec_ping(models(args@)), |c: Command| c.model()),
    {
        if args.len() == 0 {
            Ok(Command::Ping { message: None })
        } else if args.len() == 1 {
            let msg = match extract_bulk_string(&args[0]) {
                Ok(m) => m,
                Err(e) => return Err(e),
            };
            Ok(Command::Ping { message: Some(msg) })
        } else {
            Err(CommandError::WrongArgCount)
        }
    }

    /// One option of SET, at argument `i`, given its upper-cased name: the
    /// seconds of `EX`, or why the option is refused.
    pub fn parse_set_option(name: &String, args: &[RespValue], i: usize) -> (r: Result<u64, CommandError>)
        requires
            i < args@.len(),
        ensures
            match (r, spec_set_option(name@, models(args@), i as int)) {
                (Ok(n), Ok(m)) => n == m,
                (Err(e), Err(em)) => e.model() == em,
                _ => false,
            },
    {
        if is_text(name, "EX") {
            if i >= args.len() - 1 {
                return Err(CommandError::WrongArgCount);
            }
            let seconds = match extract_integer(&args[i + 1]) {
                Ok(n) => n,
                Err(e) => return Err(e),
            };
            if seconds < 0 {
                return Err(CommandError::InvalidArgument);
            }
            Ok(seconds as u64)
        } else {
            Err(CommandError::InvalidArgument)
        }
    }

    fn parse_set(args: &[RespValue]) -> (r: Result<Self, CommandError>)
        ensures
            outcome_matches(r, spec_set(models(args@)), |c: Command| c.model()),
    {
        let ghost ms = models(args@);
        if args.len() < 2 {
            return Err(CommandError::WrongArgCount);
        }
        let key = match extract_bulk_string(&args[0]) {
            Ok(k) => k,
            Err(e) => return Err(e),
        };
        let value = match extract_bulk_string(&args[1]) {
            Ok(v) => v,
            Err(e) => return Err(e),
        };
        let mut ttl: Option<u64> = None;
        let mut i: usize = 2;
        while i < args.len()
            invariant
                2 <= i,
                ms == models(args@),
                spec_set_options(ms, 2, None) == spec_set_options(ms, i as int, ttl),
                spec_set(ms) == (match spec_set_options(ms, 2, None) {
                    Err(e) => Err(e),
                    Ok(t) => Ok(CommandModel::SetKey(key@, value@, t)),
                }),
            decreases args.len() - i,
        {
            let option = match extract_bulk_string(&args[i]) {
                Ok(o) => o,
                Err(e) => return Err(e),
            };
            let option_name = name_of(option.as_slice());
            match Self::parse_set_option(&option_name, args, i) {
                Ok(seconds) => {
                    ttl = Some(seconds);
                    i = i + 2;
                },
                Err(e) => return Err(e),
            }
        }
        Ok(Command::SetKey { key, value: Value::String(value), ttl })
    }

    fn parse_get(args: &[RespValue]) -> (r: Result<Self, CommandError>)
        ensures
            outcome_matches(
                r,
                match spec_single_key(models(args@)) {
                    Err(e) => Err(e),
                    Ok(key) => Ok(CommandModel::Get(key)),
                },
                |c: Command| c.model(),
            ),
    {
        if args.len() != 1 {
            return Err(CommandError::WrongArgCount);
        }
        match extract_bulk_string(&args[0]) {
            Ok(key) => Ok(Command::Get { key }),
            Err(e) => Err(e),
        }
    }

    fn parse_del(args: &[RespValue]) -> (r: Result<Self, CommandError>)
        ensures
            outcome_matches(r, spec_del(models(args@)), |c: Command| c.model()),
    {
        let ghost ms = models(args@);
        if args.len() == 0 {
            return Err(CommandError::WrongArgCount);
        }
        let mut keys: Vec<Key> = Vec::new();
        let mut i: usize = 0;
        proof {
            assert(ms.skip(0) =~= ms);
            match spec_keys(ms) {
                Ok(rest) => {
                    assert(key_views(keys@) + rest =~= rest);
                },
                Err(_) => {},
            }
        }
        while i < args.len()
            invariant
                i <= args.len(),
                ms == models(args@),
                spec_keys(ms) == (match spec_keys(ms.skip(i as int)) {
                    Err(e) => Err(e),
                    Ok(rest) => Ok(key_views(keys@) + rest),
                }),
            decreases args.len() - i,
        {
            proof {
                assert(ms.skip(i as int).drop_first() =~= ms.skip(i + 1));
            }
            let key = match extract_bulk_string(&args[i]) {
                Ok(k) => k,
                Err(e) => return Err(e),
            };
            proof {
                assert(key_views(keys@.push(key)) =~= key_views(keys@) + seq![key@]);
                match spec_keys(ms.skip(i + 1)) {
                    Ok(rest) => {
                        assert(key_views(keys@) + (seq![key@] + rest) =~= key_views(keys@.push(key)) + rest);
                    },
                    Err(_) => {},
                }
            }
            keys.push(key);
            i = i + 1;
        }
        proof {
            assert(ms.skip(i as int) =~= Seq::<RespModel>::empty());
            assert(key_views(keys@) + Seq::<Seq<u8>>::empty() =~= key_views(keys@));
        }
        Ok(Command::Del { keys })
    }

    fn parse_expire(args: &[RespValue]) -> (r: Result<Self, CommandError>)
        ensures
            outcome_matches(r, spec_expire(models(args@)), |c: Command| c.model()),
    {
        if args.len() != 2 {
            return Err(CommandError::WrongArgCount);
        }
        let key = match extract_bulk_string(&args[0]) {
            Ok(k) => k,
            Err(e) => return Err(e),
        };
        let seconds = match extract_integer(&args[1]) {
            Ok(n) => n,
            Err(e) => return Err(e),
        };
        if seconds < 0 {
            return Err(CommandError::InvalidArgument);
        }
        Ok(Command::Expire { key, seconds: seconds as u64 })
    }

    fn parse_ttl(args: &[RespValue]) -> (r: Result<Self, CommandError>)
        ensures
            outcome_matches(
                r,
                match spec_single_key(models(args@)) {
                    Err(e) => Err(e),
                    Ok(key) => Ok(CommandModel::Ttl(key)),
                },
                |c: Command| c.model(),
            ),
    {
        if args.len() != 1 {
            return Err(CommandError::WrongArgCount);
        }
        match extract_bulk_string(&args[0]) {
            Ok(key) => Ok(Command::Ttl { key }),
            Err(e) => Err(e),
        }
    }

    fn parse_info(args: &[RespValue]) -> (r: Result<Self, CommandError>)
        ensures
            outcome_matches(r, spec_info(models(args@)), |c: Command| c.model()),
    {
        if args.len() == 0 {
            Ok(Command::Info { section: None })
        } else {
            let s = match extract_bulk_string(&args[0]) {
                Ok(s) => s,
                Err(e) => return Err(e),
            };
            Ok(Command::Info { section: Some(lossy_string(s.as_slice())) })
        }
    }

    /// The command that an upper-cased name and its arguments make.
    pub fn from_parts(name: &String, args: &[RespValue]) -> (r: Result<Self, CommandError>)
        ensures
            outcome_matches(r, spec_dispatch(name@, models(args@)), |c: Command| c.model()),
    {
        if is_text(name, "PING") {
            Self::parse_ping(args)
        } else if is_text(name, "SET") {
            Self::parse_set(args)
        } else if is_text(name, "GET") {
            Self::parse_get(args)
        } else if is_text(name, "DEL") {
            Self::parse_del(args)
        } else if is_text(name, "EXPIRE") {
            Self::parse_expire(args)
        } else if is_text(name, "TTL") {
            Self::parse_ttl(args)
        } else if is_text(name, "INFO") {
            Self::parse_info(args)
        } else {
            Err(CommandError::UnknownCommand(name.clone()))
        }
    }

    /// The command that a RESP2 value makes.
    pub fn from_resp(value: RespValue) -> (r: Result<Self, CommandError>)
        ensures
            outcome_matches(r, spec_command(value.model()), |c: Command| c.model()),
    {
        let array = match value {
            RespValue::Array(Some(arr)) => arr,
            RespValue::Array(None) => return Err(CommandError::EmptyCommand),
            _ => return Err(CommandError::InvalidFormat),
        };
        proof {
            lemma_array_model(array);
        }
        if array.len() == 0 {
            return Err(CommandError::EmptyCommand);
        }
        let name = match &array[0] {
            RespValue::BulkString(Some(bytes)) => name_of(bytes.as_slice()),
            _ => return Err(CommandError::InvalidFormat),
        };
        let args = vstd::slice::slice_subrange(array.as_slice(), 1, array.len());
        proof {
            assert(models(args@) =~= models(array@).skip(1));
        }
        Self::from_parts(&name, args)
    }
}

} // verus!
