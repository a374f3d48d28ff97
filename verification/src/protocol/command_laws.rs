use vstd::prelude::*;

use crate::common::text::lossy_text;
use crate::protocol::command::{spec_command, spec_keys, spec_name, spec_set_options, CommandErrorModel, CommandModel};
use crate::protocol::resp::RespModel;

verus! {

/// A bulk string holding `b`.
pub open spec fn bulk(b: Seq<u8>) -> RespModel {
    RespModel::BulkString(Some(b))
}

/// Bulk strings holding the byte strings, in order.
pub open spec fn bulks(items: Seq<Seq<u8>>) -> Seq<RespModel> {
    Seq::new(items.len(), |i: int| bulk(items[i]))
}

/// The request a client sends: an array of bulk strings, the command name
/// first, then its arguments.
pub open spec fn request(name: Seq<u8>, args: Seq<Seq<u8>>) -> RespModel {
    RespModel::Array(Some(seq![bulk(name)] + bulks(args)))
}

/// Bulk-string arguments are all taken as keys, each as it is, in order.
proof fn lemma_keys_of_bulks(keys: Seq<Seq<u8>>)
    ensures
        spec_keys(bulks(keys)) == Ok::<Seq<Seq<u8>>, crate::protocol::command::CommandErrorModel>(keys),
    decreases keys.len(),
{
    if keys.len() > 0 {
        assert(bulks(keys)[0] == bulk(keys[0]));
        assert(bulks(keys).drop_first() =~= bulks(keys.drop_first()));
        lemma_keys_of_bulks(keys.drop_first());
        assert(seq![keys[0]] + keys.drop_first() =~= keys);
    } else {
        assert(bulks(keys) =~= Seq::<RespModel>::empty());
        assert(keys =~= Seq::<Seq<u8>>::empty());
    }
}

/// The command names differ from one another.
proof fn lemma_command_names()
    ensures
        "PING"@ != "SET"@,
        "PING"@ != "GET"@,
        "PING"@ != "DEL"@,
        "PING"@ != "EXPIRE"@,
        "PING"@ != "TTL"@,
        "SET"@ != "GET"@,
        "SET"@ != "DEL"@,
        "SET"@ != "TTL"@,
        "GET"@ != "DEL"@,
        "GET"@ != "TTL"@,
        "DEL"@ != "TTL"@,
        "EXPIRE"@ != "TTL"@,
        "EXPIRE"@ != "DEL"@,
        "EXPIRE"@ != "GET"@,
        "EXPIRE"@ != "SET"@,
        "INFO"@ != "PING"@,
        "INFO"@ != "SET"@,
        "INFO"@ != "GET"@,
        "INFO"@ != "DEL"@,
        "INFO"@ != "EXPIRE"@,
        "INFO"@ != "TTL"@,
{
    reveal_strlit("PING");
    reveal_strlit("SET");
    reveal_strlit("GET");
    reveal_strlit("DEL");
    reveal_strlit("EXPIRE");
    reveal_strlit("TTL");
    reveal_strlit("INFO");
    assert("INFO"@[0] == 'I');
    assert("SET"@[0] == 'S');
    assert("GET"@[0] == 'G');
    assert("DEL"@[0] == 'D');
    assert("TTL"@[0] == 'T');
    assert("PING"@[0] == 'P');
    assert("EXPIRE"@[0] == 'E');
}

/// The arguments of a request are the bulk strings after the name.
proof fn lemma_request_parts(name: Seq<u8>, args: Seq<Seq<u8>>)
    ensures
        (seq![bulk(name)] + bulks(args))[0] == bulk(name),
        (seq![bulk(name)] + bulks(args)).skip(1) == bulks(args),
        (seq![bulk(name)] + bulks(args)).len() == args.len() + 1,
{
    assert((seq![bulk(name)] + bulks(args)).skip(1) =~= bulks(args));
}

/// DEL deletes the keys the client names: a request whose name upper-cases
/// to `DEL`, with one or more keys, decodes to a DEL of exactly those keys, in
/// the order given, repeats kept.
pub proof fn lemma_decode_del(name: Seq<u8>, keys: Seq<Seq<u8>>)
    requires
        spec_name(name) == "DEL"@,
        keys.len() > 0,
    ensures
        spec_command(request(name, keys)) == Ok::<CommandModel, crate::protocol::command::CommandErrorModel>(
            CommandModel::Del(keys),
        ),
{
    lemma_command_names();
    lemma_request_parts(name, keys);
    lemma_keys_of_bulks(keys);
}

/// GET and TTL ask about the key the client names.
pub proof fn lemma_decode_single_key(name: Seq<u8>, key: Seq<u8>)
    ensures
        spec_name(name) == "GET"@ ==> spec_command(request(name, seq![key])) == Ok::<
            CommandModel,
            crate::protocol::command::CommandErrorModel,
        >(CommandModel::Get(key)),
        spec_name(name) == "TTL"@ ==> spec_command(request(name, seq![key])) == Ok::<
            CommandModel,
            crate::protocol::command::CommandErrorModel,
        >(CommandModel::Ttl(key)),
{
    lemma_command_names();
    lemma_request_parts(name, seq![key]);
    assert(bulks(seq![key])[0] == bulk(key));
    let arr = seq![bulk(name)] + bulks(seq![key]);
    assert(arr[0] == bulk(name));
    assert(arr.skip(1)[0] == bulk(key));
}

/// SET without options stores the value the client sends under the key it
/// names, with no expiry.
pub proof fn lemma_decode_set(name: Seq<u8>, key: Seq<u8>, value: Seq<u8>)
    requires
        spec_name(name) == "SET"@,
    ensures
        spec_command(request(name, seq![key, value])) == Ok::<CommandModel, crate::protocol::command::CommandErrorModel>(
            CommandModel::SetKey(key, value, None),
        ),
{
    lemma_command_names();
    lemma_request_parts(name, seq![key, value]);
    assert(bulks(seq![key, value])[0] == bulk(key));
    assert(bulks(seq![key, value])[1] == bulk(value));
}

/// PING without an argument has no message; with one, that message.
pub proof fn lemma_decode_ping(name: Seq<u8>, message: Seq<u8>)
    requires
        spec_name(name) == "PING"@,
    ensures
        spec_command(request(name, Seq::empty())) == Ok::<CommandModel, crate::protocol::command::CommandErrorModel>(
            CommandModel::Ping(None),
        ),
        spec_command(request(name, seq![message])) == Ok::<CommandModel, crate::protocol::command::CommandErrorModel>(
            CommandModel::Ping(Some(message)),
        ),
{
    lemma_command_names();
    lemma_request_parts(name, Seq::empty());
    lemma_request_parts(name, seq![message]);
    assert(bulks(seq![message])[0] == bulk(message));
}

/// EXPIRE sets the key the client names to expire after the seconds it
/// sends; a negative count is refused.
pub proof fn lemma_decode_expire(name: Seq<u8>, key: Seq<u8>, seconds: i64)
    requires
        spec_name(name) == "EXPIRE"@,
    ensures
        spec_command(RespModel::Array(Some(seq![bulk(name), bulk(key), RespModel::Integer(seconds)]))) == if seconds
            >= 0 {
            Ok::<CommandModel, CommandErrorModel>(CommandModel::Expire(key, seconds as u64))
        } else {
            Err::<CommandModel, CommandErrorModel>(CommandErrorModel::InvalidArgument)
        },
{
    lemma_command_names();
    let arr = seq![bulk(name), bulk(key), RespModel::Integer(seconds)];
    assert(arr.skip(1) =~= seq![bulk(key), RespModel::Integer(seconds)]);
}

/// SET with `EX` stores the value the client sends under the key it names,
/// expiring after the seconds it sends.
pub proof fn lemma_decode_set_ex(name: Seq<u8>, key: Seq<u8>, value: Seq<u8>, ex: Seq<u8>, seconds: i64)
    requires
        spec_name(name) == "SET"@,
        spec_name(ex) == "EX"@,
        seconds >= 0,
    ensures
        spec_command(
            RespModel::Array(Some(seq![bulk(name), bulk(key), bulk(value), bulk(ex), RespModel::Integer(seconds)])),
        ) == Ok::<CommandModel, CommandErrorModel>(CommandModel::SetKey(key, value, Some(seconds as u64))),
{
    lemma_command_names();
    let arr = seq![bulk(name), bulk(key), bulk(value), bulk(ex), RespModel::Integer(seconds)];
    let args = arr.skip(1);
    assert(args =~= seq![bulk(key), bulk(value), bulk(ex), RespModel::Integer(seconds)]);
    assert(spec_set_options(args, 4, Some(seconds as u64)) == Ok::<Option<u64>, CommandErrorModel>(Some(seconds as u64)));
}

/// INFO without an argument asks for no section; with one, for the section
/// the client names.
pub proof fn lemma_decode_info(name: Seq<u8>, section: Seq<u8>)
    requires
        spec_name(name) == "INFO"@,
    ensures
        spec_command(request(name, Seq::empty())) == Ok::<CommandModel, CommandErrorModel>(CommandModel::Info(None)),
        spec_command(request(name, seq![section])) == Ok::<CommandModel, CommandErrorModel>(
            CommandModel::Info(Some(lossy_text(section))),
        ),
{
    lemma_command_names();
    lemma_request_parts(name, Seq::empty());
    lemma_request_parts(name, seq![section]);
    assert(bulks(seq![section])[0] == bulk(section));
}

} // verus!
