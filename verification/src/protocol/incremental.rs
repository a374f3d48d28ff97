use vstd::prelude::*;

use crate::protocol::parser::{newline_at, spec_parse_elements, spec_parse_value, spec_read_line, ParseError, RespParser};
use crate::protocol::resp::RespValue;
use crate::protocol::resp::RespModel;
use crate::protocol::roundtrip::{all_encodable, encodable, lemma_parse_serialized};
use crate::protocol::serializer::{serialize_model, serialize_models};

verus! {

/// A line feed found in the bytes is found at the same place whatever bytes
/// follow them.
proof fn lemma_newline_prefix(s: Seq<u8>, more: Seq<u8>, i: int)
    requires
        0 <= i,
        newline_at(s, i) < s.len(),
    ensures
        newline_at(s + more, i) == newline_at(s, i),
    decreases s.len() - i,
{
    if i < s.len() && s[i] != 10u8 {
        lemma_newline_prefix(s, more, i + 1);
    }
}

/// A complete line is read the same whatever bytes follow it.
proof fn lemma_read_line_prefix(s: Seq<u8>, more: Seq<u8>)
    requires
        spec_read_line(s) is Ok,
    ensures
        spec_read_line(s + more) == spec_read_line(s),
        spec_read_line(s)->Ok_0.1 <= s.len(),
{
    lemma_newline_prefix(s, more, 0);
    let p = newline_at(s, 0);
    assert((s + more).take(p - 1) =~= s.take(p - 1));
}

/// A value that the bytes hold is parsed the same whatever bytes arrive after
/// it, and takes no more bytes than there were: an incremental parser may take
/// a value out as soon as it is complete.
pub proof fn lemma_parse_prefix_stable(s: Seq<u8>, more: Seq<u8>)
    requires
        spec_parse_value(s) is Ok,
    ensures
        spec_parse_value(s + more) == spec_parse_value(s),
        0 <= spec_parse_value(s)->Ok_0.1 <= s.len(),
    decreases s.len(), 0int, 0int,
{
    let x = s + more;
    let t = s[0];
    assert(x[0] == t);
    assert(x.skip(1) =~= s.skip(1) + more);
    lemma_read_line_prefix(s.skip(1), more);
    let (line, k) = spec_read_line(s.skip(1))->Ok_0;
    let header = 1 + k;
    assert(x.skip(header) =~= s.skip(header) + more);
    if t == 36u8 {
        let body = s.skip(header);
        let xb = x.skip(header);
        match crate::common::text::parse_i64(line) {
            Some(n) => {
                if n >= 0 && body.len() >= n + 2 {
                    assert(xb[n as int] == body[n as int]);
                    assert(xb[n + 1] == body[n + 1]);
                    assert(xb.take(n as int) =~= body.take(n as int));
                }
            },
            None => {},
        }
    } else if t == 42u8 {
        match crate::common::text::parse_i64(line) {
            Some(n) => {
                if n >= 0 && header <= s.len() {
                    lemma_parse_elements_prefix_stable(s.skip(header), more, n as nat);
                }
            },
            None => {},
        }
    }
}

/// Values that the bytes hold are parsed the same whatever bytes arrive after
/// them, and take no more bytes than there were.
pub proof fn lemma_parse_elements_prefix_stable(s: Seq<u8>, more: Seq<u8>, n: nat)
    requires
        spec_parse_elements(s, n) is Ok,
    ensures
        spec_parse_elements(s + more, n) == spec_parse_elements(s, n),
        0 <= spec_parse_elements(s, n)->Ok_0.1 <= s.len(),
    decreases s.len(), 1int, n,
{
    if n > 0 {
        lemma_parse_prefix_stable(s, more);
        let (m, k) = spec_parse_value(s)->Ok_0;
        assert((s + more).skip(k) =~= s.skip(k) + more);
        lemma_parse_elements_prefix_stable(s.skip(k), more, (n - 1) as nat);
    }
}

/// Feeding one piece after another leaves the same pending bytes as feeding
/// them joined: `parse` answers from the pending bytes alone, and `compact`
/// keeps them, so every later run of `parse` goes the same way either way.
pub proof fn lemma_feed_twice(buffered: Seq<u8>, consumed: int, a: Seq<u8>, b: Seq<u8>)
    requires
        0 <= consumed <= buffered.len(),
    ensures
        (buffered + a + b).skip(consumed) == (buffered + (a + b)).skip(consumed),
        (buffered + a + b).skip(consumed) == buffered.skip(consumed) + (a + b),
{
    assert(buffered + a + b =~= buffered + (a + b));
    assert((buffered + (a + b)).skip(consumed) =~= buffered.skip(consumed) + (a + b));
}

/// The encodings of two runs of values, one after the other, are the
/// encoding of the joined run.
pub proof fn lemma_serialize_models_concat(a: Seq<RespModel>, b: Seq<RespModel>)
    ensures
        serialize_models(a + b) == serialize_models(a) + serialize_models(b),
    decreases a.len(),
{
    if a.len() == 0 {
        assert(a + b =~= b);
        assert(serialize_models(a) =~= Seq::<u8>::empty());
        assert(serialize_models(a) + serialize_models(b) =~= serialize_models(b));
    } else {
        assert((a + b)[0] == a[0]);
        assert((a + b).drop_first() =~= a.drop_first() + b);
        lemma_serialize_models_concat(a.drop_first(), b);
        assert(serialize_models(a + b) =~= serialize_models(a) + serialize_models(b));
    }
}

/// Each value of a run that comes back whole comes back whole.
proof fn lemma_all_encodable_index(vs: Seq<RespModel>, i: int)
    requires
        all_encodable(vs),
        0 <= i < vs.len(),
    ensures
        encodable(vs[i]),
    decreases vs.len(),
{
    if i > 0 {
        lemma_all_encodable_index(vs.drop_first(), i - 1);
    }
}

/// Values sent one after the other are parsed back one by one: from where the
/// encodings of the first `i` values end, the parser takes the `i`-th value
/// and exactly its encoding; once all are taken nothing is left.
pub proof fn lemma_parse_sequence(vs: Seq<RespModel>, i: int)
    requires
        all_encodable(vs),
        0 <= i < vs.len(),
    ensures
        spec_parse_value(serialize_models(vs).skip(serialize_models(vs.take(i)).len() as int)) == Ok::<
            (RespModel, int),
            crate::protocol::parser::ParseError,
        >((vs[i], serialize_model(vs[i]).len() as int)),
        serialize_models(vs.take(i + 1)).len() == serialize_models(vs.take(i)).len() + serialize_model(vs[i]).len(),
        serialize_models(vs.take(vs.len() as int)).len() == serialize_models(vs).len(),
{
    let head = vs.take(i);
    let rest = vs.skip(i + 1);
    assert(vs =~= head + seq![vs[i]] + rest);
    assert(vs.take(i + 1) =~= head + seq![vs[i]]);
    lemma_serialize_models_concat(head + seq![vs[i]], rest);
    lemma_serialize_models_concat(head, seq![vs[i]]);
    let one = seq![vs[i]];
    assert(one.drop_first() =~= Seq::<RespModel>::empty());
    assert(serialize_models(one.drop_first()) =~= Seq::<u8>::empty());
    assert(one[0] == vs[i]);
    assert(serialize_models(one) =~= serialize_model(vs[i]));
    let all = serialize_models(vs);
    let p = serialize_models(head).len() as int;
    assert(all.skip(p) =~= serialize_model(vs[i]) + serialize_models(rest));
    lemma_all_encodable_index(vs, i);
    lemma_parse_serialized(vs[i], serialize_models(rest));
    assert(vs.take(vs.len() as int) =~= vs);
}

/// A parser as its contracts see it: the bytes it holds and how many of them
/// values were parsed from.
pub struct ParserModel {
    pub buffered: Seq<u8>,
    pub consumed: int,
}

/// The parser as its contracts see it.
pub open spec fn parser_model(p: RespParser) -> ParserModel {
    ParserModel { buffered: p.buffered(), consumed: p.consumed() as int }
}

/// What a call of `parse` answered, as a model.
pub open spec fn parse_answer(r: Result<Option<RespValue>, ParseError>) -> Option<Result<Option<RespModel>, ParseError>> {
    match r {
        Ok(Some(v)) => Some(Ok(Some(v.model()))),
        Ok(None) => Some(Ok(None)),
        Err(e) => Some(Err(e)),
    }
}

/// The bytes not yet parsed.
pub open spec fn pending_of(p: ParserModel) -> Seq<u8> {
    p.buffered.skip(p.consumed)
}

/// Whether the consumed bytes are held bytes.
pub open spec fn model_wf(p: ParserModel) -> bool {
    0 <= p.consumed <= p.buffered.len()
}

/// A call on a parser.
pub enum ParserOp {
    Feed(Seq<u8>),
    Parse,
    Compact,
}

/// What a call does, as the contracts of `RespParser::feed`, `parse` and
/// `compact` state it, and what `parse` answers.
pub open spec fn parser_step(p: ParserModel, op: ParserOp) -> (ParserModel, Option<Result<Option<RespModel>, ParseError>>) {
    match op {
        ParserOp::Feed(bytes) => (ParserModel { buffered: p.buffered + bytes, consumed: p.consumed }, None),
        ParserOp::Parse => match spec_parse_value(pending_of(p)) {
            Ok((m, k)) => (ParserModel { buffered: p.buffered, consumed: p.consumed + k }, Some(Ok(Some(m)))),
            Err(ParseError::Incomplete) => (p, Some(Ok(None))),
            Err(e) => (p, Some(Err(e))),
        },
        ParserOp::Compact => (ParserModel { buffered: pending_of(p), consumed: 0 }, None),
    }
}

/// The calls run one after the other: the parser they leave, and what each
/// call answered.
pub open spec fn run_parser(p: ParserModel, ops: Seq<ParserOp>) -> (ParserModel, Seq<Option<Result<Option<RespModel>, ParseError>>>)
    decreases ops.len(),
{
    if ops.len() == 0 {
        (p, Seq::empty())
    } else {
        let (q, r) = parser_step(p, ops[0]);
        let (f, rs) = run_parser(q, ops.drop_first());
        (f, seq![r] + rs)
    }
}

/// Two parsers with the same pending bytes answer every run of calls alike,
/// and are left with the same pending bytes.
pub proof fn lemma_same_pending(p1: ParserModel, p2: ParserModel, ops: Seq<ParserOp>)
    requires
        model_wf(p1),
        model_wf(p2),
        pending_of(p1) == pending_of(p2),
    ensures
        run_parser(p1, ops).1 == run_parser(p2, ops).1,
        pending_of(run_parser(p1, ops).0) == pending_of(run_parser(p2, ops).0),
        model_wf(run_parser(p1, ops).0),
        model_wf(run_parser(p2, ops).0),
    decreases ops.len(),
{
    if ops.len() > 0 {
        let (q1, r1) = parser_step(p1, ops[0]);
        let (q2, r2) = parser_step(p2, ops[0]);
        let pend = pending_of(p1);
        match ops[0] {
            ParserOp::Feed(bytes) => {
                assert(pending_of(q1) =~= pend + bytes);
                assert(pending_of(q2) =~= pend + bytes);
            },
            ParserOp::Parse => {
                if let Ok((m, k)) = spec_parse_value(pend) {
                    lemma_parse_prefix_stable(pend, Seq::empty());
                    assert(pending_of(q1) =~= pend.skip(k));
                    assert(pending_of(q2) =~= pend.skip(k));
                }
            },
            ParserOp::Compact => {
                assert(pending_of(q1) =~= pend);
                assert(pending_of(q2) =~= pend);
            },
        }
        lemma_same_pending(q1, q2, ops.drop_first());
    }
}

/// `compact` cannot be seen through later calls: any run of feeds, parses and
/// compacts answers the same with a `compact` before it as without; and
/// compacting twice leaves the parser as compacting once.
pub proof fn lemma_compact_unseen(p: ParserModel, ops: Seq<ParserOp>)
    requires
        model_wf(p),
    ensures
        run_parser(parser_step(p, ParserOp::Compact).0, ops).1 == run_parser(p, ops).1,
        parser_step(parser_step(p, ParserOp::Compact).0, ParserOp::Compact).0 == parser_step(p, ParserOp::Compact).0,
{
    let c = parser_step(p, ParserOp::Compact).0;
    assert(pending_of(c) =~= pending_of(p));
    lemma_same_pending(c, p, ops);
    assert(c.buffered.skip(0) =~= c.buffered);
}

} // verus!
