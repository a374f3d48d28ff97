use vstd::prelude::*;

use crate::common::constants::MAX_VALUE_SIZE;
use crate::common::text::{decimal_digits, decimal_text, lemma_parse_decimal_text};
use crate::common::text::lossy_text;
use crate::protocol::parser::{newline_at, spec_parse_elements, spec_parse_value, spec_read_line, ParseError};
use crate::protocol::resp::RespModel;
use crate::protocol::serializer::{crlf, serialize_model, serialize_models};

verus! {

/// Whether a value comes back whole from its encoding: no simple string or
/// error holds a `\n`, no bulk string is longer than `MAX_VALUE_SIZE`, and no
/// array has more elements than an `i64` counts.
pub open spec fn encodable(m: RespModel) -> bool
    decreases m,
{
    match m {
        RespModel::SimpleString(s) => !s.contains('\n'),
        RespModel::Error(s) => !s.contains('\n'),
        RespModel::Integer(_) => true,
        RespModel::BulkString(None) => true,
        RespModel::BulkString(Some(d)) => d.len() <= MAX_VALUE_SIZE,
        RespModel::Array(None) => true,
        RespModel::Array(Some(es)) => es.len() <= i64::MAX && all_encodable(es),
    }
}

/// Whether every value of a sequence is `encodable`.
pub open spec fn all_encodable(es: Seq<RespModel>) -> bool
    decreases es,
{
    if es.len() == 0 {
        true
    } else {
        encodable(es[0]) && all_encodable(es.drop_first())
    }
}

proof fn lemma_high_bit_bytes(x: u8)
    by (bit_vector)
    ensures
        (0x80u8 | x) != 10u8,
        (0xC0u8 | x) != 10u8,
        (0xE0u8 | x) != 10u8,
        (0xF0u8 | x) != 10u8,
{
}

proof fn lemma_ascii_byte(c: u32)
    by (bit_vector)
    requires
        c <= 0x7F,
        c != 10,
    ensures
        ((c & 0x7F) as u8) != 10u8,
{
}

/// The UTF-8 encoding of a character other than `\n` holds no byte 10.
proof fn lemma_scalar_no_newline(c: u32)
    requires
        c != 10,
    ensures
        forall|i: int| 0 <= i < vstd::utf8::encode_scalar(c).len() ==> #[trigger] vstd::utf8::encode_scalar(c)[i] != 10u8,
{
    if c <= 0x7F {
        lemma_ascii_byte(c);
    } else {
        lemma_high_bit_bytes(((c >> 6) & 0x1F) as u8);
        lemma_high_bit_bytes(((c >> 12) & 0x0F) as u8);
        lemma_high_bit_bytes(((c >> 18) & 0x7) as u8);
        lemma_high_bit_bytes((c & 0x3F) as u8);
        lemma_high_bit_bytes(((c >> 6) & 0x3F) as u8);
        lemma_high_bit_bytes(((c >> 12) & 0x3F) as u8);
    }
}

/// The UTF-8 encoding of a text without `\n` holds no byte 10.
proof fn lemma_encode_no_newline(s: Seq<char>)
    requires
        !s.contains('\n'),
    ensures
        forall|i: int| 0 <= i < vstd::utf8::encode_utf8(s).len() ==> #[trigger] vstd::utf8::encode_utf8(s)[i] != 10u8,
    decreases s.len(),
{
    if s.len() > 0 {
        let c = s[0];
        assert(c != '\n');
        if c as u32 == 10 {
            vstd::utf8::char_u32_cast(c, 10u32);
            assert(false);
        }
        lemma_scalar_no_newline(c as u32);
        assert(!s.drop_first().contains('\n')) by {
            if s.drop_first().contains('\n') {
                let j = choose|j: int| 0 <= j < s.drop_first().len() && s.drop_first()[j] == '\n';
                assert(s[j + 1] == '\n');
            }
        }
        lemma_encode_no_newline(s.drop_first());
        let head = vstd::utf8::encode_scalar(c as u32);
        let tail = vstd::utf8::encode_utf8(s.drop_first());
        assert(vstd::utf8::encode_utf8(s) == head + tail);
        assert forall|i: int| 0 <= i < (head + tail).len() implies #[trigger] (head + tail)[i] != 10u8 by {
            if i >= head.len() {
                assert((head + tail)[i] == tail[i - head.len()]);
            }
        }
    }
}

proof fn lemma_newline_from(p: Seq<u8>, rest: Seq<u8>, i: int)
    requires
        0 <= i <= p.len() + 1,
        forall|j: int| 0 <= j < p.len() ==> #[trigger] p[j] != 10u8,
    ensures
        newline_at(p + crlf() + rest, i) == p.len() + 1,
    decreases p.len() + 1 - i,
{
    let x = p + crlf() + rest;
    if i == p.len() + 1 {
        assert(x[i] == 10u8);
    } else {
        if i < p.len() {
            assert(x[i] == p[i]);
        } else {
            assert(x[i] == 13u8);
        }
        lemma_newline_from(p, rest, i + 1);
    }
}

/// A line without `\n` followed by CRLF reads back as itself.
proof fn lemma_read_line(p: Seq<u8>, rest: Seq<u8>)
    requires
        forall|j: int| 0 <= j < p.len() ==> #[trigger] p[j] != 10u8,
    ensures
        spec_read_line(p + crlf() + rest) == Ok::<(Seq<u8>, int), ParseError>((p, (p.len() + 2) as int)),
{
    let x = p + crlf() + rest;
    lemma_newline_from(p, rest, 0);
    assert(x[p.len() as int] == 13u8);
    assert(x.take(p.len() as int) =~= p);
}

/// A type byte, a line and CRLF: the line reads back after the type byte.
proof fn lemma_typed_line(t: u8, line: Seq<u8>, rest: Seq<u8>)
    requires
        forall|j: int| 0 <= j < line.len() ==> #[trigger] line[j] != 10u8,
    ensures
        (seq![t] + line + crlf() + rest)[0] == t,
        (seq![t] + line + crlf() + rest).len() > 0,
        spec_read_line((seq![t] + line + crlf() + rest).skip(1)) == Ok::<(Seq<u8>, int), ParseError>(
            (line, (line.len() + 2) as int),
        ),
{
    lemma_read_line(line, rest);
    assert((seq![t] + line + crlf() + rest).skip(1) =~= line + crlf() + rest);
}

#[verifier::spinoff_prover]
proof fn lemma_parse_text(t: u8, s: Seq<char>, rest: Seq<u8>)
    requires
        t == 43u8 || t == 45u8,
        !s.contains('\n'),
    ensures
        spec_parse_value(seq![t] + vstd::utf8::encode_utf8(s) + crlf() + rest) == Ok::<(RespModel, int), ParseError>(
            (
                if t == 43u8 {
                    RespModel::SimpleString(s)
                } else {
                    RespModel::Error(s)
                },
                (vstd::utf8::encode_utf8(s).len() + 3) as int,
            ),
        ),
{
    let e = vstd::utf8::encode_utf8(s);
    lemma_encode_no_newline(s);
    lemma_typed_line(t, e, rest);
    vstd::utf8::encode_utf8_valid_utf8(s);
    vstd::utf8::encode_utf8_decode_utf8(s);
    assert(lossy_text(e) == s);
}

#[verifier::spinoff_prover]
proof fn lemma_parse_integer(n: i64, rest: Seq<u8>)
    ensures
        spec_parse_value(seq![58u8] + decimal_text(n as int) + crlf() + rest) == Ok::<(RespModel, int), ParseError>(
            (RespModel::Integer(n), (decimal_text(n as int).len() + 3) as int),
        ),
{
    lemma_parse_decimal_text(n);
    lemma_typed_line(58u8, decimal_text(n as int), rest);
}

#[verifier::spinoff_prover]
proof fn lemma_parse_null(t: u8, rest: Seq<u8>)
    requires
        t == 36u8 || t == 42u8,
    ensures
        spec_parse_value(seq![t, 45u8, 49u8] + crlf() + rest) == Ok::<(RespModel, int), ParseError>(
            (
                if t == 36u8 {
                    RespModel::BulkString(None)
                } else {
                    RespModel::Array(None)
                },
                5,
            ),
        ),
{
    let line = decimal_text(-1int);
    lemma_parse_decimal_text(-1i64);
    assert(line =~= seq![45u8, 49u8]);
    lemma_typed_line(t, line, rest);
    assert(seq![t, 45u8, 49u8] + crlf() + rest =~= seq![t] + line + crlf() + rest);
}

#[verifier::spinoff_prover]
proof fn lemma_parse_bulk(d: Seq<u8>, rest: Seq<u8>)
    requires
        d.len() <= MAX_VALUE_SIZE,
    ensures
        spec_parse_value(seq![36u8] + decimal_digits(d.len()) + crlf() + d + crlf() + rest) == Ok::<
            (RespModel, int),
            ParseError,
        >((RespModel::BulkString(Some(d)), (decimal_digits(d.len()).len() + 3 + d.len() + 2) as int)),
{
    let n = d.len() as i64;
    let t = decimal_digits(d.len());
    lemma_parse_decimal_text(n);
    assert(decimal_text(n as int) == t);
    lemma_typed_line(36u8, t, d + crlf() + rest);
    let x = seq![36u8] + t + crlf() + d + crlf() + rest;
    assert(x =~= seq![36u8] + t + crlf() + (d + crlf() + rest));
    let header: int = 1 + t.len() as int + 2;
    assert(x.skip(header) =~= d + crlf() + rest);
    assert(x.skip(header).take(n as int) =~= d);
}

#[verifier::spinoff_prover]
proof fn lemma_parse_array(es: Seq<RespModel>, rest: Seq<u8>)
    requires
        es.len() <= i64::MAX,
        all_encodable(es),
    ensures
        spec_parse_value(seq![42u8] + decimal_digits(es.len()) + crlf() + serialize_models(es) + rest) == Ok::<
            (RespModel, int),
            ParseError,
        >((RespModel::Array(Some(es)), (decimal_digits(es.len()).len() + 3 + serialize_models(es).len()) as int)),
    decreases es, 3int,
{
    let n = es.len() as i64;
    let t = decimal_digits(es.len());
    lemma_parse_decimal_text(n);
    assert(decimal_text(n as int) == t);
    lemma_typed_line(42u8, t, serialize_models(es) + rest);
    let x = seq![42u8] + t + crlf() + serialize_models(es) + rest;
    assert(x =~= seq![42u8] + t + crlf() + (serialize_models(es) + rest));
    let header: int = 1 + t.len() as int + 2;
    assert(x.skip(header) =~= serialize_models(es) + rest);
    lemma_parse_serialized_elements(es, rest);
}

/// Parsing the encoding of a value, whatever bytes follow it, gives back the
/// value and takes exactly its encoding.
pub proof fn lemma_parse_serialized(m: RespModel, rest: Seq<u8>)
    requires
        encodable(m),
    ensures
        spec_parse_value(serialize_model(m) + rest) == Ok::<(RespModel, int), ParseError>(
            (m, serialize_model(m).len() as int),
        ),
    decreases m, 1int,
{
    match m {
        RespModel::SimpleString(s) => {
            lemma_parse_text(43u8, s, rest);
        },
        RespModel::Error(s) => {
            lemma_parse_text(45u8, s, rest);
        },
        RespModel::Integer(n) => {
            lemma_parse_integer(n, rest);
        },
        RespModel::BulkString(None) => {
            lemma_parse_null(36u8, rest);
        },
        RespModel::Array(None) => {
            lemma_parse_null(42u8, rest);
        },
        RespModel::BulkString(Some(d)) => {
            lemma_parse_bulk(d, rest);
        },
        RespModel::Array(Some(es)) => {
            lemma_parse_array(es, rest);
        },
    }
}

/// Parsing the encodings of a sequence of values, whatever bytes follow them,
/// gives back the values and takes exactly their encodings.
pub proof fn lemma_parse_serialized_elements(es: Seq<RespModel>, rest: Seq<u8>)
    requires
        all_encodable(es),
    ensures
        spec_parse_elements(serialize_models(es) + rest, es.len()) == Ok::<(Seq<RespModel>, int), ParseError>(
            (es, serialize_models(es).len() as int),
        ),
    decreases es, 2int,
{
    if es.len() == 0 {
        assert(serialize_models(es) =~= Seq::<u8>::empty());
        assert(es =~= Seq::<RespModel>::empty());
    } else {
        let head = serialize_model(es[0]);
        let tail = serialize_models(es.drop_first());
        let x = serialize_models(es) + rest;
        assert(serialize_models(es) == head + tail);
        assert(x =~= head + (tail + rest));
        lemma_parse_serialized(es[0], tail + rest);
        assert(x.skip(head.len() as int) =~= tail + rest);
        lemma_parse_serialized_elements(es.drop_first(), rest);
        assert(seq![es[0]] + es.drop_first() =~= es);
    }
}

} // verus!
