use vstd::prelude::*;

use crate::common::text::{decimal_digits, decimal_text, push_decimal, push_signed_decimal, push_str_bytes, push_bytes};
use crate::protocol::resp::{RespModel, RespValue, models, lemma_array_model};

verus! {

/// `\r\n`.
pub open spec fn crlf() -> Seq<u8> {
    seq![13u8, 10u8]
}

/// The RESP2 encoding of a value.
pub open spec fn serialize_model(m: RespModel) -> Seq<u8>
    decreases m,
{
    match m {
        RespModel::SimpleString(s) => seq![43u8] + vstd::utf8::encode_utf8(s) + crlf(),
        RespModel::Error(s) => seq![45u8] + vstd::utf8::encode_utf8(s) + crlf(),
        RespModel::Integer(n) => seq![58u8] + decimal_text(n as int) + crlf(),
        RespModel::BulkString(None) => seq![36u8, 45u8, 49u8] + crlf(),
        RespModel::BulkString(Some(d)) => seq![36u8] + decimal_digits(d.len()) + crlf() + d + crlf(),
        RespModel::Array(None) => seq![42u8, 45u8, 49u8] + crlf(),
        RespModel::Array(Some(es)) => seq![42u8] + decimal_digits(es.len()) + crlf()
            + serialize_models(es),
    }
}

/// The encodings of a sequence of values, one after the other.
pub open spec fn serialize_models(es: Seq<RespModel>) -> Seq<u8>
    decreases es,
{
    if es.len() == 0 {
        Seq::empty()
    } else {
        serialize_model(es[0]) + serialize_models(es.drop_first())
    }
}

/// Encoding one more value appends its encoding.
pub proof fn lemma_serialize_models_push(es: Seq<RespModel>, m: RespModel)
    ensures
        serialize_models(es.push(m)) == serialize_models(es) + serialize_model(m),
    decreases es.len(),
{
    if es.len() == 0 {
        let one = es.push(m);
        assert(one.drop_first() =~= Seq::<RespModel>::empty());
        assert(serialize_models(one.drop_first()) =~= Seq::<u8>::empty());
        assert(one[0] == m);
        assert(serialize_models(one) =~= serialize_model(m));
        assert(serialize_models(es) =~= Seq::<u8>::empty());
    } else {
        lemma_serialize_models_push(es.drop_first(), m);
        assert(es.push(m).drop_first() =~= es.drop_first().push(m));
        assert(serialize_models(es.push(m)) =~= serialize_models(es) + serialize_model(m));
    }
}

/// The RESP2 encoding of `value`.
pub fn serialize_resp2(value: &RespValue) -> (r: Vec<u8>)
    ensures
        r@ == serialize_model(value.model()),
{
    let mut buf: Vec<u8> = Vec::new();
    serialize_value(value, &mut buf);
    assert(buf@ =~= serialize_model(value.model()));
    buf
}

fn push_crlf(buf: &mut Vec<u8>)
    ensures
        final(buf)@ == old(buf)@ + crlf(),
{
    buf.push(13u8);
    buf.push(10u8);
    assert(final(buf)@ =~= old(buf)@ + crlf());
}

/// Appends the RESP2 encoding of `value`.
fn serialize_value(value: &RespValue, buf: &mut Vec<u8>)
    ensures
        final(buf)@ == old(buf)@ + serialize_model(value.model()),
    decreases value,
{
    let ghost start = buf@;
    match value {
        RespValue::SimpleString(s) => {
            buf.push(43u8);
            push_str_bytes(buf, s.as_str());
            push_crlf(buf);
            assert(buf@ =~= start + serialize_model(value.model()));
        },
        RespValue::Error(s) => {
            buf.push(45u8);
            push_str_bytes(buf, s.as_str());
            push_crlf(buf);
            assert(buf@ =~= start + serialize_model(value.model()));
        },
        RespValue::Integer(n) => {
            buf.push(58u8);
            push_signed_decimal(buf, *n);
            push_crlf(buf);
            assert(buf@ =~= start + serialize_model(value.model()));
        },
        RespValue::BulkString(None) => {
            buf.push(36u8);
            buf.push(45u8);
            buf.push(49u8);
            push_crlf(buf);
            assert(buf@ =~= start + serialize_model(value.model()));
        },
        RespValue::BulkString(Some(data)) => {
            buf.push(36u8);
            push_decimal(buf, data.len() as u64);
            push_crlf(buf);
            push_bytes(buf, data.as_slice());
            push_crlf(buf);
            assert(buf@ =~= start + serialize_model(value.model()));
        },
        RespValue::Array(None) => {
            buf.push(42u8);
            buf.push(45u8);
            buf.push(49u8);
            push_crlf(buf);
            assert(buf@ =~= start + serialize_model(value.model()));
        },
        RespValue::Array(Some(elements)) => {
            proof {
                lemma_array_model(*elements);
            }
            buf.push(42u8);
            push_decimal(buf, elements.len() as u64);
            push_crlf(buf);
            let ghost header = buf@;
            let mut i: usize = 0;
            while i < elements.len()
                invariant
                    i <= elements.len(),
                    *value == RespValue::Array(Some(*elements)),
                    buf@ == header + serialize_models(models(elements@).take(i as int)),
                decreases elements.len() - i,
            {
                proof {
                    assert(decreases_to!(*value => value->Array_0));
                    assert(decreases_to!(value->Array_0 => value->Array_0->Some_0));
                    assert(decreases_to!(*elements => elements@));
                    assert(decreases_to!(elements@ => elements@[i as int]));
                }
                serialize_value(&elements[i], buf);
                proof {
                    assert(models(elements@).take(i + 1) =~= models(elements@).take(i as int).push(
                        elements@[i as int].model(),
                    ));
                    lemma_serialize_models_push(models(elements@).take(i as int), elements@[i as int].model());
                }
                i = i + 1;
            }
            assert(models(elements@).take(elements.len() as int) =~= models(elements@));
            assert(buf@ =~= start + serialize_model(value.model()));
        },
    }
}

} // verus!
