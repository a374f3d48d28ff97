use vstd::prelude::*;

use crate::common::text::text;

verus! {

/// A value of the RESP2 protocol.
#[derive(Debug, PartialEq)]
pub enum RespValue {
    SimpleString(String),
    Error(String),
    Integer(i64),
    /// `None` is the null bulk string.
    BulkString(Option<Vec<u8>>),
    /// `None` is the null array.
    Array(Option<Vec<RespValue>>),
}

/// The mathematical content of a `RespValue`.
pub enum RespModel {
    SimpleString(Seq<char>),
    Error(Seq<char>),
    Integer(i64),
    BulkString(Option<Seq<u8>>),
    Array(Option<Seq<RespModel>>),
}

impl RespValue {
    pub open spec fn model(self) -> RespModel
        decreases self,
    {
        match self {
            RespValue::SimpleString(s) => RespModel::SimpleString(s@),
            RespValue::Error(s) => RespModel::Error(s@),
            RespValue::Integer(n) => RespModel::Integer(n),
            RespValue::BulkString(None) => RespModel::BulkString(None),
            RespValue::BulkString(Some(b)) => RespModel::BulkString(Some(b@)),
            RespValue::Array(None) => RespModel::Array(None),
            RespValue::Array(Some(v)) => RespModel::Array(
                Some(
                    Seq::new(
                        v@.len(),
                        |i: int|
                            if 0 <= i < v@.len() {
                                v@[i].model()
                            } else {
                                RespModel::Integer(0)
                            },
                    ),
                ),
            ),
        }
    }

    pub fn ok() -> (r: Self)
        ensures
            r.model() == RespModel::SimpleString("OK"@),
    {
        RespValue::SimpleString(text("OK"))
    }

    pub fn pong() -> (r: Self)
        ensures
            r.model() == RespModel::SimpleString("PONG"@),
    {
        RespValue::SimpleString(text("PONG"))
    }

    pub fn null() -> (r: Self)
        ensures
            r.model() == RespModel::BulkString(None),
    {
        RespValue::BulkString(None)
    }

    pub fn error(msg: String) -> (r: Self)
        ensures
            r.model() == RespModel::Error(msg@),
    {
        RespValue::Error(msg)
    }
}

/// The models of a sequence of values.
pub open spec fn models(v: Seq<RespValue>) -> Seq<RespModel> {
    Seq::new(v.len(), |i: int| v[i].model())
}

/// The model of an array is made of the models of its elements.
pub proof fn lemma_array_model(v: Vec<RespValue>)
    ensures
        RespValue::Array(Some(v)).model() == RespModel::Array(Some(models(v@))),
{
    let m = RespValue::Array(Some(v)).model();
    let es = m->Array_0->Some_0;
    assert(es.len() == v@.len());
    assert forall|i: int| 0 <= i < v@.len() implies es[i] == v@[i].model() by {}
    assert(es =~= models(v@));
}

} // verus!
