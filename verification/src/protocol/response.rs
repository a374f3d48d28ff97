use vstd::prelude::*;

use crate::common::types::Value;

verus! {

/// A shard's answer to a command.
#[derive(Debug, Clone)]
pub enum Response {
    Value(Option<Value>),
    Integer(i64),
    Okay,
    Error(String),
}

/// The mathematical content of a `Response`.
pub enum ResponseModel {
    Value(Option<Seq<u8>>),
    Integer(i64),
    Okay,
    Error(Seq<char>),
}

impl Response {
    pub open spec fn model(self) -> ResponseModel {
        match self {
            Response::Value(None) => ResponseModel::Value(None),
            Response::Value(Some(v)) => ResponseModel::Value(Some(v.bytes())),
            Response::Integer(n) => ResponseModel::Integer(n),
            Response::Okay => ResponseModel::Okay,
            Response::Error(s) => ResponseModel::Error(s@),
        }
    }

    pub fn ok() -> (r: Self)
        ensures
            r.model() == ResponseModel::Okay,
    {
        Response::Okay
    }

    pub fn error(msg: String) -> (r: Self)
        ensures
            r.model() == ResponseModel::Error(msg@),
    {
        Response::Error(msg)
    }
}

} // verus!
