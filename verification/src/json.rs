//! Structured values: what a record carries as its payload.

use vstd::prelude::*;

verus! {

/// A structured value. The names in an object are distinct.
#[derive(Debug)]
pub enum Json {
    Null,
    Bool(bool),
    Signed(i64),
    Unsigned(u64),
    /// A number that is no integer, in the way it is written.
    Decimal(String),
    Text(String),
    Array(Vec<Json>),
    Object(Vec<Member>),
}

/// A named value in an object.
#[derive(Debug)]
pub struct Member {
    pub name: String,
    pub value: Json,
}

/// A structured value as a mathematical one.
pub enum JsonModel {
    Null,
    Bool(bool),
    Signed(i64),
    Unsigned(u64),
    Decimal(Seq<char>),
    Text(Seq<char>),
    Array(Seq<JsonModel>),
    Object(Seq<(Seq<char>, JsonModel)>),
}

/// The mathematical value of a structured value.
pub open spec fn json_model(j: Json) -> JsonModel
    decreases j,
{
    match j {
        Json::Null => JsonModel::Null,
        Json::Bool(b) => JsonModel::Bool(b),
        Json::Signed(n) => JsonModel::Signed(n),
        Json::Unsigned(n) => JsonModel::Unsigned(n),
        Json::Decimal(s) => JsonModel::Decimal(s@),
        Json::Text(s) => JsonModel::Text(s@),
        Json::Array(v) => JsonModel::Array(
            Seq::new(
                v@.len(),
                |i: int|
                    if 0 <= i < v@.len() {
                        json_model(v@[i])
                    } else {
                        JsonModel::Null
                    },
            ),
        ),
        Json::Object(v) => JsonModel::Object(
            Seq::new(
                v@.len(),
                |i: int|
                    if 0 <= i < v@.len() {
                        (v@[i].name@, json_model(v@[i].value))
                    } else {
                        (Seq::empty(), JsonModel::Null)
                    },
            ),
        ),
    }
}

impl View for Json {
    type V = JsonModel;

    open spec fn view(&self) -> JsonModel {
        json_model(*self)
    }
}

} // verus!
