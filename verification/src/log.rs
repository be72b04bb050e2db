//! Logs: as a contract emits them, and as read by an event.

use vstd::prelude::*;
use crate::token::{Token, Value};

verus! {

/// A log as a contract emits it.
#[derive(Debug, PartialEq, Eq)]
pub struct RawLog {
    /// The topics: 32-byte words.
    pub topics: Vec<[u8; 32]>,
    /// The data.
    pub data: Vec<u8>,
}

/// What a log tells of one parameter of an event.
#[derive(Debug, PartialEq, Eq)]
pub enum LogValue {
    /// The value.
    Value(Token),
    /// The hash of the value, which is all that a topic keeps of an indexed
    /// parameter of a dynamic shape. The value cannot be had from it.
    Hashed([u8; 32]),
}

/// What a [`LogValue`] holds, as mathematics.
pub enum Logged {
    Value(Value),
    Hashed(Seq<u8>),
}

impl View for LogValue {
    type V = Logged;

    open spec fn view(&self) -> Logged {
        match self {
            LogValue::Value(token) => Logged::Value(token@),
            LogValue::Hashed(hash) => Logged::Hashed(hash@),
        }
    }
}

impl LogValue {
    /// A copy of this value.
    pub fn duplicate(&self) -> (r: LogValue)
        ensures
            r@ == self@,
    {
        match self {
            LogValue::Value(token) => LogValue::Value(token.duplicate()),
            LogValue::Hashed(hash) => LogValue::Hashed(*hash),
        }
    }
}

impl Clone for LogValue {
    fn clone(&self) -> (r: LogValue)
        ensures
            r@ == self@,
    {
        self.duplicate()
    }
}

/// One parameter of an event, as a log tells it.
#[derive(Debug, PartialEq, Eq)]
pub struct LogParam {
    /// The parameter's name.
    pub name: String,
    /// Its value, or the hash of it.
    pub value: LogValue,
}

impl View for LogParam {
    type V = (Seq<char>, Logged);

    open spec fn view(&self) -> (Seq<char>, Logged) {
        (self.name@, self.value@)
    }
}

/// A log as read by an event: the event's parameters in the order of their
/// declaration.
#[derive(Debug, PartialEq, Eq)]
pub struct Log {
    /// The parameters.
    pub params: Vec<LogParam>,
}

/// What each parameter of a read log holds, by name.
pub open spec fn entries_of(params: Seq<LogParam>) -> Seq<(Seq<char>, Logged)> {
    Seq::new(params.len(), |i: int| params[i]@)
}

/// The topics as byte sequences.
pub open spec fn words_of(topics: Seq<[u8; 32]>) -> Seq<Seq<u8>> {
    Seq::new(topics.len(), |i: int| topics[i]@)
}

} // verus!
