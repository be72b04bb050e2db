//! A contract's interface: its constructor, functions and events, found by
//! name.

use vstd::prelude::*;
use vstd::string::*;
use vstd::utf8::encode_utf8;
use crate::constructor::Constructor;
use crate::decoder::{decode, decode_seq, tokens_outcome};
use crate::encoder::encode_seq;
use crate::errors::Error;
use crate::event::{parsed_log, Event};
use crate::function::{kinds_of, Function};
use crate::log::{entries_of, words_of, Log, Logged, RawLog};
use crate::signature::selector_of;
use crate::param_type::ParamType;
use crate::token::{have_shapes, values_of, Token, Value};

verus! {

/// The interface of a contract.
#[derive(Debug, PartialEq, Eq)]
pub struct Contract {
    /// The constructor, if one is declared.
    pub constructor: Option<Constructor>,
    /// The functions.
    pub functions: Vec<Function>,
    /// The events.
    pub events: Vec<Event>,
}

/// How a payload is to be executed.
#[derive(Debug, Clone, Copy, PartialEq, Eq, Structural)]
pub enum Mode {
    /// Read only: the state stays as it was, and the function's outputs come
    /// back.
    Call,
    /// As a transaction, which may change the state; nothing comes back.
    Transact,
}

/// What is to be handed to the transport.
#[derive(Debug, PartialEq, Eq)]
pub struct Request {
    /// How the payload is to be executed.
    pub mode: Mode,
    /// The payload.
    pub payload: Vec<u8>,
}

/// The first place from `from` on at which `names` holds `name`.
pub open spec fn place_of(names: Seq<Seq<char>>, name: Seq<char>, from: nat) -> Option<nat>
    decreases names.len() - from,
{
    if from >= names.len() {
        None
    } else if names[from as int] == name {
        Some(from)
    } else {
        place_of(names, name, from + 1)
    }
}

/// The names of the functions, in order.
pub open spec fn function_names(functions: Seq<Function>) -> Seq<Seq<char>> {
    Seq::new(functions.len(), |i: int| functions[i].name@)
}

/// The names of the events, in order.
pub open spec fn event_names(events: Seq<Event>) -> Seq<Seq<char>> {
    Seq::new(events.len(), |i: int| events[i].name@)
}

/// Whether two texts are the same.
pub fn same_text(a: &str, b: &str) -> (r: bool)
    ensures
        r == (a@ == b@),
{
    let x = a.as_bytes();
    let y = b.as_bytes();
    if x.len() != y.len() {
        return false;
    }
    let mut i: usize = 0;
    while i < x.len()
        invariant
            i <= x@.len() == y@.len(),
            x@ == encode_utf8(a@),
            y@ == encode_utf8(b@),
            forall|j: int| 0 <= j < i ==> x@[j] == y@[j],
        decreases x@.len() - i,
    {
        if x[i] != y[i] {
            return false;
        }
        i += 1;
    }
    assert(x@ =~= y@);
    proof {
        vstd::utf8::encode_utf8_decode_utf8(a@);
        vstd::utf8::encode_utf8_decode_utf8(b@);
    }
    true
}

impl Contract {
    /// The first function of the given name; `InvalidName` where there is none.
    pub fn function(&self, name: &str) -> (r: Result<&Function, Error>)
        ensures
            match r {
                Ok(f) => match place_of(function_names(self.functions@), name@, 0) {
                    Some(i) => *f == self.functions@[i as int],
                    None => false,
                },
                Err(e) => e == Error::InvalidName && place_of(
                    function_names(self.functions@),
                    name@,
                    0,
                ) is None,
            },
    {
        let ghost names = function_names(self.functions@);
        let mut i: usize = 0;
        while i < self.functions.len()
            invariant
                i <= self.functions@.len(),
                names == function_names(self.functions@),
                place_of(names, name@, 0) == place_of(names, name@, i as nat),
            decreases self.functions@.len() - i,
        {
            if same_text(self.functions[i].name.as_str(), name) {
                return Ok(&self.functions[i]);
            }
            i += 1;
        }
        Err(Error::InvalidName)
    }

    /// The first event of the given name; `InvalidName` where there is none.
    pub fn event(&self, name: &str) -> (r: Result<&Event, Error>)
        ensures
            match r {
                Ok(ev) => match place_of(event_names(self.events@), name@, 0) {
                    Some(i) => *ev == self.events@[i as int],
                    None => false,
                },
                Err(e) => e == Error::InvalidName && place_of(event_names(self.events@), name@, 0)
                    is None,
            },
    {
        let ghost names = event_names(self.events@);
        let mut i: usize = 0;
        while i < self.events.len()
            invariant
                i <= self.events@.len(),
                names == event_names(self.events@),
                place_of(names, name@, 0) == place_of(names, name@, i as nat),
            decreases self.events@.len() - i,
        {
            if same_text(self.events[i].name.as_str(), name) {
                return Ok(&self.events[i]);
            }
            i += 1;
        }
        Err(Error::InvalidName)
    }

    /// The payload of a call of the first function of the given name:
    /// `InvalidName` where there is none, else as [`Function::encode_input`]
    /// gives it.
    pub fn encode_call(&self, name: &str, tokens: &[Token]) -> (r: Result<Vec<u8>, Error>)
        ensures
            match place_of(function_names(self.functions@), name@, 0) {
                None => r == Err::<Vec<u8>, Error>(Error::InvalidName),
                Some(i) => {
                    let f = self.functions@[i as int];
                    match r {
                        Ok(bytes) => have_shapes(values_of(tokens@), kinds_of(f.inputs@))
                            && bytes@ == selector_of(f.name@, kinds_of(f.inputs@)) + encode_seq(
                            values_of(tokens@),
                        ),
                        Err(e) => e == Error::InvalidData && !have_shapes(
                            values_of(tokens@),
                            kinds_of(f.inputs@),
                        ),
                    }
                },
            },
    {
        match self.function(name) {
            Ok(f) => f.encode_input(tokens),
            Err(e) => Err(e),
        }
    }

    /// The values that a call of the first function of the given name
    /// returned: `InvalidName` where there is none, else as
    /// [`Function::decode_output`] gives them.
    pub fn decode_output(&self, name: &str, data: &[u8]) -> (r: Result<Vec<Token>, Error>)
        ensures
            match place_of(function_names(self.functions@), name@, 0) {
                None => r == Err::<Vec<Token>, Error>(Error::InvalidName),
                Some(i) => tokens_outcome(r) == decode_seq(
                    kinds_of(self.functions@[i as int].outputs@),
                    data@,
                ),
            },
    {
        match self.function(name) {
            Ok(f) => f.decode_output(data),
            Err(e) => Err(e),
        }
    }

    /// The payload of a deployment: the code, then the encoded arguments of
    /// the constructor. A contract that declares no constructor takes no
    /// arguments. Arguments that do not fit are refused as `InvalidData`.
    pub fn encode_deployment(&self, code: Vec<u8>, tokens: &[Token]) -> (r: Result<Vec<u8>, Error>)
        ensures
            match self.constructor {
                Some(c) => match r {
                    Ok(bytes) => have_shapes(values_of(tokens@), kinds_of(c.inputs@)) && bytes@
                        == code@ + encode_seq(values_of(tokens@)),
                    Err(e) => e == Error::InvalidData && !have_shapes(
                        values_of(tokens@),
                        kinds_of(c.inputs@),
                    ),
                },
                None => match r {
                    Ok(bytes) => tokens@.len() == 0 && bytes@ == code@,
                    Err(e) => e == Error::InvalidData && tokens@.len() != 0,
                },
            },
    {
        match &self.constructor {
            Some(c) => c.encode_input(code, tokens),
            None => {
                if tokens.len() == 0 {
                    Ok(code)
                } else {
                    Err(Error::InvalidData)
                }
            },
        }
    }

    /// Reads a log by the first event of the given name: `InvalidName` where
    /// there is none, else as [`Event::parse_log`] gives it.
    pub fn parse_log(&self, name: &str, log: RawLog) -> (r: Result<Log, Error>)
        ensures
            match place_of(event_names(self.events@), name@, 0) {
                None => r == Err::<Log, Error>(Error::InvalidName),
                Some(i) => {
                    let ev = self.events@[i as int];
                    let told = parsed_log(
                        ev.inputs@,
                        ev.anonymous,
                        words_of(log.topics@),
                        log.data@,
                    );
                    match r {
                        Ok(parsed) => told == Ok::<Seq<(Seq<char>, Logged)>, Error>(
                            entries_of(parsed.params@),
                        ),
                        Err(e) => told == Err::<Seq<(Seq<char>, Logged)>, Error>(e),
                    }
                },
            },
    {
        match self.event(name) {
            Ok(ev) => ev.parse_log(log),
            Err(e) => Err(e),
        }
    }

    /// What is to be handed to the transport for the first function of the
    /// given name with the given arguments: the payload of the call, to be
    /// executed read only where the function is constant, else as a
    /// transaction. `InvalidName` where there is no such function;
    /// `InvalidData` where the arguments do not fit.
    pub fn request(&self, name: &str, tokens: &[Token]) -> (r: Result<Request, Error>)
        ensures
            match place_of(function_names(self.functions@), name@, 0) {
                None => r == Err::<Request, Error>(Error::InvalidName),
                Some(i) => {
                    let f = self.functions@[i as int];
                    match r {
                        Ok(request) => have_shapes(values_of(tokens@), kinds_of(f.inputs@))
                            && request.payload@ == selector_of(f.name@, kinds_of(f.inputs@))
                            + encode_seq(values_of(tokens@)) && request.mode == if f.constant {
                            Mode::Call
                        } else {
                            Mode::Transact
                        },
                        Err(e) => e == Error::InvalidData && !have_shapes(
                            values_of(tokens@),
                            kinds_of(f.inputs@),
                        ),
                    }
                },
            },
    {
        match self.function(name) {
            Ok(f) => match f.encode_input(tokens) {
                Ok(payload) => Ok(
                    Request {
                        mode: if f.constant {
                            Mode::Call
                        } else {
                            Mode::Transact
                        },
                        payload,
                    },
                ),
                Err(e) => Err(e),
            },
            Err(e) => Err(e),
        }
    }

    /// What the transport's answer to a request for the first function of the
    /// given name holds: the outputs where the function is constant, read from
    /// `data`; nothing where it is not, whatever `data` holds. `InvalidName`
    /// where there is no such function.
    pub fn reply(&self, name: &str, data: &[u8]) -> (r: Result<Vec<Token>, Error>)
        ensures
            match place_of(function_names(self.functions@), name@, 0) {
                None => r == Err::<Vec<Token>, Error>(Error::InvalidName),
                Some(i) => {
                    let f = self.functions@[i as int];
                    if f.constant {
                        tokens_outcome(r) == decode_seq(kinds_of(f.outputs@), data@)
                    } else {
                        tokens_outcome(r) == Ok::<Seq<Value>, Error>(Seq::empty())
                    }
                },
            },
    {
        match self.function(name) {
            Ok(f) => {
                if f.constant {
                    f.decode_output(data)
                } else {
                    let nothing: Vec<Token> = Vec::new();
                    assert(values_of(nothing@) =~= Seq::empty());
                    Ok(nothing)
                }
            },
            Err(e) => Err(e),
        }
    }
}

/// The address of a deployed contract, as the transport's answer to a
/// deployment holds it: one encoded address. Fails as [`decode`] does.
pub fn deployed_address(data: &[u8]) -> (r: Result<[u8; 20], Error>)
    ensures
        match decode_seq(seq![ParamType::Address], data@) {
            Ok(values) => r is Ok && values == seq![Value::Address(r->Ok_0@)],
            Err(e) => r == Err::<[u8; 20], Error>(e),
        },
{
    let mut kinds: Vec<ParamType> = Vec::new();
    kinds.push(ParamType::Address);
    assert(kinds@ =~= seq![ParamType::Address]);
    match decode(kinds.as_slice(), data) {
        Err(e) => Err(e),
        Ok(mut tokens) => {
            proof {
                crate::decoder::lemma_decode_items_len(kinds@, data@, 1);
                crate::decoder::lemma_decode_items_shapes(kinds@, data@, 1);
            }
            let ghost read = values_of(tokens@);
            assert(read[0] == tokens@[0]@);
            match tokens.pop() {
                Some(Token::Address(a)) => {
                    assert(read =~= seq![Value::Address(a@)]);
                    Ok(a)
                },
                _ => Err(Error::InvalidData),
            }
        },
    }
}

} // verus!
