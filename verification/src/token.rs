//! Values, and how they match shapes.

use vstd::prelude::*;
use crate::errors::Error;
use crate::param_type::ParamType;

verus! {

/// A value.
#[derive(Debug, PartialEq, Eq)]
pub enum Token {
    /// A 20-byte account address.
    Address([u8; 20]),
    /// A byte sequence of a fixed length.
    FixedBytes(Vec<u8>),
    /// A byte sequence of any length.
    Bytes(Vec<u8>),
    /// A signed 256-bit integer: its two's complement, most significant byte first.
    Int([u8; 32]),
    /// An unsigned 256-bit integer, most significant byte first.
    Uint([u8; 32]),
    /// A boolean.
    Bool(bool),
    /// Text.
    String(String),
    /// A fixed number of values.
    FixedArray(Vec<Token>),
    /// Any number of values.
    Array(Vec<Token>),
}

/// What a [`Token`] holds, as mathematics.
pub enum Value {
    Address(Seq<u8>),
    FixedBytes(Seq<u8>),
    Bytes(Seq<u8>),
    Int(Seq<u8>),
    Uint(Seq<u8>),
    Bool(bool),
    String(Seq<char>),
    FixedArray(Seq<Value>),
    Array(Seq<Value>),
}

/// The values that a sequence of tokens holds.
pub open spec fn values_of(tokens: Seq<Token>) -> Seq<Value>
    decreases tokens,
{
    Seq::new(
        tokens.len(),
        |i: int|
            if 0 <= i < tokens.len() {
                tokens[i].view()
            } else {
                Value::Bool(false)
            },
    )
}

impl View for Token {
    type V = Value;

    open spec fn view(&self) -> Value
        decreases self,
    {
        match self {
            Token::Address(a) => Value::Address(a@),
            Token::FixedBytes(b) => Value::FixedBytes(b@),
            Token::Bytes(b) => Value::Bytes(b@),
            Token::Int(w) => Value::Int(w@),
            Token::Uint(w) => Value::Uint(w@),
            Token::Bool(b) => Value::Bool(*b),
            Token::String(s) => Value::String(s@),
            Token::FixedArray(ts) => Value::FixedArray(values_of(ts@)),
            Token::Array(ts) => Value::Array(values_of(ts@)),
        }
    }
}

/// Whether a value has the given shape. A fixed byte sequence may be shorter
/// than its shape says; a fixed array has exactly as many elements as its
/// shape says.
pub open spec fn has_shape(v: Value, t: ParamType) -> bool
    decreases v,
{
    match v {
        Value::Address(_) => t is Address,
        Value::Bytes(_) => t is Bytes,
        Value::Int(_) => t is Int,
        Value::Uint(_) => t is Uint,
        Value::Bool(_) => t is Bool,
        Value::String(_) => t is String,
        Value::FixedBytes(b) => match t {
            ParamType::FixedBytes(size) => b.len() <= size,
            _ => false,
        },
        Value::Array(vs) => match t {
            ParamType::Array(inner) => forall|i: int|
                0 <= i < vs.len() ==> has_shape(#[trigger] vs[i], *inner),
            _ => false,
        },
        Value::FixedArray(vs) => match t {
            ParamType::FixedArray(inner, size) => vs.len() == size && forall|i: int|
                0 <= i < vs.len() ==> has_shape(#[trigger] vs[i], *inner),
            _ => false,
        },
    }
}

/// Whether each value has the shape at its place, and there are as many values
/// as shapes.
pub open spec fn have_shapes(vs: Seq<Value>, ts: Seq<ParamType>) -> bool {
    vs.len() == ts.len() && forall|i: int|
        0 <= i < vs.len() ==> has_shape(#[trigger] vs[i], ts[i])
}

impl Token {
    /// A copy of this value.
    pub fn duplicate(&self) -> (r: Token)
        ensures
            r@ == self@,
        decreases *self,
    {
        match self {
            Token::Address(a) => Token::Address(*a),
            Token::FixedBytes(b) => Token::FixedBytes(vstd::slice::slice_to_vec(b.as_slice())),
            Token::Bytes(b) => Token::Bytes(vstd::slice::slice_to_vec(b.as_slice())),
            Token::Int(w) => Token::Int(*w),
            Token::Uint(w) => Token::Uint(*w),
            Token::Bool(b) => Token::Bool(*b),
            Token::String(s) => Token::String(s.clone()),
            Token::FixedArray(tokens) => Token::FixedArray(Token::duplicate_all(tokens)),
            Token::Array(tokens) => Token::Array(Token::duplicate_all(tokens)),
        }
    }

    /// Copies of the values.
    fn duplicate_all(tokens: &Vec<Token>) -> (r: Vec<Token>)
        ensures
            values_of(r@) == values_of(tokens@),
        decreases *tokens,
    {
        let mut copies: Vec<Token> = Vec::new();
        let mut i: usize = 0;
        while i < tokens.len()
            invariant
                i <= tokens@.len(),
                copies@.len() == i,
                forall|j: int| 0 <= j < i ==> (#[trigger] copies@[j])@ == tokens@[j]@,
            decreases tokens@.len() - i,
        {
            copies.push(tokens[i].duplicate());
            i += 1;
        }
        assert(values_of(copies@) =~= values_of(tokens@));
        copies
    }

    /// The address that this value holds; `TypeMismatch` where it holds
    /// something else.
    pub fn to_address(self) -> (r: Result<[u8; 20], Error>)
        ensures
            r == match self {
                Token::Address(a) => Ok::<[u8; 20], Error>(a),
                _ => Err::<[u8; 20], Error>(Error::TypeMismatch),
            },
    {
        match self {
            Token::Address(a) => Ok(a),
            _ => Err(Error::TypeMismatch),
        }
    }

    /// The fixed byte sequence that this value holds; `TypeMismatch` where it
    /// holds something else.
    pub fn to_fixed_bytes(self) -> (r: Result<Vec<u8>, Error>)
        ensures
            r == match self {
                Token::FixedBytes(b) => Ok::<Vec<u8>, Error>(b),
                _ => Err::<Vec<u8>, Error>(Error::TypeMismatch),
            },
    {
        match self {
            Token::FixedBytes(b) => Ok(b),
            _ => Err(Error::TypeMismatch),
        }
    }

    /// The byte sequence that this value holds; `TypeMismatch` where it holds
    /// something else.
    pub fn to_bytes(self) -> (r: Result<Vec<u8>, Error>)
        ensures
            r == match self {
                Token::Bytes(b) => Ok::<Vec<u8>, Error>(b),
                _ => Err::<Vec<u8>, Error>(Error::TypeMismatch),
            },
    {
        match self {
            Token::Bytes(b) => Ok(b),
            _ => Err(Error::TypeMismatch),
        }
    }

    /// The signed integer that this value holds; `TypeMismatch` where it holds
    /// something else.
    pub fn to_int(self) -> (r: Result<[u8; 32], Error>)
        ensures
            r == match self {
                Token::Int(w) => Ok::<[u8; 32], Error>(w),
                _ => Err::<[u8; 32], Error>(Error::TypeMismatch),
            },
    {
        match self {
            Token::Int(w) => Ok(w),
            _ => Err(Error::TypeMismatch),
        }
    }

    /// The unsigned integer that this value holds; `TypeMismatch` where it
    /// holds something else.
    pub fn to_uint(self) -> (r: Result<[u8; 32], Error>)
        ensures
            r == match self {
                Token::Uint(w) => Ok::<[u8; 32], Error>(w),
                _ => Err::<[u8; 32], Error>(Error::TypeMismatch),
            },
    {
        match self {
            Token::Uint(w) => Ok(w),
            _ => Err(Error::TypeMismatch),
        }
    }

    /// The boolean that this value holds; `TypeMismatch` where it holds
    /// something else.
    pub fn to_bool(self) -> (r: Result<bool, Error>)
        ensures
            r == match self {
                Token::Bool(b) => Ok::<bool, Error>(b),
                _ => Err::<bool, Error>(Error::TypeMismatch),
            },
    {
        match self {
            Token::Bool(b) => Ok(b),
            _ => Err(Error::TypeMismatch),
        }
    }

    /// The text that this value holds; `TypeMismatch` where it holds something
    /// else.
    pub fn to_string(self) -> (r: Result<String, Error>)
        ensures
            r == match self {
                Token::String(s) => Ok::<String, Error>(s),
                _ => Err::<String, Error>(Error::TypeMismatch),
            },
    {
        match self {
            Token::String(s) => Ok(s),
            _ => Err(Error::TypeMismatch),
        }
    }

    /// The elements that this value holds, where it is an array or a fixed
    /// array; `TypeMismatch` where it is neither.
    pub fn to_array(self) -> (r: Result<Vec<Token>, Error>)
        ensures
            r == match self {
                Token::Array(tokens) => Ok::<Vec<Token>, Error>(tokens),
                Token::FixedArray(tokens) => Ok::<Vec<Token>, Error>(tokens),
                _ => Err::<Vec<Token>, Error>(Error::TypeMismatch),
            },
    {
        match self {
            Token::Array(tokens) => Ok(tokens),
            Token::FixedArray(tokens) => Ok(tokens),
            _ => Err(Error::TypeMismatch),
        }
    }

    /// Whether this value has the given shape.
    pub fn type_check(&self, param_type: &ParamType) -> (r: bool)
        ensures
            r == has_shape(self@, *param_type),
        decreases *self,
    {
        match self {
            Token::Address(_) => match param_type {
                ParamType::Address => true,
                _ => false,
            },
            Token::Bytes(_) => match param_type {
                ParamType::Bytes => true,
                _ => false,
            },
            Token::Int(_) => match param_type {
                ParamType::Int(_) => true,
                _ => false,
            },
            Token::Uint(_) => match param_type {
                ParamType::Uint(_) => true,
                _ => false,
            },
            Token::Bool(_) => match param_type {
                ParamType::Bool => true,
                _ => false,
            },
            Token::String(_) => match param_type {
                ParamType::String => true,
                _ => false,
            },
            Token::FixedBytes(bytes) => match param_type {
                ParamType::FixedBytes(size) => bytes.len() <= *size,
                _ => false,
            },
            Token::Array(tokens) => match param_type {
                ParamType::Array(inner) => {
                    assert(self@->Array_0 == values_of(tokens@));
                    Token::all_check(tokens, inner)
                },
                _ => false,
            },
            Token::FixedArray(tokens) => match param_type {
                ParamType::FixedArray(inner, size) => {
                    assert(self@->FixedArray_0 == values_of(tokens@));
                    tokens.len() == *size && Token::all_check(tokens, inner)
                },
                _ => false,
            },
        }
    }

    /// Whether every one of `tokens` has the shape `inner`.
    fn all_check(tokens: &Vec<Token>, inner: &ParamType) -> (r: bool)
        ensures
            r == forall|i: int|
                0 <= i < tokens@.len() ==> has_shape(#[trigger] values_of(tokens@)[i], *inner),
        decreases *tokens,
    {
        let mut i: usize = 0;
        while i < tokens.len()
            invariant
                i <= tokens@.len(),
                forall|j: int| 0 <= j < i ==> has_shape(#[trigger] values_of(tokens@)[j], *inner),
            decreases tokens@.len() - i,
        {
            if !tokens[i].type_check(inner) {
                assert(!has_shape(values_of(tokens@)[i as int], *inner));
                return false;
            }
            i += 1;
        }
        true
    }

    /// Whether there are as many values as shapes, and each value has the shape
    /// at its place.
    pub fn types_check(tokens: &[Token], param_types: &[ParamType]) -> (r: bool)
        ensures
            r == have_shapes(values_of(tokens@), param_types@),
    {
        if tokens.len() != param_types.len() {
            return false;
        }
        let mut i: usize = 0;
        while i < tokens.len()
            invariant
                i <= tokens@.len(),
                tokens@.len() == param_types@.len(),
                forall|j: int|
                    0 <= j < i ==> has_shape(#[trigger] values_of(tokens@)[j], param_types@[j]),
            decreases tokens@.len() - i,
        {
            if !tokens[i].type_check(&param_types[i]) {
                assert(!has_shape(values_of(tokens@)[i as int], param_types@[i as int]));
                return false;
            }
            i += 1;
        }
        true
    }
}

impl Clone for Token {
    fn clone(&self) -> (r: Token)
        ensures
            r@ == self@,
    {
        self.duplicate()
    }
}

} // verus!
