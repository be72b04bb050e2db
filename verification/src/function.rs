//! Functions of a contract: building calls and reading what they return.

use vstd::prelude::*;
use crate::decoder::{decode, decode_seq, tokens_outcome};
use crate::encoder::{encode, encode_seq};
use crate::errors::Error;
use crate::param_type::ParamType;
use crate::signature::{selector_of, short_signature};
use crate::token::{have_shapes, values_of, Token};
use crate::word::push_bytes;

verus! {

/// A declared parameter.
#[derive(Debug, PartialEq, Eq)]
pub struct Param {
    /// Its name.
    pub name: String,
    /// Its shape.
    pub kind: ParamType,
}

/// The shapes of declared parameters, in order.
pub open spec fn kinds_of(params: Seq<Param>) -> Seq<ParamType> {
    Seq::new(params.len(), |i: int| params[i].kind)
}

/// The shapes of declared parameters, in order.
pub fn param_types(params: &[Param]) -> (kinds: Vec<ParamType>)
    ensures
        kinds@ == kinds_of(params@),
{
    let mut kinds: Vec<ParamType> = Vec::new();
    let mut i: usize = 0;
    while i < params.len()
        invariant
            i <= params@.len(),
            kinds@.len() == i,
            forall|j: int| 0 <= j < i ==> kinds@[j] == params@[j].kind,
        decreases params@.len() - i,
    {
        kinds.push(params[i].kind.clone());
        i += 1;
    }
    assert(kinds@ =~= kinds_of(params@));
    kinds
}

/// A function of a contract.
#[derive(Debug, PartialEq, Eq)]
pub struct Function {
    /// Its name.
    pub name: String,
    /// What it takes.
    pub inputs: Vec<Param>,
    /// What it returns.
    pub outputs: Vec<Param>,
    /// Whether a call leaves the state as it was.
    pub constant: bool,
}

impl Function {
    /// The selector: the first four bytes of the hash of the canonical
    /// signature, which is the name and the shapes of the inputs.
    pub fn selector(&self) -> (r: [u8; 4])
        ensures
            r@ == selector_of(self.name@, kinds_of(self.inputs@)),
    {
        let kinds = param_types(self.inputs.as_slice());
        short_signature(self.name.as_str(), kinds.as_slice())
    }

    /// The payload of a call with the given arguments: the selector, then the
    /// encoded arguments. The arguments are refused as `InvalidData` unless
    /// each has the shape of the input at its place and none is missing or
    /// left over.
    pub fn encode_input(&self, tokens: &[Token]) -> (r: Result<Vec<u8>, Error>)
        ensures
            match r {
                Ok(bytes) => have_shapes(values_of(tokens@), kinds_of(self.inputs@)) && bytes@
                    == selector_of(self.name@, kinds_of(self.inputs@)) + encode_seq(
                    values_of(tokens@),
                ),
                Err(e) => e == Error::InvalidData && !have_shapes(
                    values_of(tokens@),
                    kinds_of(self.inputs@),
                ),
            },
    {
        let kinds = param_types(self.inputs.as_slice());
        if !Token::types_check(tokens, kinds.as_slice()) {
            return Err(Error::InvalidData);
        }
        let selector = short_signature(self.name.as_str(), kinds.as_slice());
        let encoded = encode(tokens);
        let mut bytes: Vec<u8> = Vec::new();
        push_bytes(&mut bytes, selector.as_slice());
        push_bytes(&mut bytes, encoded.as_slice());
        assert(bytes@ =~= selector@ + encoded@);
        Ok(bytes)
    }

    /// The values that a call returned, read by the shapes of the outputs: no
    /// value where the function returns nothing, else one for each output in
    /// order.
    pub fn decode_output(&self, data: &[u8]) -> (r: Result<Vec<Token>, Error>)
        ensures
            tokens_outcome(r) == decode_seq(kinds_of(self.outputs@), data@),
    {
        let kinds = param_types(self.outputs.as_slice());
        decode(kinds.as_slice(), data)
    }
}

impl Clone for Param {
    fn clone(&self) -> (r: Param)
        ensures
            r == *self,
    {
        Param { name: self.name.clone(), kind: self.kind.clone() }
    }
}

/// Copies of the parameters, in order.
pub fn copy_params(params: &[Param]) -> (copies: Vec<Param>)
    ensures
        copies@ == params@,
{
    let mut copies: Vec<Param> = Vec::new();
    let mut i: usize = 0;
    while i < params.len()
        invariant
            i <= params@.len(),
            copies@.len() == i,
            forall|j: int| 0 <= j < i ==> copies@[j] == params@[j],
        decreases params@.len() - i,
    {
        copies.push(params[i].clone());
        i += 1;
    }
    assert(copies@ =~= params@);
    copies
}

impl Clone for Function {
    fn clone(&self) -> (r: Function)
        ensures
            r.name == self.name,
            r.inputs@ == self.inputs@,
            r.outputs@ == self.outputs@,
            r.constant == self.constant,
    {
        Function {
            name: self.name.clone(),
            inputs: copy_params(self.inputs.as_slice()),
            outputs: copy_params(self.outputs.as_slice()),
            constant: self.constant,
        }
    }
}

} // verus!
