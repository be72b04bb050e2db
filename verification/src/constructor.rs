//! The constructor of a contract: building the deployment payload.

use vstd::prelude::*;
use crate::encoder::{encode, encode_seq};
use crate::errors::Error;
use crate::function::{copy_params, kinds_of, param_types, Param};
use crate::token::{have_shapes, values_of, Token};
use crate::word::push_bytes;

verus! {

/// The constructor of a contract.
#[derive(Debug, PartialEq, Eq)]
pub struct Constructor {
    /// What it takes.
    pub inputs: Vec<Param>,
}

impl Constructor {
    /// The encoded arguments of a deployment. They are refused as `InvalidData`
    /// unless each has the shape of the input at its place and none is missing
    /// or left over. A constructor has no selector.
    pub fn encode_call(&self, tokens: Vec<Token>) -> (r: Result<Vec<u8>, Error>)
        ensures
            match r {
                Ok(bytes) => have_shapes(values_of(tokens@), kinds_of(self.inputs@)) && bytes@
                    == encode_seq(values_of(tokens@)),
                Err(e) => e == Error::InvalidData && !have_shapes(
                    values_of(tokens@),
                    kinds_of(self.inputs@),
                ),
            },
    {
        let kinds = param_types(self.inputs.as_slice());
        if Token::types_check(tokens.as_slice(), kinds.as_slice()) {
            Ok(encode(tokens.as_slice()))
        } else {
            Err(Error::InvalidData)
        }
    }

    /// The payload of a deployment: the contract's code, then the encoded
    /// arguments. The arguments are refused as in [`Constructor::encode_call`].
    pub fn encode_input(&self, code: Vec<u8>, tokens: &[Token]) -> (r: Result<Vec<u8>, Error>)
        ensures
            match r {
                Ok(bytes) => have_shapes(values_of(tokens@), kinds_of(self.inputs@)) && bytes@
                    == code@ + encode_seq(values_of(tokens@)),
                Err(e) => e == Error::InvalidData && !have_shapes(
                    values_of(tokens@),
                    kinds_of(self.inputs@),
                ),
            },
    {
        let kinds = param_types(self.inputs.as_slice());
        if !Token::types_check(tokens, kinds.as_slice()) {
            return Err(Error::InvalidData);
        }
        let encoded = encode(tokens);
        let mut bytes = code;
        push_bytes(&mut bytes, encoded.as_slice());
        Ok(bytes)
    }
}

impl Clone for Constructor {
    fn clone(&self) -> (r: Constructor)
        ensures
            r.inputs@ == self.inputs@,
    {
        Constructor { inputs: copy_params(self.inputs.as_slice()) }
    }
}

} // verus!
