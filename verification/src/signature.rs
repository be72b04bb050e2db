//! Canonical names of shapes, canonical signatures, and their hashes.

use vstd::prelude::*;
use vstd::string::*;
use vstd::utf8::encode_utf8;
use crate::param_type::ParamType;

verus! {

/// `String::push` of std appends one character.
pub assume_specification[ std::string::String::push ](text: &mut std::string::String, ch: char)
    ensures
        final(text)@ == old(text)@.push(ch),
;

/// The decimal digit for a number below ten.
pub open spec fn digit(d: nat) -> char {
    if d == 0 {
        '0'
    } else if d == 1 {
        '1'
    } else if d == 2 {
        '2'
    } else if d == 3 {
        '3'
    } else if d == 4 {
        '4'
    } else if d == 5 {
        '5'
    } else if d == 6 {
        '6'
    } else if d == 7 {
        '7'
    } else if d == 8 {
        '8'
    } else {
        '9'
    }
}

/// A number in decimal, without leading zeros.
pub open spec fn decimal(n: nat) -> Seq<char>
    decreases n,
{
    if n < 10 {
        seq![digit(n)]
    } else {
        decimal(n / 10).push(digit(n % 10))
    }
}

/// The canonical name of a shape, as signatures spell it: `uint256`,
/// `bytes32[]`, `address[3]`.
pub open spec fn canonical_name(t: ParamType) -> Seq<char>
    decreases t,
{
    match t {
        ParamType::Address => "address"@,
        ParamType::Bytes => "bytes"@,
        ParamType::FixedBytes(size) => "bytes"@ + decimal(size as nat),
        ParamType::Int(bits) => "int"@ + decimal(bits as nat),
        ParamType::Uint(bits) => "uint"@ + decimal(bits as nat),
        ParamType::Bool => "bool"@,
        ParamType::String => "string"@,
        ParamType::FixedArray(inner, size) => canonical_name(*inner) + "["@ + decimal(size as nat)
            + "]"@,
        ParamType::Array(inner) => canonical_name(*inner) + "[]"@,
    }
}

/// The canonical names of the first `n` shapes, with a comma between each two.
pub open spec fn canonical_names(types: Seq<ParamType>, n: nat) -> Seq<char>
    decreases n,
{
    if n == 0 || n > types.len() {
        Seq::empty()
    } else if n == 1 {
        canonical_name(types[0])
    } else {
        canonical_names(types, (n - 1) as nat) + ","@ + canonical_name(types[n - 1])
    }
}

/// The canonical signature: the name, and in round brackets the canonical
/// names of the shapes with a comma between each two.
pub open spec fn signature(name: Seq<char>, types: Seq<ParamType>) -> Seq<char> {
    name + "("@ + canonical_names(types, types.len()) + ")"@
}

fn digit_char(d: usize) -> (c: char)
    requires
        d < 10,
    ensures
        c == digit(d as nat),
{
    if d == 0 {
        '0'
    } else if d == 1 {
        '1'
    } else if d == 2 {
        '2'
    } else if d == 3 {
        '3'
    } else if d == 4 {
        '4'
    } else if d == 5 {
        '5'
    } else if d == 6 {
        '6'
    } else if d == 7 {
        '7'
    } else if d == 8 {
        '8'
    } else {
        '9'
    }
}

/// Appends a number in decimal.
pub fn push_decimal(out: &mut String, n: usize)
    ensures
        final(out)@ == old(out)@ + decimal(n as nat),
    decreases n,
{
    if n >= 10 {
        push_decimal(out, n / 10);
    }
    out.push(digit_char(n % 10));
    assert(out@ =~= old(out)@ + decimal(n as nat));
}

/// Appends the canonical name of a shape.
pub fn push_canonical(out: &mut String, t: &ParamType)
    ensures
        final(out)@ == old(out)@ + canonical_name(*t),
    decreases *t,
{
    match t {
        ParamType::Address => out.append("address"),
        ParamType::Bytes => out.append("bytes"),
        ParamType::FixedBytes(size) => {
            out.append("bytes");
            push_decimal(out, *size);
        },
        ParamType::Int(bits) => {
            out.append("int");
            push_decimal(out, *bits);
        },
        ParamType::Uint(bits) => {
            out.append("uint");
            push_decimal(out, *bits);
        },
        ParamType::Bool => out.append("bool"),
        ParamType::String => out.append("string"),
        ParamType::FixedArray(inner, size) => {
            push_canonical(out, inner);
            out.append("[");
            push_decimal(out, *size);
            out.append("]");
        },
        ParamType::Array(inner) => {
            push_canonical(out, inner);
            out.append("[]");
        },
    }
    assert(out@ =~= old(out)@ + canonical_name(*t));
}

/// The canonical name of a shape.
pub fn write_type(t: &ParamType) -> (name: String)
    ensures
        name@ == canonical_name(*t),
{
    let mut out = String::new();
    push_canonical(&mut out, t);
    assert(out@ =~= canonical_name(*t));
    out
}

/// The canonical signature of a function or an event.
pub fn signature_text(name: &str, types: &[ParamType]) -> (text: String)
    ensures
        text@ == signature(name@, types@),
{
    let mut out = String::new();
    out.append(name);
    out.append("(");
    let ghost opening = out@;
    assert(opening =~= name@ + "("@);
    let mut i: usize = 0;
    while i < types.len()
        invariant
            i <= types@.len(),
            out@ == opening + canonical_names(types@, i as nat),
        decreases types@.len() - i,
    {
        if i > 0 {
            out.append(",");
        }
        push_canonical(&mut out, &types[i]);
        i += 1;
        assert(out@ =~= opening + canonical_names(types@, i as nat));
    }
    out.append(")");
    out
}

/// What Keccak-256 gives for the bytes: a function of the bytes alone.
pub uninterp spec fn keccak256_of(data: Seq<u8>) -> Seq<u8>;

/// `tiny_keccak::keccak256`: the 32 bytes of the Keccak-256 hash of `data`.
#[verifier::external_body]
pub(crate) fn keccak256(data: &[u8]) -> (hash: [u8; 32])
    ensures
        hash@ == keccak256_of(data@),
{
    tiny_keccak::keccak256(data)
}

/// The hash of the canonical signature of `name` with `types`.
pub open spec fn signature_hash(name: Seq<char>, types: Seq<ParamType>) -> Seq<u8> {
    keccak256_of(encode_utf8(signature(name, types)))
}

/// The selector of `name` with `types`: the first four bytes of the hash of
/// the canonical signature.
pub open spec fn selector_of(name: Seq<char>, types: Seq<ParamType>) -> Seq<u8> {
    signature_hash(name, types).subrange(0, 4)
}

/// The first four bytes of a hash.
pub fn selector_of_hash(hash: &[u8; 32]) -> (selector: [u8; 4])
    ensures
        selector@ == hash@.subrange(0, 4),
{
    let selector: [u8; 4] = [hash[0], hash[1], hash[2], hash[3]];
    assert(selector@ =~= hash@.subrange(0, 4));
    selector
}

/// The hash of the canonical signature.
pub fn long_signature(name: &str, params: &[ParamType]) -> (hash: [u8; 32])
    ensures
        hash@ == signature_hash(name@, params@),
{
    let text = signature_text(name, params);
    keccak256(text.as_str().as_bytes())
}

/// The selector of a function: the first four bytes of the hash of its
/// canonical signature.
pub fn short_signature(name: &str, params: &[ParamType]) -> (selector: [u8; 4])
    ensures
        selector@ == selector_of(name@, params@),
{
    let hash = long_signature(name, params);
    selector_of_hash(&hash)
}

} // verus!
