//! From bytes to values.

use vstd::prelude::*;
use vstd::slice::slice_subrange;
use vstd::utf8::{decode_utf8, encode_utf8, valid_utf8};
use crate::errors::Error;
use crate::param_type::{padded_len, ParamType};
use crate::token::{has_shape, have_shapes, values_of, Token, Value};
use crate::word::{be_value, read_word, zeros};

verus! {

/// The bytes that follow a length word at the start of `region`, where the
/// region holds them and their padding.
pub open spec fn decode_bytes(region: Seq<u8>) -> Result<Seq<u8>, Error> {
    if region.len() < 32 {
        Err(Error::InvalidData)
    } else {
        let len = be_value(region.subrange(0, 32));
        if 32 + padded_len(len) > region.len() {
            Err(Error::InvalidData)
        } else {
            Ok(region.subrange(32, 32 + len as int))
        }
    }
}

/// The value of a dynamic shape whose tail begins `region`, which runs to the
/// end of the data. An array cannot have more elements than bytes follow its
/// length, and where its elements take no room in a head it must be empty.
pub open spec fn decode_tail(t: ParamType, region: Seq<u8>) -> Result<Value, Error>
    decreases t, 0nat, 0nat,
{
    match t {
        ParamType::Bytes => match decode_bytes(region) {
            Ok(bytes) => Ok(Value::Bytes(bytes)),
            Err(e) => Err(e),
        },
        ParamType::String => match decode_bytes(region) {
            Ok(bytes) => if valid_utf8(bytes) {
                Ok(Value::String(decode_utf8(bytes)))
            } else {
                Err(Error::Utf8Error)
            },
            Err(e) => Err(e),
        },
        ParamType::Array(inner) => if region.len() < 32 {
            Err(Error::InvalidData)
        } else {
            let count = be_value(region.subrange(0, 32));
            if count > region.len() - 32 || (count > 0 && inner.head_width() == 0) {
                Err(Error::InvalidData)
            } else {
                match decode_repeat(*inner, region.skip(32), count) {
                    Ok(vs) => Ok(Value::Array(vs)),
                    Err(e) => Err(e),
                }
            }
        },
        ParamType::FixedArray(inner, size) => match decode_repeat(*inner, region, size as nat) {
            Ok(vs) => Ok(Value::FixedArray(vs)),
            Err(e) => Err(e),
        },
        _ => Err(Error::InvalidData),
    }
}

/// The value of shape `t` whose head stands at `at` in `data`. Offsets in
/// `data` count from its first byte.
pub open spec fn decode_param(t: ParamType, data: Seq<u8>, at: nat) -> Result<Value, Error>
    decreases t, 1nat, 0nat,
{
    let a = at as int;
    if at + t.head_width() > data.len() {
        Err(Error::InvalidData)
    } else if t.dynamic() {
        let offset = be_value(data.subrange(a, a + 32));
        if offset > data.len() {
            Err(Error::InvalidData)
        } else {
            decode_tail(t, data.skip(offset as int))
        }
    } else {
        match t {
            ParamType::Address => Ok(Value::Address(data.subrange(a + 12, a + 32))),
            ParamType::Int(_) => Ok(Value::Int(data.subrange(a, a + 32))),
            ParamType::Uint(_) => Ok(Value::Uint(data.subrange(a, a + 32))),
            ParamType::Bool => if data.subrange(a, a + 31) == zeros(31) && data[a + 31]
                <= 1 {
                Ok(Value::Bool(data[a + 31] == 1))
            } else {
                Err(Error::InvalidData)
            },
            ParamType::FixedBytes(size) => Ok(
                Value::FixedBytes(data.subrange(a, a + size)),
            ),
            ParamType::FixedArray(inner, size) => match decode_repeat(
                *inner,
                data.skip(a),
                size as nat,
            ) {
                Ok(vs) => Ok(Value::FixedArray(vs)),
                Err(e) => Err(e),
            },
            _ => Err(Error::InvalidData),
        }
    }
}

/// The first `k` values of shape `inner` whose heads stand one after another
/// from the start of `region`; the first failure, if one of them fails.
pub open spec fn decode_repeat(inner: ParamType, region: Seq<u8>, k: nat) -> Result<
    Seq<Value>,
    Error,
>
    decreases inner, 2nat, k,
{
    if k == 0 {
        Ok(Seq::empty())
    } else {
        match decode_repeat(inner, region, (k - 1) as nat) {
            Err(e) => Err(e),
            Ok(before) => match decode_param(inner, region, (k - 1) as nat * inner.head_width()) {
                Err(e) => Err(e),
                Ok(v) => Ok(before.push(v)),
            },
        }
    }
}

/// The number of bytes that the heads of the first `n` shapes take.
pub open spec fn heads_width(types: Seq<ParamType>, n: nat) -> nat
    decreases n,
{
    if n == 0 || n > types.len() {
        0
    } else {
        heads_width(types, (n - 1) as nat) + types[n - 1].head_width()
    }
}

/// The values of the first `n` shapes, whose heads stand one after another
/// from the start of `data`; the first failure, if one of them fails.
pub open spec fn decode_items(types: Seq<ParamType>, data: Seq<u8>, n: nat) -> Result<
    Seq<Value>,
    Error,
>
    decreases n,
{
    if n == 0 || n > types.len() {
        Ok(Seq::empty())
    } else {
        match decode_items(types, data, (n - 1) as nat) {
            Err(e) => Err(e),
            Ok(before) => match decode_param(
                types[n - 1],
                data,
                heads_width(types, (n - 1) as nat),
            ) {
                Err(e) => Err(e),
                Ok(v) => Ok(before.push(v)),
            },
        }
    }
}

/// What `data` holds when read as values of the shapes `types`: nothing where
/// it is too short for their heads.
pub open spec fn decode_seq(types: Seq<ParamType>, data: Seq<u8>) -> Result<Seq<Value>, Error> {
    if heads_width(types, types.len()) > data.len() {
        Err(Error::InvalidData)
    } else {
        decode_items(types, data, types.len())
    }
}

/// A decoded value or a failure, as mathematics.
pub open spec fn token_outcome(r: Result<Token, Error>) -> Result<Value, Error> {
    match r {
        Ok(token) => Ok(token@),
        Err(e) => Err(e),
    }
}

/// Decoded values or a failure, as mathematics.
pub open spec fn tokens_outcome(r: Result<Vec<Token>, Error>) -> Result<Seq<Value>, Error> {
    match r {
        Ok(tokens) => Ok(values_of(tokens@)),
        Err(e) => Err(e),
    }
}

/// The heads of more shapes take at least as much room.
pub proof fn lemma_heads_width_grows(types: Seq<ParamType>, k: nat, more: nat)
    requires
        k <= more <= types.len(),
    ensures
        heads_width(types, k) <= heads_width(types, more),
    decreases more,
{
    if k < more {
        lemma_heads_width_grows(types, k, (more - 1) as nat);
    }
}

/// Once one value has failed, the failure stands however many more are asked for.
pub proof fn lemma_decode_repeat_fails(inner: ParamType, region: Seq<u8>, k: nat, more: nat)
    requires
        k <= more,
        decode_repeat(inner, region, k) is Err,
    ensures
        decode_repeat(inner, region, more) == decode_repeat(inner, region, k),
    decreases more,
{
    if k < more {
        lemma_decode_repeat_fails(inner, region, k, (more - 1) as nat);
    }
}

/// Once one value has failed, the failure stands however many more are asked for.
pub proof fn lemma_decode_items_fails(types: Seq<ParamType>, data: Seq<u8>, k: nat, more: nat)
    requires
        k <= more <= types.len(),
        decode_items(types, data, k) is Err,
    ensures
        decode_items(types, data, more) == decode_items(types, data, k),
    decreases more,
{
    if k < more {
        lemma_decode_items_fails(types, data, k, (more - 1) as nat);
    }
}

/// Data too short for the heads of the shapes are refused as invalid.
pub proof fn lemma_short_data_is_invalid(types: Seq<ParamType>, data: Seq<u8>)
    requires
        data.len() < heads_width(types, types.len()),
    ensures
        decode_seq(types, data) == Err::<Seq<Value>, Error>(Error::InvalidData),
{
}

/// Where the shapes before the `i`-th are read without failure, and the `i`-th
/// is dynamic and its head holds an offset past the end of the data, the data
/// are refused as invalid.
pub proof fn lemma_offset_past_end_is_invalid(types: Seq<ParamType>, data: Seq<u8>, i: nat)
    requires
        i < types.len(),
        decode_items(types, data, i) is Ok,
        types[i as int].dynamic(),
        heads_width(types, i) + 32 <= data.len(),
        be_value(data.subrange(heads_width(types, i) as int, heads_width(types, i) as int + 32))
            > data.len(),
    ensures
        decode_seq(types, data) == Err::<Seq<Value>, Error>(Error::InvalidData),
{
    let at = heads_width(types, i);
    if heads_width(types, types.len()) <= data.len() {
        assert(decode_param(types[i as int], data, at) == Err::<Value, Error>(Error::InvalidData));
        assert(decode_items(types, data, i + 1) == Err::<Seq<Value>, Error>(Error::InvalidData));
        lemma_decode_items_fails(types, data, i + 1, types.len());
    }
}

/// Values that were read without failure are as many as were asked for.
pub proof fn lemma_decode_items_len(types: Seq<ParamType>, data: Seq<u8>, k: nat)
    requires
        k <= types.len(),
    ensures
        decode_items(types, data, k) is Ok ==> decode_items(types, data, k)->Ok_0.len() == k,
    decreases k,
{
    if k > 0 {
        lemma_decode_items_len(types, data, (k - 1) as nat);
    }
}

/// A value that was read from a tail has the shape that was asked for.
pub proof fn lemma_decode_tail_shape(t: ParamType, region: Seq<u8>)
    ensures
        decode_tail(t, region) is Ok ==> has_shape(decode_tail(t, region)->Ok_0, t),
    decreases t, 0nat, 0nat,
{
    match t {
        ParamType::Array(inner) => {
            if region.len() >= 32 {
                let count = be_value(region.subrange(0, 32));
                lemma_decode_repeat_shape(*inner, region.skip(32), count);
            }
        },
        ParamType::FixedArray(inner, size) => {
            lemma_decode_repeat_shape(*inner, region, size as nat);
        },
        _ => {},
    }
    if decode_tail(t, region) is Ok {
        let v = decode_tail(t, region)->Ok_0;
        match v {
            Value::Array(vs) => {
                assert(v->Array_0 == vs);
            },
            Value::FixedArray(vs) => {
                assert(v->FixedArray_0 == vs);
            },
            _ => {},
        }
    }
}

/// A value that was read has the shape that was asked for.
pub proof fn lemma_decode_param_shape(t: ParamType, data: Seq<u8>, at: nat)
    ensures
        decode_param(t, data, at) is Ok ==> has_shape(decode_param(t, data, at)->Ok_0, t),
    decreases t, 1nat, 0nat,
{
    if at + t.head_width() <= data.len() {
        if t.dynamic() {
            let offset = be_value(data.subrange(at as int, at as int + 32));
            if offset <= data.len() {
                lemma_decode_tail_shape(t, data.skip(offset as int));
            }
        } else {
            match t {
                ParamType::FixedArray(inner, size) => {
                    lemma_decode_repeat_shape(*inner, data.skip(at as int), size as nat);
                    if decode_param(t, data, at) is Ok {
                        let v = decode_param(t, data, at)->Ok_0;
                        assert(v->FixedArray_0 == decode_repeat(
                            *inner,
                            data.skip(at as int),
                            size as nat,
                        )->Ok_0);
                    }
                },
                _ => {},
            }
        }
    }
}

/// Values that were read are as many as were asked for, and each has the
/// shape that was asked for.
pub proof fn lemma_decode_repeat_shape(inner: ParamType, region: Seq<u8>, k: nat)
    ensures
        decode_repeat(inner, region, k) is Ok ==> decode_repeat(inner, region, k)->Ok_0.len() == k
            && forall|i: int|
            0 <= i < k ==> has_shape(#[trigger] decode_repeat(inner, region, k)->Ok_0[i], inner),
    decreases inner, 2nat, k,
{
    if k > 0 {
        lemma_decode_repeat_shape(inner, region, (k - 1) as nat);
        lemma_decode_param_shape(inner, region, (k - 1) as nat * inner.head_width());
    }
}

/// Values that were read are as many as were asked for, and each has the
/// shape at its place.
pub proof fn lemma_decode_items_shapes(types: Seq<ParamType>, data: Seq<u8>, k: nat)
    requires
        k <= types.len(),
    ensures
        decode_items(types, data, k) is Ok ==> decode_items(types, data, k)->Ok_0.len() == k
            && forall|i: int|
            0 <= i < k ==> has_shape(#[trigger] decode_items(types, data, k)->Ok_0[i], types[i]),
    decreases k,
{
    if k > 0 {
        lemma_decode_items_shapes(types, data, (k - 1) as nat);
        lemma_decode_param_shape(types[k - 1], data, heads_width(types, (k - 1) as nat));
    }
}

/// What was decoded has the shapes by which it was decoded.
pub proof fn lemma_decoded_have_shapes(types: Seq<ParamType>, data: Seq<u8>)
    ensures
        decode_seq(types, data) is Ok ==> have_shapes(decode_seq(types, data)->Ok_0, types),
{
    lemma_decode_items_shapes(types, data, types.len());
}

/// `String::from_utf8` of std: the text that the bytes spell, if they are
/// UTF-8. The text's own UTF-8 bytes are then the bytes given.
#[verifier::external_body]
fn text_from_utf8(bytes: Vec<u8>) -> (r: Option<String>)
    ensures
        r is Some <==> valid_utf8(bytes@),
        r is Some ==> encode_utf8(r->Some_0@) == bytes@,
{
    match String::from_utf8(bytes) {
        Ok(text) => Some(text),
        Err(_) => None,
    }
}

/// Reads a length word and the bytes that follow it.
fn read_bytes(region: &[u8]) -> (r: Result<Vec<u8>, Error>)
    ensures
        match r {
            Ok(bytes) => decode_bytes(region@) == Ok::<Seq<u8>, Error>(bytes@),
            Err(e) => decode_bytes(region@) == Err::<Seq<u8>, Error>(e),
        },
{
    let total: usize = region.len();
    if total < 32 {
        return Err(Error::InvalidData);
    }
    let avail: usize = total - 32;
    match read_word(region, 0) {
        None => Err(Error::InvalidData),
        Some(len) => {
            if len > avail {
                return Err(Error::InvalidData);
            }
            let pad: usize = (32 - len % 32) % 32;
            assert(len + pad == padded_len(len as nat));
            if len + pad > avail {
                return Err(Error::InvalidData);
            }
            Ok(vstd::slice::slice_to_vec(slice_subrange(region, 32, 32 + len)))
        },
    }
}

/// Copies 20 bytes from `from` on.
fn read_address(data: &[u8], from: usize) -> (a: [u8; 20])
    requires
        from + 20 <= data@.len(),
    ensures
        a@ == data@.subrange(from as int, from + 20),
{
    let total: usize = data.len();
    let mut a: [u8; 20] = [0u8; 20];
    let mut i: usize = 0;
    while i < 20
        invariant
            i <= 20,
            from + 20 <= data@.len() == total,
            forall|j: int| 0 <= j < i ==> #[trigger] a@[j] == data@[from + j],
        decreases 20 - i,
    {
        a[i] = data[from + i];
        i += 1;
    }
    assert(a@ =~= data@.subrange(from as int, from + 20));
    a
}

/// Copies the 32 bytes from `from` on.
fn read_raw_word(data: &[u8], from: usize) -> (w: [u8; 32])
    requires
        from + 32 <= data@.len(),
    ensures
        w@ == data@.subrange(from as int, from + 32),
{
    let total: usize = data.len();
    let mut w: [u8; 32] = [0u8; 32];
    let mut i: usize = 0;
    while i < 32
        invariant
            i <= 32,
            from + 32 <= data@.len() == total,
            forall|j: int| 0 <= j < i ==> #[trigger] w@[j] == data@[from + j],
        decreases 32 - i,
    {
        w[i] = data[from + i];
        i += 1;
    }
    assert(w@ =~= data@.subrange(from as int, from + 32));
    w
}

/// Whether the `n` bytes from `from` on are all zero.
fn all_zero(data: &[u8], from: usize, n: usize) -> (r: bool)
    requires
        from + n <= data@.len(),
    ensures
        r == (data@.subrange(from as int, from + n) == zeros(n as nat)),
{
    let total: usize = data.len();
    let mut i: usize = 0;
    while i < n
        invariant
            i <= n,
            from + n <= data@.len() == total,
            forall|j: int| from <= j < from + i ==> data@[j] == 0,
        decreases n - i,
    {
        if data[from + i] != 0 {
            assert(data@.subrange(from as int, from + n)[i as int] != zeros(n as nat)[i as int]);
            return false;
        }
        i += 1;
    }
    assert(data@.subrange(from as int, from + n) =~= zeros(n as nat));
    true
}

/// Reads the value of a dynamic shape from its tail.
fn decode_tail_of(t: &ParamType, region: &[u8]) -> (r: Result<Token, Error>)
    ensures
        token_outcome(r) == decode_tail(*t, region@),
    decreases *t, 0nat,
{
    match t {
        ParamType::Bytes => match read_bytes(region) {
            Ok(bytes) => Ok(Token::Bytes(bytes)),
            Err(e) => Err(e),
        },
        ParamType::String => match read_bytes(region) {
            Ok(bytes) => {
                let ghost spelled = bytes@;
                match text_from_utf8(bytes) {
                    Some(text) => {
                        proof {
                            vstd::utf8::encode_utf8_decode_utf8(text@);
                        }
                        Ok(Token::String(text))
                    },
                    None => Err(Error::Utf8Error),
                }
            },
            Err(e) => Err(e),
        },
        ParamType::Array(inner) => {
            let total: usize = region.len();
            if total < 32 {
                return Err(Error::InvalidData);
            }
            match read_word(region, 0) {
                None => Err(Error::InvalidData),
                Some(count) => {
                    if count > total - 32 {
                        return Err(Error::InvalidData);
                    }
                    if count > 0 {
                        match inner.head_width_checked() {
                            Some(0) => {
                                return Err(Error::InvalidData);
                            },
                            _ => {},
                        }
                    }
                    assert(region@.skip(32) == region@.subrange(32, total as int));
                    match decode_many(inner, slice_subrange(region, 32, total), count) {
                        Ok(tokens) => Ok(Token::Array(tokens)),
                        Err(e) => Err(e),
                    }
                },
            }
        },
        ParamType::FixedArray(inner, size) => match decode_many(inner, region, *size) {
            Ok(tokens) => Ok(Token::FixedArray(tokens)),
            Err(e) => Err(e),
        },
        _ => Err(Error::InvalidData),
    }
}

/// Reads the value of shape `t` whose head stands at `at`.
pub(crate) fn decode_one(t: &ParamType, data: &[u8], at: usize) -> (r: Result<Token, Error>)
    ensures
        token_outcome(r) == decode_param(*t, data@, at as nat),
    decreases *t, 1nat,
{
    let total: usize = data.len();
    let width: usize = match t.head_width_checked() {
        None => {
            return Err(Error::InvalidData);
        },
        Some(w) => w,
    };
    if at > total || width > total - at {
        return Err(Error::InvalidData);
    }
    if t.is_dynamic() {
        match read_word(data, at) {
            None => Err(Error::InvalidData),
            Some(offset) => {
                if offset > total {
                    return Err(Error::InvalidData);
                }
                assert(data@.skip(offset as int) == data@.subrange(offset as int, total as int));
                decode_tail_of(t, slice_subrange(data, offset, total))
            },
        }
    } else {
        match t {
            ParamType::Address => Ok(Token::Address(read_address(data, at + 12))),
            ParamType::Int(_) => Ok(Token::Int(read_raw_word(data, at))),
            ParamType::Uint(_) => Ok(Token::Uint(read_raw_word(data, at))),
            ParamType::Bool => {
                if all_zero(data, at, 31) && data[at + 31] <= 1 {
                    Ok(Token::Bool(data[at + 31] == 1))
                } else {
                    Err(Error::InvalidData)
                }
            },
            ParamType::FixedBytes(size) => Ok(
                Token::FixedBytes(
                    vstd::slice::slice_to_vec(slice_subrange(data, at, at + *size)),
                ),
            ),
            ParamType::FixedArray(inner, size) => {
                assert(data@.skip(at as int) == data@.subrange(at as int, total as int));
                match decode_many(inner, slice_subrange(data, at, total), *size) {
                    Ok(tokens) => Ok(Token::FixedArray(tokens)),
                    Err(e) => Err(e),
                }
            },
            _ => Err(Error::InvalidData),
        }
    }
}

/// Reads `count` values of shape `inner` whose heads stand one after another
/// from the start of `region`.
fn decode_many(inner: &ParamType, region: &[u8], count: usize) -> (r: Result<Vec<Token>, Error>)
    ensures
        tokens_outcome(r) == decode_repeat(*inner, region@, count as nat),
    decreases *inner, 2nat,
{
    let total: usize = region.len();
    let width = inner.head_width_checked();
    let mut tokens: Vec<Token> = Vec::new();
    let mut at: usize = 0;
    let mut k: usize = 0;
    assert(values_of(tokens@) =~= Seq::empty());
    while k < count
        invariant
            k <= count,
            total == region@.len(),
            at <= total,
            match width {
                Some(w) => w == inner.head_width() && at == k * w,
                None => inner.head_width() > usize::MAX,
            },
            decode_repeat(*inner, region@, k as nat) == Ok::<Seq<Value>, Error>(
                values_of(tokens@),
            ),
        decreases count - k,
    {
        let ghost before = values_of(tokens@);
        let ghost place = k as nat * inner.head_width();
        let step: usize = match width {
            None => {
                proof {
                    assert(decode_param(*inner, region@, place) == Err::<Value, Error>(
                        Error::InvalidData,
                    ));
                    assert(decode_repeat(*inner, region@, (k + 1) as nat) is Err);
                    lemma_decode_repeat_fails(*inner, region@, (k + 1) as nat, count as nat);
                }
                return Err(Error::InvalidData);
            },
            Some(w) => w,
        };
        assert(place == at);
        if step > total - at {
            proof {
                assert(decode_param(*inner, region@, place) == Err::<Value, Error>(
                    Error::InvalidData,
                ));
                assert(decode_repeat(*inner, region@, (k + 1) as nat) is Err);
                lemma_decode_repeat_fails(*inner, region@, (k + 1) as nat, count as nat);
            }
            return Err(Error::InvalidData);
        }
        match decode_one(inner, region, at) {
            Err(e) => {
                proof {
                    assert(decode_repeat(*inner, region@, (k + 1) as nat) is Err);
                    lemma_decode_repeat_fails(*inner, region@, (k + 1) as nat, count as nat);
                }
                return Err(e);
            },
            Ok(token) => {
                tokens.push(token);
                assert(values_of(tokens@) =~= before.push(token@));
            },
        }
        assert((k + 1) * step == at + step) by (nonlinear_arith)
            requires
                at == k * step,
        ;
        at += step;
        k += 1;
    }
    Ok(tokens)
}

/// Reads values of the shapes `types` from `data`. The heads stand from the
/// first byte on, one after another; the head of a dynamic shape holds the
/// distance from the first byte to the value's tail.
///
/// Fails with `InvalidData` where `data` is too short for the heads, where an
/// offset or a length leads past the end of `data`, where a boolean is neither
/// 0 nor 1, and where an array that is not empty has elements of a shape that
/// takes no room; with `Utf8Error` where text is not UTF-8. Of several failures
/// the one of the first shape in order is returned.
pub fn decode(types: &[ParamType], data: &[u8]) -> (r: Result<Vec<Token>, Error>)
    ensures
        tokens_outcome(r) == decode_seq(types@, data@),
{
    let n: usize = types.len();
    let total: usize = data.len();
    // The heads must all be there before any value is read.
    let mut needed: usize = 0;
    let mut i: usize = 0;
    while i < n
        invariant
            i <= n == types@.len(),
            total == data@.len(),
            needed == heads_width(types@, i as nat),
            needed <= total,
        decreases n - i,
    {
        proof {
            lemma_heads_width_grows(types@, (i + 1) as nat, n as nat);
        }
        match types[i].head_width_checked() {
            None => {
                return Err(Error::InvalidData);
            },
            Some(w) => {
                if w > total - needed {
                    return Err(Error::InvalidData);
                }
                needed += w;
            },
        }
        i += 1;
    }
    let mut tokens: Vec<Token> = Vec::new();
    let mut at: usize = 0;
    i = 0;
    assert(values_of(tokens@) =~= Seq::empty());
    while i < n
        invariant
            i <= n == types@.len(),
            total == data@.len(),
            heads_width(types@, n as nat) <= total,
            at == heads_width(types@, i as nat),
            decode_items(types@, data@, i as nat) == Ok::<Seq<Value>, Error>(values_of(tokens@)),
        decreases n - i,
    {
        let ghost before = values_of(tokens@);
        proof {
            lemma_heads_width_grows(types@, (i + 1) as nat, n as nat);
        }
        match decode_one(&types[i], data, at) {
            Err(e) => {
                proof {
                    assert(decode_items(types@, data@, (i + 1) as nat) is Err);
                    lemma_decode_items_fails(types@, data@, (i + 1) as nat, n as nat);
                }
                return Err(e);
            },
            Ok(token) => {
                tokens.push(token);
                assert(values_of(tokens@) =~= before.push(token@));
            },
        }
        let w: usize = match types[i].head_width_checked() {
            None => 0,
            Some(w) => w,
        };
        at += w;
        i += 1;
    }
    Ok(tokens)
}

} // verus!
