//! Decoding undoes encoding.

use vstd::prelude::*;
use vstd::utf8::{decode_utf8, encode_utf8, valid_utf8};
use crate::decoder::{
    decode_bytes, decode_items, decode_param, decode_repeat, decode_seq, decode_tail, heads_width,
};
use crate::encoder::{
    encode_seq, head, heads, is_dynamic, lemma_head_len, lemma_heads_len, lemma_heads_prefix,
    length_prefixed, tail, tails,
};
use crate::errors::Error;
use crate::param_type::{fixed_bytes_width, padded_len, ParamType};
use crate::token::{has_shape, values_of, Token, Value};
use crate::word::{
    be_value, lemma_be_bytes_len, lemma_be_value_of_be_bytes, lemma_fits_word, word_of, zeros,
};

verus! {

/// Whether a value fills the given shape: it has the shape, an address has 20
/// bytes and an integer 32, a fixed byte sequence is as long as the shape
/// says, and the elements of an array that is not empty take room in a head.
pub open spec fn fills_shape(v: Value, t: ParamType) -> bool
    decreases v,
{
    match v {
        Value::Address(a) => t is Address && a.len() == 20,
        Value::Bytes(_) => t is Bytes,
        Value::Int(w) => t is Int && w.len() == 32,
        Value::Uint(w) => t is Uint && w.len() == 32,
        Value::Bool(_) => t is Bool,
        Value::String(_) => t is String,
        Value::FixedBytes(b) => match t {
            ParamType::FixedBytes(size) => b.len() == size,
            _ => false,
        },
        Value::Array(vs) => match t {
            ParamType::Array(inner) => (vs.len() > 0 ==> inner.head_width() > 0) && forall|i: int|
                0 <= i < vs.len() ==> fills_shape(#[trigger] vs[i], *inner),
            _ => false,
        },
        Value::FixedArray(vs) => match t {
            ParamType::FixedArray(inner, size) => vs.len() == size && forall|i: int|
                0 <= i < vs.len() ==> fills_shape(#[trigger] vs[i], *inner),
            _ => false,
        },
    }
}

/// Whether each value fills the shape at its place, and there are as many
/// values as shapes.
pub open spec fn fill_shapes(vs: Seq<Value>, ts: Seq<ParamType>) -> bool {
    vs.len() == ts.len() && forall|i: int|
        0 <= i < vs.len() ==> fills_shape(#[trigger] vs[i], ts[i])
}

/// A value that fills a shape has that shape.
pub proof fn lemma_fills_has_shape(v: Value, t: ParamType)
    requires
        fills_shape(v, t),
    ensures
        has_shape(v, t),
    decreases v,
{
    match v {
        Value::Array(vs) => {
            let inner = *t->Array_0;
            assert forall|i: int| 0 <= i < vs.len() implies has_shape(
                #[trigger] vs[i],
                inner,
            ) by {
                lemma_fills_has_shape(vs[i], inner);
            }
        },
        Value::FixedArray(vs) => {
            let inner = *t->FixedArray_0;
            assert forall|i: int| 0 <= i < vs.len() implies has_shape(
                #[trigger] vs[i],
                inner,
            ) by {
                lemma_fills_has_shape(vs[i], inner);
            }
        },
        _ => {},
    }
}

/// Static values have no tail.
pub proof fn lemma_static_tails(vs: Seq<Value>, k: nat)
    requires
        k <= vs.len(),
        forall|i: int| 0 <= i < vs.len() ==> !is_dynamic(#[trigger] vs[i]),
    ensures
        tails(vs, k).len() == 0,
    decreases k,
{
    if k > 0 {
        lemma_static_tails(vs, (k - 1) as nat);
        let v = vs[k - 1];
        assert(!is_dynamic(v));
        assert(tail(v) =~= Seq::empty());
    }
}

/// A value that fills a shape is dynamic where the shape is, and its head is as
/// wide as the shape says.
pub proof fn lemma_width_agrees(v: Value, t: ParamType, offset: nat)
    requires
        fills_shape(v, t),
    ensures
        is_dynamic(v) == t.dynamic(),
        head(v, offset).len() == t.head_width(),
    decreases v, 0nat, 0nat,
{
    lemma_be_bytes_len(offset, 32);
    match v {
        Value::FixedArray(vs) => {
            let inner = *t->FixedArray_0;
            let n = vs.len();
            assert forall|i: int| 0 <= i < n implies is_dynamic(#[trigger] vs[i])
                == inner.dynamic() by {
                lemma_width_agrees(vs[i], inner, 0);
            }
            if n > 0 {
                assert(is_dynamic(vs[0]) == inner.dynamic());
            }
            assert(is_dynamic(v) == (n > 0 && inner.dynamic()));
            if !is_dynamic(v) {
                assert forall|i: int| 0 <= i < n implies !is_dynamic(#[trigger] vs[i]) by {}
                lemma_static_tails(vs, n);
                lemma_heads_width_uniform(vs, inner, n, heads(vs, n, 0).len());
            }
        },
        _ => {},
    }
}

/// The heads of `k` values that fill one shape are `k` times as wide as the
/// shape says.
pub proof fn lemma_heads_width_uniform(vs: Seq<Value>, inner: ParamType, k: nat, base: nat)
    requires
        k <= vs.len(),
        forall|i: int| 0 <= i < vs.len() ==> fills_shape(#[trigger] vs[i], inner),
    ensures
        heads(vs, k, base).len() == k * inner.head_width(),
    decreases vs, 0nat, k,
{
    if k > 0 {
        lemma_heads_width_uniform(vs, inner, (k - 1) as nat, base);
        lemma_width_agrees(vs[k - 1], inner, base + tails(vs, (k - 1) as nat).len());
        assert(k * inner.head_width() == (k - 1) * inner.head_width() + inner.head_width())
            by (nonlinear_arith);
    }
}

/// The tails of the first `i` values open the tails of the first `n`.
pub proof fn lemma_tails_prefix(vs: Seq<Value>, i: nat, n: nat)
    requires
        i <= n <= vs.len(),
    ensures
        tails(vs, i).len() <= tails(vs, n).len(),
        tails(vs, n).subrange(0, tails(vs, i).len() as int) == tails(vs, i),
    decreases n,
{
    if i == n {
        assert(tails(vs, n).subrange(0, tails(vs, n).len() as int) =~= tails(vs, n));
    } else {
        lemma_tails_prefix(vs, i, (n - 1) as nat);
        let shorter = tails(vs, (n - 1) as nat);
        assert(tails(vs, n).subrange(0, tails(vs, i).len() as int) =~= shorter.subrange(
            0,
            tails(vs, i).len() as int,
        ));
    }
}

/// Whether `region` begins with `prefix`.
pub open spec fn starts_with(region: Seq<u8>, prefix: Seq<u8>) -> bool {
    prefix.len() <= region.len() && region.subrange(0, prefix.len() as int) == prefix
}

/// A word that holds a number below 2^128 spells that number.
pub proof fn lemma_word_value(n: nat)
    requires
        n <= u128::MAX,
    ensures
        word_of(n).len() == 32,
        be_value(word_of(n)) == n,
{
    lemma_be_bytes_len(n, 32);
    lemma_fits_word(n);
    lemma_be_value_of_be_bytes(n, 32);
}

/// Bytes that were written behind their length are read back from any region
/// that begins with them.
pub proof fn lemma_decode_length_prefixed(bytes: Seq<u8>, region: Seq<u8>)
    requires
        starts_with(region, length_prefixed(bytes)),
        region.len() <= u128::MAX,
    ensures
        decode_bytes(region) == Ok::<Seq<u8>, Error>(bytes),
{
    let len = bytes.len();
    let pad = (padded_len(len) - len) as nat;
    let written = length_prefixed(bytes);
    lemma_be_bytes_len(len, 32);
    assert(written.len() == 32 + len + pad);
    lemma_word_value(len);
    assert(region.subrange(0, 32) =~= written.subrange(0, 32));
    assert(written.subrange(0, 32) =~= word_of(len));
    assert(region.subrange(32, 32 + len as int) =~= written.subrange(32, 32 + len as int));
    assert(written.subrange(32, 32 + len as int) =~= bytes);
}

/// The value that a tail was written for is read back from any region that
/// begins with the tail.
pub proof fn lemma_decode_tail(v: Value, t: ParamType, region: Seq<u8>)
    requires
        fills_shape(v, t),
        is_dynamic(v),
        starts_with(region, tail(v)),
        region.len() <= u128::MAX,
    ensures
        decode_tail(t, region) == Ok::<Value, Error>(v),
    decreases v, 1nat, 0nat,
{
    match v {
        Value::Bytes(b) => {
            lemma_decode_length_prefixed(b, region);
        },
        Value::String(s) => {
            lemma_decode_length_prefixed(encode_utf8(s), region);
            vstd::utf8::encode_utf8_valid_utf8(s);
            vstd::utf8::encode_utf8_decode_utf8(s);
        },
        Value::Array(vs) => {
            let inner = *t->Array_0;
            let n = vs.len();
            let body = encode_seq(vs);
            let base = heads(vs, n, 0).len();
            lemma_be_bytes_len(n, 32);
            lemma_heads_width_uniform(vs, inner, n, base);
            assert(n <= body.len()) by (nonlinear_arith)
                requires
                    n > 0 ==> inner.head_width() > 0,
                    body.len() >= n * inner.head_width(),
            ;
            lemma_word_value(n);
            assert(region.subrange(0, 32) =~= tail(v).subrange(0, 32));
            assert(tail(v).subrange(0, 32) =~= word_of(n));
            assert(region.skip(32).subrange(0, body.len() as int) =~= tail(v).subrange(
                32,
                32 + body.len() as int,
            ));
            assert(tail(v).subrange(32, 32 + body.len() as int) =~= body);
            lemma_decode_repeat(vs, inner, region.skip(32), n);
            assert(vs.take(n as int) =~= vs);
        },
        Value::FixedArray(vs) => {
            let inner = *t->FixedArray_0;
            lemma_decode_repeat(vs, inner, region, vs.len());
            assert(vs.take(vs.len() as int) =~= vs);
        },
        _ => {},
    }
}

/// The value that a head was written for is read back from any data that hold
/// the head at `at` and, where the value is dynamic, its tail at `offset`.
pub proof fn lemma_decode_param(v: Value, t: ParamType, data: Seq<u8>, at: nat, offset: nat)
    requires
        fills_shape(v, t),
        data.len() <= u128::MAX,
        at + t.head_width() <= data.len(),
        data.subrange(at as int, at as int + t.head_width()) == head(v, offset),
        is_dynamic(v) ==> offset <= data.len() && starts_with(data.skip(offset as int), tail(v)),
    ensures
        decode_param(t, data, at) == Ok::<Value, Error>(v),
    decreases v, 2nat, 0nat,
{
    lemma_width_agrees(v, t, offset);
    let a = at as int;
    let written = head(v, offset);
    if is_dynamic(v) {
        lemma_word_value(offset);
        lemma_decode_tail(v, t, data.skip(offset as int));
    } else {
        match v {
            Value::Address(x) => {
                assert(data.subrange(a + 12, a + 32) =~= written.subrange(12, 32));
                assert(written.subrange(12, 32) =~= x);
            },
            Value::Bool(b) => {
                assert(data.subrange(a, a + 31) =~= written.subrange(0, 31));
                assert(written.subrange(0, 31) =~= zeros(31));
                assert(data[a + 31] == written[31]);
            },
            Value::FixedBytes(b) => {
                let size = b.len() as int;
                assert(data.subrange(a, a + size) =~= written.subrange(0, size));
                assert(written.subrange(0, size) =~= b);
            },
            Value::FixedArray(vs) => {
                let inner = *t->FixedArray_0;
                assert(data.skip(a).subrange(0, written.len() as int) =~= data.subrange(
                    a,
                    a + t.head_width(),
                ));
                lemma_decode_repeat(vs, inner, data.skip(a), vs.len());
                assert(vs.take(vs.len() as int) =~= vs);
            },
            _ => {},
        }
    }
}

/// The `j`-th of the values that an encoding was written for is read back from
/// any region that begins with the encoding.
pub proof fn lemma_decode_element(vs: Seq<Value>, j: nat, t: ParamType, region: Seq<u8>)
    requires
        j < vs.len(),
        fills_shape(vs[j as int], t),
        starts_with(region, encode_seq(vs)),
        region.len() <= u128::MAX,
    ensures
        decode_param(t, region, heads(vs, j, 0).len()) == Ok::<Value, Error>(vs[j as int]),
    decreases vs, 0nat, 0nat,
{
    let n = vs.len();
    let base = heads(vs, n, 0).len();
    let all_heads = heads(vs, n, base);
    let all_tails = tails(vs, n);
    let written = encode_seq(vs);
    let v = vs[j as int];
    let before = tails(vs, j).len();
    let offset = base + before;
    let at = heads(vs, j, 0).len();
    let h = head(v, offset);
    lemma_heads_len(vs, n, 0, base);
    lemma_heads_len(vs, j, 0, base);
    lemma_heads_prefix(vs, j, j + 1, base);
    lemma_heads_prefix(vs, j + 1, n, base);
    lemma_tails_prefix(vs, j, j + 1);
    lemma_tails_prefix(vs, j + 1, n);
    lemma_width_agrees(v, t, offset);
    let next_heads = heads(vs, j + 1, base);
    assert(next_heads == heads(vs, j, base) + h);
    assert(at + h.len() == next_heads.len() <= all_heads.len());
    assert(written == all_heads + all_tails);
    let opening = region.subrange(0, written.len() as int);
    assert(opening == written);
    assert(region.subrange(at as int, at as int + h.len()) =~= opening.subrange(
        at as int,
        at as int + h.len(),
    ));
    assert(written.subrange(at as int, at as int + h.len()) =~= all_heads.subrange(
        at as int,
        at as int + h.len(),
    ));
    assert(all_heads.subrange(at as int, at as int + h.len()) =~= next_heads.subrange(
        at as int,
        at as int + h.len(),
    ));
    assert(next_heads.subrange(at as int, at as int + h.len()) =~= h);
    if is_dynamic(v) {
        let next_tails = tails(vs, j + 1);
        let tl = tail(v);
        assert(next_tails == tails(vs, j) + tl);
        assert(before + tl.len() == next_tails.len() <= all_tails.len());
        assert(region.skip(offset as int).subrange(0, tl.len() as int) =~= opening.subrange(
            offset as int,
            offset as int + tl.len(),
        ));
        assert(written.subrange(offset as int, offset as int + tl.len()) =~= all_tails.subrange(
            before as int,
            before as int + tl.len(),
        ));
        assert(all_tails.subrange(before as int, before as int + tl.len()) =~= next_tails.subrange(
            before as int,
            before as int + tl.len(),
        ));
        assert(next_tails.subrange(before as int, before as int + tl.len()) =~= tl);
    }
    lemma_decode_param(v, t, region, at, offset);
}

/// The first `k` of the values of one shape that an encoding was written for
/// are read back from any region that begins with the encoding.
pub proof fn lemma_decode_repeat(vs: Seq<Value>, inner: ParamType, region: Seq<u8>, k: nat)
    requires
        k <= vs.len(),
        forall|i: int| 0 <= i < vs.len() ==> fills_shape(#[trigger] vs[i], inner),
        starts_with(region, encode_seq(vs)),
        region.len() <= u128::MAX,
    ensures
        decode_repeat(inner, region, k) == Ok::<Seq<Value>, Error>(vs.take(k as int)),
    decreases vs, 1nat, k,
{
    if k == 0 {
        assert(vs.take(0) =~= Seq::empty());
    } else {
        let j = (k - 1) as nat;
        lemma_decode_repeat(vs, inner, region, j);
        lemma_heads_width_uniform(vs, inner, j, 0);
        lemma_decode_element(vs, j, inner, region);
        assert(vs.take(k as int) =~= vs.take(j as int).push(vs[j as int]));
    }
}

/// The heads of the first `k` values are as wide as their shapes say.
pub proof fn lemma_heads_width_listed(vs: Seq<Value>, ts: Seq<ParamType>, k: nat, base: nat)
    requires
        k <= vs.len(),
        fill_shapes(vs, ts),
    ensures
        heads(vs, k, base).len() == heads_width(ts, k),
    decreases k,
{
    if k > 0 {
        lemma_heads_width_listed(vs, ts, (k - 1) as nat, base);
        lemma_width_agrees(vs[k - 1], ts[k - 1], base + tails(vs, (k - 1) as nat).len());
    }
}

/// The first `k` of the values that an encoding was written for are read back
/// from any data that begin with the encoding.
pub proof fn lemma_decode_items(vs: Seq<Value>, ts: Seq<ParamType>, data: Seq<u8>, k: nat)
    requires
        k <= vs.len(),
        fill_shapes(vs, ts),
        starts_with(data, encode_seq(vs)),
        data.len() <= u128::MAX,
    ensures
        decode_items(ts, data, k) == Ok::<Seq<Value>, Error>(vs.take(k as int)),
    decreases k,
{
    if k == 0 {
        assert(vs.take(0) =~= Seq::empty());
    } else {
        let j = (k - 1) as nat;
        lemma_decode_items(vs, ts, data, j);
        lemma_heads_width_listed(vs, ts, j, 0);
        lemma_decode_element(vs, j, ts[j as int], data);
        assert(vs.take(k as int) =~= vs.take(j as int).push(vs[j as int]));
    }
}

/// Decoding undoes encoding: where each of `tokens` fills the shape at its
/// place in `types`, and `encoded` is their encoding, decoding `encoded` by
/// `types` gives the values of `tokens`.
pub proof fn lemma_decode_of_encode(tokens: Vec<Token>, types: Vec<ParamType>, encoded: Vec<u8>)
    requires
        fill_shapes(values_of(tokens@), types@),
        encoded@ == encode_seq(values_of(tokens@)),
    ensures
        decode_seq(types@, encoded@) == Ok::<Seq<Value>, Error>(values_of(tokens@)),
{
    let vs = values_of(tokens@);
    let n = vs.len();
    assert(encoded@.len() == encoded.len());
    assert(encoded@.subrange(0, encoded@.len() as int) =~= encoded@);
    lemma_decode_items(vs, types@, encoded@, n);
    assert(vs.take(n as int) =~= vs);
    lemma_heads_width_listed(vs, types@, n, heads(vs, n, 0).len());
}

} // verus!
