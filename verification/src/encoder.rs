//! From values to bytes: the head/tail layout.

use vstd::prelude::*;
use vstd::utf8::encode_utf8;
use crate::param_type::{fixed_bytes_width, padded_len};
use crate::token::{values_of, Token, Value};
use crate::word::{push_bytes, push_word, push_zeros, word_of, zeros};

verus! {

/// Whether the encoded width of a value depends on what it holds: true of
/// bytes, text and arrays, and of a fixed array that holds such a value.
pub open spec fn is_dynamic(v: Value) -> bool
    decreases v,
{
    match v {
        Value::Bytes(_) | Value::String(_) | Value::Array(_) => true,
        Value::FixedArray(vs) => exists|i: int| 0 <= i < vs.len() && is_dynamic(#[trigger] vs[i]),
        _ => false,
    }
}

/// A length word, then the bytes, then zeros up to a multiple of 32.
pub open spec fn length_prefixed(bytes: Seq<u8>) -> Seq<u8> {
    word_of(bytes.len()) + bytes + zeros((padded_len(bytes.len()) - bytes.len()) as nat)
}

/// What a value puts into the head: the word that holds `offset` where the
/// value is dynamic, else the value itself.
pub open spec fn head(v: Value, offset: nat) -> Seq<u8>
    decreases v, 0nat, 0nat,
{
    if is_dynamic(v) {
        word_of(offset)
    } else {
        match v {
            Value::Address(a) => zeros(12) + a,
            Value::Int(w) => w,
            Value::Uint(w) => w,
            Value::Bool(b) => zeros(31).push(if b { 1u8 } else { 0u8 }),
            Value::FixedBytes(b) => b + zeros((fixed_bytes_width(b.len()) - b.len()) as nat),
            Value::FixedArray(vs) => encode_seq(vs),
            _ => Seq::empty(),
        }
    }
}

/// What a value puts into the tail: nothing where the value is static.
pub open spec fn tail(v: Value) -> Seq<u8>
    decreases v, 0nat, 0nat,
{
    match v {
        Value::Bytes(b) => length_prefixed(b),
        Value::String(s) => length_prefixed(encode_utf8(s)),
        Value::Array(vs) => word_of(vs.len()) + encode_seq(vs),
        Value::FixedArray(vs) => if is_dynamic(v) {
            encode_seq(vs)
        } else {
            Seq::empty()
        },
        _ => Seq::empty(),
    }
}

/// The tails of the first `n` values, in order.
pub open spec fn tails(vs: Seq<Value>, n: nat) -> Seq<u8>
    decreases vs, 0nat, n,
{
    if n == 0 || n > vs.len() {
        Seq::empty()
    } else {
        tails(vs, (n - 1) as nat) + tail(vs[n - 1])
    }
}

/// The heads of the first `n` values, in order, where the tails begin `base`
/// bytes after the start of the encoding.
pub open spec fn heads(vs: Seq<Value>, n: nat, base: nat) -> Seq<u8>
    decreases vs, 0nat, n,
{
    if n == 0 || n > vs.len() {
        Seq::empty()
    } else {
        heads(vs, (n - 1) as nat, base) + head(vs[n - 1], base + tails(vs, (n - 1) as nat).len())
    }
}

/// The number of bytes that the heads of the first `n` values take.
pub open spec fn heads_len(vs: Seq<Value>, n: nat) -> nat {
    heads(vs, n, 0).len()
}

/// The encoding of a sequence of values: all heads, then all tails. The head of
/// a dynamic value holds the distance from the start of this encoding to the
/// value's tail.
pub open spec fn encode_seq(vs: Seq<Value>) -> Seq<u8>
    decreases vs, 1nat, 0nat,
{
    heads(vs, vs.len(), heads(vs, vs.len(), 0).len()) + tails(vs, vs.len())
}

/// The head of a value is as long wherever its tail lies.
pub proof fn lemma_head_len(v: Value, a: nat, b: nat)
    ensures
        head(v, a).len() == head(v, b).len(),
        is_dynamic(v) ==> head(v, a).len() == 32,
        !is_dynamic(v) ==> head(v, a) == head(v, b),
{
    crate::word::lemma_be_bytes_len(a, 32);
    crate::word::lemma_be_bytes_len(b, 32);
}

/// The heads of a sequence are as long wherever its tails lie.
pub proof fn lemma_heads_len(vs: Seq<Value>, n: nat, a: nat, b: nat)
    ensures
        heads(vs, n, a).len() == heads(vs, n, b).len(),
    decreases n,
{
    if n == 0 || n > vs.len() {
    } else {
        lemma_heads_len(vs, (n - 1) as nat, a, b);
        lemma_head_len(
            vs[n - 1],
            a + tails(vs, (n - 1) as nat).len(),
            b + tails(vs, (n - 1) as nat).len(),
        );
    }
}

/// The heads of the first `i` values open the heads of the first `n`.
pub proof fn lemma_heads_prefix(vs: Seq<Value>, i: nat, n: nat, base: nat)
    requires
        i <= n <= vs.len(),
    ensures
        heads(vs, i, base).len() <= heads(vs, n, base).len(),
        heads(vs, n, base).subrange(0, heads(vs, i, base).len() as int) == heads(vs, i, base),
    decreases n,
{
    if i == n {
        assert(heads(vs, n, base).subrange(0, heads(vs, n, base).len() as int) =~= heads(
            vs,
            n,
            base,
        ));
    } else {
        lemma_heads_prefix(vs, i, (n - 1) as nat, base);
        let shorter = heads(vs, (n - 1) as nat, base);
        assert(heads(vs, n, base).subrange(0, heads(vs, i, base).len() as int) =~= shorter.subrange(
            0,
            heads(vs, i, base).len() as int,
        ));
    }
}

impl Token {
    /// Whether the encoded width of this value depends on what it holds: true
    /// of bytes, text and arrays, and of a fixed array that holds such a value.
    pub fn is_dynamic(&self) -> (r: bool)
        ensures
            r == is_dynamic(self@),
        decreases *self,
    {
        match self {
            Token::Bytes(_) | Token::String(_) | Token::Array(_) => true,
            Token::FixedArray(tokens) => {
                assert(self@->FixedArray_0 == values_of(tokens@));
                Token::any_dynamic(tokens)
            },
            _ => false,
        }
    }

    /// Whether one of `tokens` is dynamic.
    fn any_dynamic(tokens: &Vec<Token>) -> (r: bool)
        ensures
            r == exists|i: int|
                0 <= i < tokens@.len() && is_dynamic(#[trigger] values_of(tokens@)[i]),
        decreases *tokens,
    {
        let mut i: usize = 0;
        while i < tokens.len()
            invariant
                i <= tokens@.len(),
                forall|j: int| 0 <= j < i ==> !is_dynamic(#[trigger] values_of(tokens@)[j]),
            decreases tokens@.len() - i,
        {
            if tokens[i].is_dynamic() {
                assert(is_dynamic(values_of(tokens@)[i as int]));
                return true;
            }
            i += 1;
        }
        false
    }
}

/// Appends a length word, the bytes, and zeros up to a multiple of 32.
fn push_length_prefixed(out: &mut Vec<u8>, bytes: &[u8])
    ensures
        final(out)@ == old(out)@ + length_prefixed(bytes@),
{
    let len: usize = bytes.len();
    push_word(out, len as u128);
    push_bytes(out, bytes);
    let pad: usize = (32 - len % 32) % 32;
    assert(pad == padded_len(len as nat) - len);
    push_zeros(out, pad);
    assert(out@ =~= old(out)@ + length_prefixed(bytes@));
}

/// Whether a value is dynamic, and its tail if it is, else its head.
fn encode_piece(token: &Token) -> (r: (bool, Vec<u8>))
    ensures
        r.0 == is_dynamic(token@),
        r.1@ == if r.0 {
            tail(token@)
        } else {
            head(token@, 0)
        },
    decreases *token, 0nat,
{
    let mut out: Vec<u8> = Vec::new();
    match token {
        Token::Address(a) => {
            push_zeros(&mut out, 12);
            push_bytes(&mut out, a.as_slice());
            assert(out@ =~= zeros(12) + a@);
            (false, out)
        },
        Token::Int(w) => {
            push_bytes(&mut out, w.as_slice());
            assert(out@ =~= w@);
            (false, out)
        },
        Token::Uint(w) => {
            push_bytes(&mut out, w.as_slice());
            assert(out@ =~= w@);
            (false, out)
        },
        Token::Bool(b) => {
            push_zeros(&mut out, 31);
            out.push(if *b { 1u8 } else { 0u8 });
            assert(out@ =~= zeros(31).push(if *b { 1u8 } else { 0u8 }));
            (false, out)
        },
        Token::FixedBytes(b) => {
            let len: usize = b.len();
            push_bytes(&mut out, b.as_slice());
            let pad: usize = if len <= 32 {
                32 - len
            } else {
                (32 - len % 32) % 32
            };
            assert(pad == fixed_bytes_width(len as nat) - len);
            push_zeros(&mut out, pad);
            assert(out@ =~= b@ + zeros((fixed_bytes_width(b@.len()) - b@.len()) as nat));
            (false, out)
        },
        Token::Bytes(b) => {
            push_length_prefixed(&mut out, b.as_slice());
            assert(out@ =~= length_prefixed(b@));
            (true, out)
        },
        Token::String(s) => {
            push_length_prefixed(&mut out, s.as_str().as_bytes());
            assert(out@ =~= length_prefixed(encode_utf8(s@)));
            (true, out)
        },
        Token::FixedArray(tokens) => {
            assert(token@->FixedArray_0 == values_of(tokens@));
            let dynamic = token.is_dynamic();
            let body = encode_tokens(tokens.as_slice());
            (dynamic, body)
        },
        Token::Array(tokens) => {
            assert(token@->Array_0 == values_of(tokens@));
            push_word(&mut out, tokens.len() as u128);
            let body = encode_tokens(tokens.as_slice());
            push_bytes(&mut out, body.as_slice());
            assert(values_of(tokens@).len() == tokens@.len());
            (true, out)
        },
    }
}

/// The encoding of a sequence of values.
fn encode_tokens(tokens: &[Token]) -> (out: Vec<u8>)
    ensures
        out@ == encode_seq(values_of(tokens@)),
    decreases tokens@, 1nat,
{
    let n: usize = tokens.len();
    let ghost vs = values_of(tokens@);
    // The heads as they would be with the tails at 0, which shows how long
    // they are; where each begins; the tails; how long the tails before each
    // value are; and which values are dynamic.
    let mut blank: Vec<u8> = Vec::new();
    let mut starts: Vec<usize> = Vec::new();
    let mut rels: Vec<usize> = Vec::new();
    let mut flags: Vec<bool> = Vec::new();
    let mut rest: Vec<u8> = Vec::new();
    let mut i: usize = 0;
    while i < n
        invariant
            i <= n == tokens@.len() == vs.len(),
            vs == values_of(tokens@),
            blank@ == heads(vs, i as nat, 0),
            rest@ == tails(vs, i as nat),
            starts@.len() == i,
            rels@.len() == i,
            flags@.len() == i,
            forall|j: int| 0 <= j < i ==> #[trigger] starts@[j] == heads(vs, j as nat, 0).len(),
            forall|j: int| 0 <= j < i ==> #[trigger] rels@[j] == tails(vs, j as nat).len(),
            forall|j: int| 0 <= j < i ==> #[trigger] flags@[j] == is_dynamic(vs[j]),
        decreases n - i,
    {
        starts.push(blank.len());
        rels.push(rest.len());
        let (dynamic, bytes) = encode_piece(&tokens[i]);
        flags.push(dynamic);
        assert(vs[i as int] == tokens@[i as int]@);
        let ghost before = tails(vs, i as nat).len();
        if dynamic {
            push_word(&mut blank, rest.len() as u128);
            push_bytes(&mut rest, bytes.as_slice());
        } else {
            push_bytes(&mut blank, bytes.as_slice());
            proof {
                lemma_head_len(vs[i as int], 0, before);
                assert(rest@ =~= tails(vs, i as nat) + tail(vs[i as int]));
            }
        }
        assert(blank@ == heads(vs, i as nat, 0) + head(vs[i as int], 0 + before));
        i += 1;
    }
    let base: usize = blank.len();
    starts.push(base);
    let mut out: Vec<u8> = Vec::new();
    i = 0;
    while i < n
        invariant
            i <= n == tokens@.len() == vs.len(),
            blank@ == heads(vs, n as nat, 0),
            base == blank@.len(),
            starts@.len() == n + 1,
            rels@.len() == n,
            flags@.len() == n,
            forall|j: int| 0 <= j < n ==> #[trigger] starts@[j] == heads(vs, j as nat, 0).len(),
            forall|j: int| 0 <= j < n ==> #[trigger] rels@[j] == tails(vs, j as nat).len(),
            forall|j: int| 0 <= j < n ==> #[trigger] flags@[j] == is_dynamic(vs[j]),
            starts@[n as int] == base,
            out@ == heads(vs, i as nat, base as nat),
        decreases n - i,
    {
        let ghost before = tails(vs, i as nat).len();
        if flags[i] {
            push_word(&mut out, base as u128 + rels[i] as u128);
            assert(out@ == heads(vs, i as nat, base as nat) + head(vs[i as int], base as nat + before));
        } else {
            let from: usize = starts[i];
            let to: usize = starts[i + 1];
            proof {
                lemma_heads_prefix(vs, i as nat, (i + 1) as nat, 0);
                lemma_heads_prefix(vs, (i + 1) as nat, n as nat, 0);
                lemma_head_len(
                    vs[i as int],
                    tails(vs, i as nat).len(),
                    base as nat + tails(vs, i as nat).len(),
                );
                let longer = heads(vs, (i + 1) as nat, 0);
                assert(longer == heads(vs, i as nat, 0) + head(vs[i as int], 0 + before));
                assert(blank@.subrange(0, to as int) == longer);
                assert(blank@.subrange(from as int, to as int) =~= longer.subrange(
                    from as int,
                    to as int,
                ));
                assert(longer.subrange(from as int, to as int) =~= head(vs[i as int], before));
            }
            push_bytes(&mut out, vstd::slice::slice_subrange(blank.as_slice(), from, to));
            assert(out@ == heads(vs, i as nat, base as nat) + head(vs[i as int], base as nat + before));
        }
        i += 1;
    }
    push_bytes(&mut out, rest.as_slice());
    out
}

/// Encodes values: the head of each in order, then the tail of each in order.
/// A static value stands whole in its head. The head of a dynamic value is the
/// word that holds the distance from the first byte of the encoding to the
/// value's tail.
pub fn encode(tokens: &[Token]) -> (out: Vec<u8>)
    ensures
        out@ == encode_seq(values_of(tokens@)),
{
    encode_tokens(tokens)
}

} // verus!
