//! The 32-byte words of the wire format, and numbers written in them.

use vstd::prelude::*;

verus! {

/// `n` zero bytes.
pub open spec fn zeros(n: nat) -> Seq<u8> {
    Seq::new(n, |i: int| 0u8)
}

/// The last `len` digits of `n` in base 256, most significant first.
pub open spec fn be_bytes(n: nat, len: nat) -> Seq<u8>
    decreases len,
{
    if len == 0 {
        Seq::empty()
    } else {
        be_bytes(n / 256, (len - 1) as nat).push((n % 256) as u8)
    }
}

/// The word that holds `n`: 32 bytes, most significant first.
pub open spec fn word_of(n: nat) -> Seq<u8> {
    be_bytes(n, 32)
}

/// The number that `bytes` spell in base 256, most significant byte first.
pub open spec fn be_value(bytes: Seq<u8>) -> nat
    decreases bytes.len(),
{
    if bytes.len() == 0 {
        0
    } else {
        be_value(bytes.drop_last()) * 256 + bytes.last() as nat
    }
}

/// Whether `n` can be written in `len` digits of base 256.
pub open spec fn fits(n: nat, len: nat) -> bool
    decreases len,
{
    if len == 0 {
        n == 0
    } else {
        fits(n / 256, (len - 1) as nat)
    }
}

/// `be_bytes(n, len)` has `len` bytes.
pub proof fn lemma_be_bytes_len(n: nat, len: nat)
    ensures
        be_bytes(n, len).len() == len,
    decreases len,
{
    if len > 0 {
        lemma_be_bytes_len(n / 256, (len - 1) as nat);
    }
}

/// Zero fits in any number of digits.
pub proof fn lemma_fits_zero(len: nat)
    ensures
        fits(0, len),
    decreases len,
{
    if len > 0 {
        assert(0nat / 256 == 0);
        lemma_fits_zero((len - 1) as nat);
    }
}

/// A number below 2^128 fits in a word.
pub proof fn lemma_fits_word(n: nat)
    requires
        n <= u128::MAX,
    ensures
        fits(n, 32),
{
    let d = n / 256 / 256 / 256 / 256 / 256 / 256 / 256 / 256;
    let e = d / 256 / 256 / 256 / 256 / 256 / 256 / 256 / 256;
    assert(e == 0);
    lemma_fits_zero(16);
    reveal_with_fuel(fits, 17);
}

/// Writing a number that fits and reading it back gives the number.
pub proof fn lemma_be_value_of_be_bytes(n: nat, len: nat)
    requires
        fits(n, len),
    ensures
        be_value(be_bytes(n, len)) == n,
    decreases len,
{
    if len > 0 {
        let rest = be_bytes(n / 256, (len - 1) as nat);
        lemma_be_value_of_be_bytes(n / 256, (len - 1) as nat);
        assert(be_bytes(n, len).drop_last() =~= rest);
        assert(be_bytes(n, len).last() == (n % 256) as u8);
    }
}

/// A sequence spells at least what any of its prefixes spells.
pub proof fn lemma_be_value_prefix(bytes: Seq<u8>, k: int)
    requires
        0 <= k <= bytes.len(),
    ensures
        be_value(bytes.subrange(0, k)) <= be_value(bytes),
    decreases bytes.len(),
{
    if k == bytes.len() {
        assert(bytes.subrange(0, k) =~= bytes);
    } else {
        lemma_be_value_prefix(bytes.drop_last(), k);
        assert(bytes.drop_last().subrange(0, k) =~= bytes.subrange(0, k));
    }
}

/// Appends the word that holds `n`.
pub fn push_word(out: &mut Vec<u8>, n: u128)
    ensures
        final(out)@ == old(out)@ + word_of(n as nat),
{
    let mut buf: [u8; 32] = [0u8; 32];
    let mut rest: u128 = n;
    let mut i: usize = 32;
    while i > 0
        invariant
            i <= 32,
            word_of(n as nat) =~= be_bytes(rest as nat, i as nat) + buf@.subrange(i as int, 32),
        decreases i,
    {
        i -= 1;
        buf[i] = (rest % 256) as u8;
        rest = rest / 256;
    }
    let mut j: usize = 0;
    while j < 32
        invariant
            j <= 32,
            out@ =~= old(out)@ + buf@.subrange(0, j as int),
        decreases 32 - j,
    {
        out.push(buf[j]);
        j += 1;
    }
    assert(buf@.subrange(0, 32) =~= buf@);
}

/// Appends `n` zero bytes.
pub fn push_zeros(out: &mut Vec<u8>, n: usize)
    ensures
        final(out)@ == old(out)@ + zeros(n as nat),
{
    let mut j: usize = 0;
    while j < n
        invariant
            j <= n,
            out@ =~= old(out)@ + zeros(j as nat),
        decreases n - j,
    {
        out.push(0u8);
        j += 1;
    }
}

/// Appends a copy of `bytes`.
pub fn push_bytes(out: &mut Vec<u8>, bytes: &[u8])
    ensures
        final(out)@ == old(out)@ + bytes@,
{
    let mut j: usize = 0;
    while j < bytes.len()
        invariant
            j <= bytes@.len(),
            out@ =~= old(out)@ + bytes@.subrange(0, j as int),
        decreases bytes@.len() - j,
    {
        out.push(bytes[j]);
        j += 1;
    }
    assert(bytes@.subrange(0, bytes@.len() as int) =~= bytes@);
}

/// Reads the number in the word at `at`, where it is one that `usize` holds.
pub(crate) fn read_word(data: &[u8], at: usize) -> (r: Option<usize>)
    requires
        at + 32 <= data@.len(),
    ensures
        match r {
            Some(v) => be_value(data@.subrange(at as int, at + 32)) == v,
            None => be_value(data@.subrange(at as int, at + 32)) > usize::MAX,
        },
{
    let ghost word = data@.subrange(at as int, at + 32);
    let len: usize = data.len();
    let mut acc: usize = 0;
    let mut i: usize = 0;
    while i < 32
        invariant
            i <= 32,
            at + 32 <= data@.len() == len,
            word == data@.subrange(at as int, at + 32),
            acc == be_value(word.subrange(0, i as int)),
        decreases 32 - i,
    {
        let byte: u8 = data[at + i];
        proof {
            let next = word.subrange(0, i + 1);
            assert(next.drop_last() =~= word.subrange(0, i as int));
            assert(next.last() == byte);
            lemma_be_value_prefix(word, i + 1);
        }
        if acc > usize::MAX / 256 {
            return None;
        }
        let shifted: usize = acc * 256;
        if shifted > usize::MAX - (byte as usize) {
            return None;
        }
        acc = shifted + byte as usize;
        i += 1;
    }
    assert(word.subrange(0, 32) =~= word);
    Some(acc)
}

} // verus!
