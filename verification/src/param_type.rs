//! Shapes of values.

use vstd::prelude::*;

verus! {

/// The shape of one value.
#[derive(Debug, PartialEq, Eq)]
pub enum ParamType {
    /// A 20-byte account address.
    Address,
    /// A byte sequence of any length.
    Bytes,
    /// A signed integer of the given width in bits.
    Int(usize),
    /// An unsigned integer of the given width in bits.
    Uint(usize),
    /// A boolean.
    Bool,
    /// UTF-8 text.
    String,
    /// Any number of values of one shape.
    Array(Box<ParamType>),
    /// A byte sequence of the given length.
    FixedBytes(usize),
    /// The given number of values of one shape.
    FixedArray(Box<ParamType>, usize),
}

/// The least multiple of 32 that is not below `n`.
pub open spec fn padded_len(n: nat) -> nat {
    ((n + 31) / 32 * 32) as nat
}

/// The room that a byte sequence of fixed length `n` takes in the head: one
/// word, or as many as it needs.
pub open spec fn fixed_bytes_width(n: nat) -> nat {
    if n <= 32 {
        32
    } else {
        padded_len(n)
    }
}

impl ParamType {
    /// Whether the encoded width of a value of this shape depends on the value:
    /// true of bytes, text and arrays, and of a fixed array that holds at least
    /// one element of such a shape. A fixed array of no elements holds none, and
    /// is static.
    pub open spec fn dynamic(self) -> bool
        decreases self,
    {
        match self {
            ParamType::Bytes | ParamType::String | ParamType::Array(_) => true,
            ParamType::FixedArray(inner, size) => size > 0 && inner.dynamic(),
            _ => false,
        }
    }

    /// The number of bytes that a value of this shape takes in the head of an
    /// encoding: one word for an offset where the shape is dynamic, else the
    /// whole value.
    pub open spec fn head_width(self) -> nat
        decreases self,
    {
        match self {
            ParamType::FixedBytes(size) => fixed_bytes_width(size as nat),
            ParamType::FixedArray(inner, size) => if inner.dynamic() && size > 0 {
                32
            } else {
                size as nat * inner.head_width()
            },
            _ => 32,
        }
    }

    /// The number of bytes that a value of this shape takes in the head of an
    /// encoding, where `usize` holds that number.
    pub fn head_width_checked(&self) -> (r: Option<usize>)
        ensures
            match r {
                Some(w) => w == self.head_width(),
                None => self.head_width() > usize::MAX,
            },
        decreases *self,
    {
        match self {
            ParamType::FixedBytes(size) => {
                if *size <= 32 {
                    Some(32)
                } else {
                    let pad: usize = (32 - *size % 32) % 32;
                    assert(*size + pad == padded_len(*size as nat));
                    size.checked_add(pad)
                }
            },
            ParamType::FixedArray(inner, size) => {
                if *size == 0 {
                    assert(0 * inner.head_width() == 0);
                    Some(0)
                } else if inner.is_dynamic() {
                    Some(32)
                } else {
                    match inner.head_width_checked() {
                        None => {
                            assert(*size as nat * inner.head_width() >= inner.head_width())
                                by (nonlinear_arith)
                                requires
                                    *size >= 1,
                            ;
                            None
                        },
                        Some(w) => size.checked_mul(w),
                    }
                }
            },
            _ => Some(32),
        }
    }

    /// A copy of this shape.
    pub fn duplicate(&self) -> (r: ParamType)
        ensures
            r == *self,
        decreases *self,
    {
        match self {
            ParamType::Address => ParamType::Address,
            ParamType::Bytes => ParamType::Bytes,
            ParamType::Int(bits) => ParamType::Int(*bits),
            ParamType::Uint(bits) => ParamType::Uint(*bits),
            ParamType::Bool => ParamType::Bool,
            ParamType::String => ParamType::String,
            ParamType::Array(inner) => ParamType::Array(Box::new(inner.duplicate())),
            ParamType::FixedBytes(size) => ParamType::FixedBytes(*size),
            ParamType::FixedArray(inner, size) => ParamType::FixedArray(
                Box::new(inner.duplicate()),
                *size,
            ),
        }
    }

    /// Whether the encoded width of a value of this shape depends on the value:
    /// true of bytes, text and arrays, and of a fixed array that holds at least
    /// one element of such a shape.
    pub fn is_dynamic(&self) -> (r: bool)
        ensures
            r == self.dynamic(),
        decreases *self,
    {
        match self {
            ParamType::Bytes | ParamType::String | ParamType::Array(_) => true,
            ParamType::FixedArray(inner, size) => *size > 0 && inner.is_dynamic(),
            _ => false,
        }
    }
}

impl Clone for ParamType {
    fn clone(&self) -> (r: ParamType)
        ensures
            r == *self,
    {
        self.duplicate()
    }
}

} // verus!
