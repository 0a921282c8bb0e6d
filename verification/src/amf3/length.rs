//! Abstraction over the AMF3 length and reference types.
use vstd::prelude::*;
use crate::errors::Error;
use crate::amf3::integer::{spec_read_int, spec_write_int, lemma_int_unsigned_roundtrip};

verus! {

/// The length-or-reference header that precedes many AMF3 values
#[derive(Debug, Clone, Copy, PartialEq, Eq, Structural)]
pub enum Length {
    /// An inline value of the given size follows
    Size(u32),
    /// A reference to the entry at this index of a reference table
    Reference(usize),
}

impl Length {
    /// Is this a reference
    pub fn is_reference(&self) -> (r: bool)
        ensures
            r == (*self is Reference),
    {
        matches!(self, Length::Reference(_))
    }

    /// Is this a size
    pub fn is_size(&self) -> (r: bool)
        ensures
            r == (*self is Size),
    {
        matches!(self, Length::Size(_))
    }

    /// The referenced index, if this is a reference
    pub fn as_position(&self) -> (r: Option<usize>)
        ensures
            r == (match *self {
                Length::Reference(x) => Some(x),
                Length::Size(_) => None::<usize>,
            }),
    {
        match self {
            Length::Reference(x) => Some(*x),
            _ => None,
        }
    }
}

/// The header an unsigned U29 value stands for: low bit clear is a reference, set is a size;
/// the remaining bits are the index or size.
pub open spec fn length_of(val: u32) -> Length {
    if val & 1 == 0 {
        Length::Reference((val >> 1) as usize)
    } else {
        Length::Size(val >> 1)
    }
}

/// The result of reading a length header at `p`.
pub open spec fn spec_read_length(s: Seq<u8>, p: int) -> Result<(int, Length), Error> {
    match spec_read_int(s, p) {
        Ok((e, val)) => Ok((e, length_of(val))),
        Err(e) => Err(e),
    }
}

/// The unsigned U29 value that carries a header: the index or size shifted left once, with
/// the low bit set for sizes.
pub open spec fn length_payload(l: Length) -> i32 {
    match l {
        Length::Size(x) => ((x << 1) | 1) as i32,
        Length::Reference(x) => (x << 1) as i32,
    }
}

/// The bytes written for a header.
pub open spec fn spec_write_length(l: Length) -> Seq<u8> {
    spec_write_int(length_payload(l))
}

/// A size or reference below 2^27 is read back from the bytes written for it.
pub proof fn lemma_length_roundtrip(l: Length)
    requires
        match l {
            Length::Size(x) => x < 0x0800_0000,
            Length::Reference(x) => x < 0x0800_0000,
        },
    ensures
        spec_read_length(spec_write_length(l), 0) == Ok::<(int, Length), Error>(
            (spec_write_length(l).len() as int, l),
        ),
{
    match l {
        Length::Size(x) => {
            let v = (x << 1) | 1;
            assert(v < 0x1000_0000 && v & 1 == 1 && v >> 1 == x) by (bit_vector)
                requires x < 0x0800_0000, v == (x << 1) | 1;
            assert((v as i32) as u32 == v);
            lemma_int_unsigned_roundtrip(v as i32);
        },
        Length::Reference(x) => {
            let v = (x << 1) as u32;
            assert(v < 0x1000_0000 && v & 1 == 0 && (v >> 1) as usize == x) by (bit_vector)
                requires x < 0x0800_0000, v == (x << 1) as u32;
            assert((x << 1) as i32 == v as i32) by (bit_vector)
                requires x < 0x0800_0000, v == (x << 1) as u32;
            lemma_int_unsigned_roundtrip(v as i32);
        },
    }
}

} // verus!
