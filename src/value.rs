use vstd::prelude::*;

verus! {

/// `x` reduced modulo `modulus` and read as a two's-complement number of that
/// width: the result lies in `[-modulus / 2, modulus / 2)`.
pub open spec fn wrap_signed(x: int, modulus: int) -> int {
    let m = x % modulus;
    if 2 * m < modulus {
        m
    } else {
        m - modulus
    }
}

/// A 32-bit signed numeric view of an operand.
///
/// Each constructor is lossy on purpose: a 64-bit source keeps its low 32 bits,
/// and every source is read as a two's-complement number of its own width, so
/// narrower sources are sign-extended to 32 bits.
#[derive(Clone, Copy, Debug, PartialEq, Eq, Structural)]
pub struct Value {
    pub data: i32,
}

impl Value {
    /// Keeps the low 32 bits of `input` as a signed number.
    pub fn from_quad(input: u64) -> (r: Self)
        ensures
            r.data == wrap_signed(input as int, 0x1_0000_0000),
    {
        let low: u64 = input & 0xffff_ffff;
        assert(low == input % 0x1_0000_0000) by (bit_vector)
            requires
                low == input & 0xffff_ffff,
        ;
        Self::from_word(low as u32)
    }

    /// Reads the 32 bits of `input` as a signed number.
    pub fn from_word(input: u32) -> (r: Self)
        ensures
            r.data == wrap_signed(input as int, 0x1_0000_0000),
    {
        if input < 0x8000_0000 {
            Self { data: input as i32 }
        } else {
            Self { data: (input as i64 - 0x1_0000_0000i64) as i32 }
        }
    }

    /// Sign-extends the 16 bits of `input` to 32 bits.
    pub fn from_half(input: u16) -> (r: Self)
        ensures
            r.data == wrap_signed(input as int, 0x1_0000),
    {
        if input < 0x8000 {
            Self { data: input as i32 }
        } else {
            Self { data: input as i32 - 0x1_0000i32 }
        }
    }

    /// Sign-extends the 8 bits of `input` to 32 bits.
    pub fn from_byte(input: u8) -> (r: Self)
        ensures
            r.data == wrap_signed(input as int, 0x100),
    {
        if input < 0x80 {
            Self { data: input as i32 }
        } else {
            Self { data: input as i32 - 0x100i32 }
        }
    }
}

} // verus!
