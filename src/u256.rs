//! Unsigned 256-bit integers, held as four 64-bit words.
use vstd::prelude::*;
use primitive_types::U256;

verus! {

/// The number of values a 64-bit word holds.
pub open spec fn word_base() -> nat {
    0x1_0000_0000_0000_0000
}

/// A 256-bit unsigned integer; `w0` is the least significant word.
#[derive(Clone, Copy, Debug, PartialEq, Eq, Structural)]
pub struct Uint256 {
    pub w0: u64,
    pub w1: u64,
    pub w2: u64,
    pub w3: u64,
}

impl Uint256 {
    /// The number this value stands for.
    pub open spec fn value(self) -> nat {
        self.w0 as nat + word_base() * (self.w1 as nat + word_base() * (self.w2 as nat
            + word_base() * self.w3 as nat))
    }

    pub fn zero() -> (r: Uint256)
        ensures
            r.value() == 0,
    {
        Uint256 { w0: 0, w1: 0, w2: 0, w3: 0 }
    }

    pub fn from_u64(x: u64) -> (r: Uint256)
        ensures
            r.value() == x,
    {
        Uint256 { w0: x, w1: 0, w2: 0, w3: 0 }
    }

    /// The easiest allowed target: the low 208 bits set, the top 48 bits clear.
    pub fn min_target() -> (r: Uint256)
        ensures
            r.value() == min_target_value(),
    {
        let r = Uint256 {
            w0: 0xFFFF_FFFF_FFFF_FFFF,
            w1: 0xFFFF_FFFF_FFFF_FFFF,
            w2: 0xFFFF_FFFF_FFFF_FFFF,
            w3: 0x0000_0000_0000_FFFF,
        };
        assert(r.value() == min_target_value()) by (nonlinear_arith)
            requires
                r.w0 == 0xFFFF_FFFF_FFFF_FFFFu64,
                r.w1 == 0xFFFF_FFFF_FFFF_FFFFu64,
                r.w2 == 0xFFFF_FFFF_FFFF_FFFFu64,
                r.w3 == 0xFFFFu64,
        ;
        r
    }
}

/// `2^208 - 1`, the value of the easiest allowed target.
pub open spec fn min_target_value() -> nat {
    (word_base() * word_base() * word_base() * 0x1_0000 - 1) as nat
}

/// `2^256`: every `Uint256` lies below it.
pub open spec fn u256_bound() -> nat {
    word_base() * word_base() * word_base() * word_base()
}

/// Relies on the ordering of primitive_types' `U256`, which compares the
/// words from the most significant one down, that is, the numbers.
#[verifier::external_body]
pub(crate) fn le(a: &Uint256, b: &Uint256) -> (r: bool)
    ensures
        r == (a.value() <= b.value()),
{
    U256([a.w0, a.w1, a.w2, a.w3]) <= U256([b.w0, b.w1, b.w2, b.w3])
}

/// Relies on `U256::checked_mul`: the product, or `None` where it does not
/// fit in 256 bits.
#[verifier::external_body]
pub(crate) fn checked_mul(a: &Uint256, b: &Uint256) -> (r: Option<Uint256>)
    ensures
        match r {
            Some(p) => p.value() == a.value() * b.value(),
            None => a.value() * b.value() >= u256_bound(),
        },
{
    U256([a.w0, a.w1, a.w2, a.w3]).checked_mul(U256([b.w0, b.w1, b.w2, b.w3])).map(
        |p| Uint256 { w0: p.0[0], w1: p.0[1], w2: p.0[2], w3: p.0[3] },
    )
}

/// Relies on `U256`'s division, which rounds down and panics on a zero divisor.
#[verifier::external_body]
pub(crate) fn div(a: &Uint256, b: &Uint256) -> (r: Uint256)
    requires
        b.value() > 0,
    ensures
        r.value() == a.value() / b.value(),
{
    let q = U256([a.w0, a.w1, a.w2, a.w3]) / U256([b.w0, b.w1, b.w2, b.w3]);
    Uint256 { w0: q.0[0], w1: q.0[1], w2: q.0[2], w3: q.0[3] }
}

} // verus!
