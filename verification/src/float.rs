//! The representation of an arbitrary-precision binary float as plain data:
//! precision, sign, exponent and significand limbs.
//!
//! A value is carried here exactly as the arithmetic primitive lays it out, so
//! that it can be stored and restored bit for bit. Arithmetic on values is the
//! primitive's business and is not part of this crate.
use vstd::prelude::*;

verus! {

/// Exponent field of a zero.
pub const EXP_ZERO: i64 = -0x7FFF_FFFF_FFFF_FFFF;

/// Exponent field of a NaN.
pub const EXP_NAN: i64 = -0x7FFF_FFFF_FFFF_FFFE;

/// Exponent field of an infinity.
pub const EXP_INF: i64 = -0x7FFF_FFFF_FFFF_FFFD;

/// The most significant bit of a limb.
pub const LIMB_HIGH_BIT: u64 = 0x8000_0000_0000_0000;

/// Number of 64-bit limbs that hold a significand of `prec` bits.
pub open spec fn limb_count(prec: u32) -> nat {
    ((prec as nat) + 63) / 64
}

/// Mathematical model of a float: what its four fields hold.
pub struct FloatParts {
    pub prec: u32,
    pub negative: bool,
    pub exp: i64,
    pub limbs: Seq<u64>,
}

impl FloatParts {
    /// A float is well formed when its precision is at least one bit and it has
    /// exactly as many limbs as that precision needs.
    pub open spec fn wf(self) -> bool {
        &&& self.prec >= 1
        &&& self.limbs.len() == limb_count(self.prec)
    }

    /// Positive zero of precision `prec`, all limbs cleared.
    pub open spec fn zero(prec: u32) -> FloatParts {
        FloatParts {
            prec,
            negative: false,
            exp: EXP_ZERO,
            limbs: Seq::new(limb_count(prec), |i: int| 0u64),
        }
    }

    /// The number one at precision `prec`: significand one half, exponent one.
    /// The significand is left-justified, so only the top bit of the most
    /// significant (last) limb is set.
    pub open spec fn one(prec: u32) -> FloatParts {
        FloatParts {
            prec,
            negative: false,
            exp: 1,
            limbs: Seq::new(
                limb_count(prec),
                |i: int| if i == limb_count(prec) - 1 { LIMB_HIGH_BIT } else { 0u64 },
            ),
        }
    }

    pub open spec fn is_zero(self) -> bool {
        self.exp == EXP_ZERO
    }

    pub open spec fn is_nan(self) -> bool {
        self.exp == EXP_NAN
    }
}

/// An arbitrary-precision float held as its raw fields. Limbs are stored least
/// significant first. Every value of this type is well formed: the fields are
/// private and each constructor checks them.
#[derive(Debug, PartialEq, Eq)]
pub struct RawFloat {
    prec: u32,
    negative: bool,
    exp: i64,
    limbs: Vec<u64>,
}

impl View for RawFloat {
    type V = FloatParts;

    closed spec fn view(&self) -> FloatParts {
        FloatParts { prec: self.prec, negative: self.negative, exp: self.exp, limbs: self.limbs@ }
    }
}

impl Clone for RawFloat {
    fn clone(&self) -> (out: Self)
        ensures
            out@ == self@,
    {
        proof {
            use_type_invariant(self);
        }
        RawFloat {
            prec: self.prec,
            negative: self.negative,
            exp: self.exp,
            limbs: self.limbs.clone(),
        }
    }
}

/// Number of limbs for a significand of `prec` bits.
pub fn limbs_for(prec: u32) -> (n: usize)
    ensures
        n == limb_count(prec),
        n <= 0x400_0000,
{
    let wide: u64 = (prec as u64 + 63) / 64;
    wide as usize
}

impl RawFloat {
    /// Holds of every float in executable code.
    #[verifier::type_invariant]
    pub open spec fn inv(&self) -> bool {
        self@.wf()
    }

    /// Builds a float from its fields. The fields are accepted exactly when
    /// they describe a well-formed value.
    pub fn from_parts(prec: u32, negative: bool, exp: i64, limbs: Vec<u64>) -> (out: Option<
        RawFloat,
    >)
        ensures
            out is Some <==> (prec >= 1 && limbs@.len() == limb_count(prec)),
            out is Some ==> out->0@ == (FloatParts { prec, negative, exp, limbs: limbs@ }),
    {
        if prec >= 1 && limbs.len() == limbs_for(prec) {
            Some(RawFloat { prec, negative, exp, limbs })
        } else {
            None
        }
    }

    /// A float of at most 64 bits of precision, which has a single limb.
    pub fn from_limb(prec: u32, negative: bool, exp: i64, limb: u64) -> (out: RawFloat)
        requires
            1 <= prec <= 64,
        ensures
            out@ == (FloatParts { prec, negative, exp, limbs: seq![limb] }),
    {
        let mut limbs: Vec<u64> = Vec::new();
        limbs.push(limb);
        assert(limbs@ =~= seq![limb]);
        RawFloat { prec, negative, exp, limbs }
    }

    /// Positive zero at the given precision.
    pub fn zero(prec: u32) -> (out: RawFloat)
        requires
            prec >= 1,
        ensures
            out@ == FloatParts::zero(prec),
    {
        let n: usize = limbs_for(prec);
        let mut limbs: Vec<u64> = Vec::new();
        while limbs.len() < n
            invariant
                limbs@.len() <= n,
                forall|i: int| 0 <= i < limbs@.len() ==> limbs@[i] == 0u64,
            decreases n - limbs@.len(),
        {
            limbs.push(0);
        }
        assert(limbs@ =~= FloatParts::zero(prec).limbs);
        RawFloat { prec, negative: false, exp: EXP_ZERO, limbs }
    }

    /// The number one at the given precision.
    pub fn one(prec: u32) -> (out: RawFloat)
        requires
            prec >= 1,
        ensures
            out@ == FloatParts::one(prec),
    {
        let n: usize = limbs_for(prec);
        let mut limbs: Vec<u64> = Vec::new();
        while limbs.len() + 1 < n
            invariant
                n >= 1,
                limbs@.len() < n,
                forall|i: int| 0 <= i < limbs@.len() ==> limbs@[i] == 0u64,
            decreases n - limbs@.len(),
        {
            limbs.push(0);
        }
        limbs.push(LIMB_HIGH_BIT);
        assert(limbs@ =~= FloatParts::one(prec).limbs);
        RawFloat { prec, negative: false, exp: 1, limbs }
    }

    /// The precision in bits.
    pub fn prec(&self) -> (p: u32)
        ensures
            p == self@.prec,
            p >= 1,
    {
        proof {
            use_type_invariant(self);
        }
        self.prec
    }

    /// Whether the sign bit is set.
    pub fn is_negative(&self) -> (b: bool)
        ensures
            b == self@.negative,
    {
        self.negative
    }

    /// The raw exponent field.
    pub fn exp(&self) -> (e: i64)
        ensures
            e == self@.exp,
    {
        self.exp
    }

    /// The significand limbs, least significant first.
    pub fn limbs(&self) -> (l: &Vec<u64>)
        ensures
            l@ == self@.limbs,
            l@.len() == limb_count(self@.prec),
    {
        proof {
            use_type_invariant(self);
        }
        &self.limbs
    }

    /// Whether the value is a zero of either sign.
    pub fn is_zero(&self) -> (b: bool)
        ensures
            b == self@.is_zero(),
    {
        self.exp == EXP_ZERO
    }

    /// Whether the value is not a number.
    pub fn is_nan(&self) -> (b: bool)
        ensures
            b == self@.is_nan(),
    {
        self.exp == EXP_NAN
    }
}

} // verus!
