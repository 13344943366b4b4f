//! Exact binary codec for one float.
//!
//! Layout, all integers little-endian: precision in bits (4 bytes), sign
//! (1 byte, `+1` or `-1`), exponent (8 bytes), limb count (8 bytes), then the
//! limbs (8 bytes each, least significant limb first). No base conversion
//! takes place, so a value read back is the value written, bit for bit.
use crate::float::{limb_count, limbs_for, FloatParts, RawFloat};
use vstd::bytes::{
    lemma_auto_spec_u32_to_from_le_bytes, lemma_auto_spec_u64_to_from_le_bytes,
    spec_u32_from_le_bytes, spec_u32_to_le_bytes, spec_u64_from_le_bytes, spec_u64_to_le_bytes,
    u32_from_le_bytes, u32_to_le_bytes, u64_from_le_bytes, u64_to_le_bytes,
};
use vstd::prelude::*;
use vstd::slice::slice_subrange;

verus! {

/// Bytes before the limbs: precision, sign, exponent, limb count.
pub const FLOAT_HEADER_LEN: usize = 21;

/// Sign byte of a positive value.
pub const SIGN_POSITIVE: u8 = 0x01;

/// Sign byte of a negative value: `-1` as a signed byte.
pub const SIGN_NEGATIVE: u8 = 0xFF;

/// Why a byte sequence is not the encoding of a float.
#[derive(Clone, Copy, Debug, PartialEq, Eq)]
pub enum DecodeError {
    /// The bytes end inside a field or inside the limb array.
    UnexpectedEof,
    /// The stored precision is zero.
    InvalidPrecision,
    /// The stored limb count is not the one the stored precision needs.
    LimbCountMismatch,
}

impl DecodeError {
    /// The text of `message`.
    pub open spec fn message_text(self) -> Seq<char> {
        match self {
            DecodeError::UnexpectedEof => "float encoding ends early"@,
            DecodeError::InvalidPrecision => "float precision is zero"@,
            DecodeError::LimbCountMismatch => "limb count does not match precision"@,
        }
    }

    /// A short description for people.
    pub fn message(&self) -> (text: &'static str)
        ensures
            text@ == self.message_text(),
    {
        match self {
            DecodeError::UnexpectedEof => "float encoding ends early",
            DecodeError::InvalidPrecision => "float precision is zero",
            DecodeError::LimbCountMismatch => "limb count does not match precision",
        }
    }
}

pub open spec fn sign_byte(negative: bool) -> u8 {
    if negative {
        SIGN_NEGATIVE
    } else {
        SIGN_POSITIVE
    }
}

/// A sign byte means "negative" when it is below zero as a signed byte.
pub open spec fn sign_is_negative(b: u8) -> bool {
    b >= 0x80
}

/// The limb array as bytes: byte `k` is byte `k % 8` of limb `k / 8`.
pub open spec fn limbs_bytes(limbs: Seq<u64>) -> Seq<u8> {
    Seq::new(8 * limbs.len(), |k: int| spec_u64_to_le_bytes(limbs[k / 8])[k % 8])
}

/// The limbs that `8 * n` bytes hold.
pub open spec fn limbs_from_bytes(bytes: Seq<u8>, n: nat) -> Seq<u64> {
    Seq::new(n, |i: int| spec_u64_from_le_bytes(bytes.subrange(8 * i, 8 * i + 8)))
}

/// The encoding of a float.
pub open spec fn float_bytes(f: FloatParts) -> Seq<u8> {
    spec_u32_to_le_bytes(f.prec) + seq![sign_byte(f.negative)] + spec_u64_to_le_bytes(f.exp as u64)
        + spec_u64_to_le_bytes(f.limbs.len() as u64) + limbs_bytes(f.limbs)
}

/// What decoding makes of a byte sequence: the float at its start and the
/// number of bytes it occupies, or the reason there is none.
pub open spec fn parse_float(bytes: Seq<u8>) -> Result<(FloatParts, nat), DecodeError> {
    if bytes.len() < FLOAT_HEADER_LEN {
        Err(DecodeError::UnexpectedEof)
    } else {
        let prec = spec_u32_from_le_bytes(bytes.subrange(0, 4));
        let negative = sign_is_negative(bytes[4]);
        let exp = spec_u64_from_le_bytes(bytes.subrange(5, 13)) as i64;
        let n = spec_u64_from_le_bytes(bytes.subrange(13, 21)) as nat;
        if bytes.len() - FLOAT_HEADER_LEN < 8 * n {
            Err(DecodeError::UnexpectedEof)
        } else if prec == 0 {
            Err(DecodeError::InvalidPrecision)
        } else if n != limb_count(prec) {
            Err(DecodeError::LimbCountMismatch)
        } else {
            let limbs = limbs_from_bytes(bytes.subrange(21, 21 + 8 * n as int), n);
            Ok((FloatParts { prec, negative, exp, limbs }, (21 + 8 * n) as nat))
        }
    }
}

/// Length of an encoding: the header and eight bytes per limb.
pub proof fn lemma_float_bytes_len(f: FloatParts)
    ensures
        float_bytes(f).len() == FLOAT_HEADER_LEN + 8 * f.limbs.len(),
{
    lemma_auto_spec_u32_to_from_le_bytes();
    lemma_auto_spec_u64_to_from_le_bytes();
}

proof fn lemma_exp_cast(e: i64)
    ensures
        (e as u64) as i64 == e,
{
    assert((e as u64) as i64 == e) by (bit_vector);
}

proof fn lemma_limbs_round_trip(limbs: Seq<u64>)
    ensures
        limbs_from_bytes(limbs_bytes(limbs), limbs.len()) == limbs,
{
    lemma_auto_spec_u64_to_from_le_bytes();
    let bytes = limbs_bytes(limbs);
    assert forall|i: int| 0 <= i < limbs.len() implies spec_u64_from_le_bytes(
        bytes.subrange(8 * i, 8 * i + 8),
    ) == limbs[i] by {
        assert(bytes.subrange(8 * i, 8 * i + 8) =~= spec_u64_to_le_bytes(limbs[i]));
    }
    assert(limbs_from_bytes(bytes, limbs.len()) =~= limbs);
}

/// Round trip: decoding the encoding of a well-formed float, whatever bytes
/// follow it, gives back that float, field for field, and consumes exactly
/// the encoding.
pub proof fn lemma_round_trip(f: FloatParts, rest: Seq<u8>)
    requires
        f.wf(),
    ensures
        parse_float(float_bytes(f) + rest) == Ok::<(FloatParts, nat), DecodeError>(
            (f, float_bytes(f).len()),
        ),
{
    lemma_auto_spec_u32_to_from_le_bytes();
    lemma_auto_spec_u64_to_from_le_bytes();
    lemma_exp_cast(f.exp);
    lemma_limbs_round_trip(f.limbs);
    let n = f.limbs.len();
    let enc = float_bytes(f);
    let bytes = enc + rest;
    assert(bytes.subrange(0, 4) =~= spec_u32_to_le_bytes(f.prec));
    assert(bytes[4] == sign_byte(f.negative));
    assert(bytes.subrange(5, 13) =~= spec_u64_to_le_bytes(f.exp as u64));
    assert(bytes.subrange(13, 21) =~= spec_u64_to_le_bytes(n as u64));
    assert(bytes.subrange(21, 21 + 8 * n as int) =~= limbs_bytes(f.limbs));
}

/// A proper prefix of an encoding is rejected as ending early.
pub proof fn lemma_truncated(f: FloatParts, len: nat)
    requires
        f.wf(),
        len < float_bytes(f).len(),
    ensures
        parse_float(float_bytes(f).take(len as int)) == Err::<(FloatParts, nat), DecodeError>(
            DecodeError::UnexpectedEof,
        ),
{
    lemma_auto_spec_u32_to_from_le_bytes();
    lemma_auto_spec_u64_to_from_le_bytes();
    let n = f.limbs.len();
    let enc = float_bytes(f);
    let cut = enc.take(len as int);
    if len >= FLOAT_HEADER_LEN {
        assert(cut.subrange(13, 21) =~= spec_u64_to_le_bytes(n as u64));
    }
}

/// The length of the encoding that starts with the given header, as far as
/// the header alone tells: the header and eight bytes for each limb that it
/// announces. There is none when the header is incomplete or the length is
/// more than the machine can index.
pub open spec fn announced_len(header: Seq<u8>) -> Option<nat> {
    if header.len() < FLOAT_HEADER_LEN {
        None
    } else {
        let n = spec_u64_from_le_bytes(header.subrange(13, 21)) as nat;
        if 21 + 8 * n <= usize::MAX {
            Some(21 + 8 * n)
        } else {
            None
        }
    }
}

/// Tells a reader of a stream how many bytes the float takes whose first
/// bytes are `header`.
pub fn float_len(header: &[u8]) -> (out: Option<usize>)
    ensures
        out is Some == announced_len(header@) is Some,
        out is Some ==> out->0 == announced_len(header@)->0,
{
    if header.len() < FLOAT_HEADER_LEN {
        return None;
    }
    let count: u64 = u64_from_le_bytes(slice_subrange(header, 13, 21));
    if count > ((usize::MAX - FLOAT_HEADER_LEN) / 8) as u64 {
        return None;
    }
    Some(FLOAT_HEADER_LEN + 8 * (count as usize))
}

/// The announced length of an encoding is its length.
pub proof fn lemma_announced_len(f: FloatParts, rest: Seq<u8>)
    requires
        f.wf(),
    ensures
        announced_len(float_bytes(f) + rest) == Some(float_bytes(f).len()),
{
    lemma_auto_spec_u32_to_from_le_bytes();
    lemma_auto_spec_u64_to_from_le_bytes();
    let n = f.limbs.len();
    assert((float_bytes(f) + rest).subrange(13, 21) =~= spec_u64_to_le_bytes(n as u64));
}

/// Appends the encoding of `f` to `writer`.
pub fn write_float(writer: &mut Vec<u8>, f: &RawFloat)
    ensures
        final(writer)@ == old(writer)@ + float_bytes(f@),
{
    let ghost start = writer@;
    let mut prec_bytes: Vec<u8> = u32_to_le_bytes(f.prec());
    writer.append(&mut prec_bytes);
    writer.push(
        if f.is_negative() {
            SIGN_NEGATIVE
        } else {
            SIGN_POSITIVE
        },
    );
    let mut exp_bytes: Vec<u8> = u64_to_le_bytes(
        #[verifier::truncate]
        (f.exp() as u64),
    );
    writer.append(&mut exp_bytes);
    let limbs = f.limbs();
    let n: usize = limbs.len();
    let mut count_bytes: Vec<u8> = u64_to_le_bytes(n as u64);
    writer.append(&mut count_bytes);
    let ghost head = writer@;
    assert(head =~= start + (spec_u32_to_le_bytes(f@.prec) + seq![sign_byte(f@.negative)]
        + spec_u64_to_le_bytes(f@.exp as u64) + spec_u64_to_le_bytes(n as u64)));
    let mut i: usize = 0;
    while i < n
        invariant
            i <= n,
            n == limbs@.len(),
            writer@ == head + limbs_bytes(limbs@.take(i as int)),
        decreases n - i,
    {
        let mut limb_bytes: Vec<u8> = u64_to_le_bytes(limbs[i]);
        writer.append(&mut limb_bytes);
        proof {
            lemma_auto_spec_u64_to_from_le_bytes();
            assert(limbs_bytes(limbs@.take(i + 1)) =~= limbs_bytes(limbs@.take(i as int))
                + spec_u64_to_le_bytes(limbs@[i as int]));
        }
        i += 1;
    }
    proof {
        assert(limbs@.take(n as int) =~= limbs@);
        assert(writer@ =~= start + float_bytes(f@));
    }
}

/// Decodes the float at the start of `bytes`. Returns it with the number of
/// bytes it occupies; bytes after it are not looked at.
pub fn read_float(bytes: &[u8]) -> (out: Result<(RawFloat, usize), DecodeError>)
    ensures
        match out {
            Ok((f, used)) => parse_float(bytes@) == Ok::<(FloatParts, nat), DecodeError>(
                (f@, used as nat),
            ),
            Err(e) => parse_float(bytes@) == Err::<(FloatParts, nat), DecodeError>(e),
        },
{
    if bytes.len() < FLOAT_HEADER_LEN {
        return Err(DecodeError::UnexpectedEof);
    }
    let prec: u32 = u32_from_le_bytes(slice_subrange(bytes, 0, 4));
    let negative: bool = bytes[4] >= 0x80;
    let exp: i64 = #[verifier::truncate]
    (u64_from_le_bytes(slice_subrange(bytes, 5, 13)) as i64);
    let count: u64 = u64_from_le_bytes(slice_subrange(bytes, 13, 21));
    let room: usize = (bytes.len() - FLOAT_HEADER_LEN) / 8;
    if (room as u64) < count {
        return Err(DecodeError::UnexpectedEof);
    }
    if prec == 0 {
        return Err(DecodeError::InvalidPrecision);
    }
    let n: usize = limbs_for(prec);
    if count != n as u64 {
        return Err(DecodeError::LimbCountMismatch);
    }
    let ghost body = bytes@.subrange(21, 21 + 8 * n);
    let mut limbs: Vec<u64> = Vec::new();
    let mut i: usize = 0;
    while i < n
        invariant
            i <= n,
            21 + 8 * n <= bytes@.len() <= usize::MAX,
            body == bytes@.subrange(21, 21 + 8 * n),
            limbs@ == limbs_from_bytes(body, i as nat),
        decreases n - i,
    {
        let at: usize = FLOAT_HEADER_LEN + 8 * i;
        let limb: u64 = u64_from_le_bytes(slice_subrange(bytes, at, at + 8));
        proof {
            assert(bytes@.subrange(at as int, at + 8) =~= body.subrange(8 * i, 8 * i + 8));
            assert(limbs@.push(limb) =~= limbs_from_bytes(body, (i + 1) as nat));
        }
        limbs.push(limb);
        i += 1;
    }
    match RawFloat::from_parts(prec, negative, exp, limbs) {
        Some(f) => Ok((f, FLOAT_HEADER_LEN + 8 * n)),
        None => Err(DecodeError::LimbCountMismatch),
    }
}

} // verus!
