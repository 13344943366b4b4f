//! What the matrix kernels check and plan before any arithmetic is done:
//! that the shapes of the operands fit, that a divisor is not zero, and in
//! which blocks the contraction index of a product is walked.
use crate::float::RawFloat;
use vstd::prelude::*;

verus! {

/// Why an operation is not defined on its operands.
#[derive(Clone, Copy, Debug, PartialEq, Eq)]
pub enum DomainError {
    /// A matrix product whose left operand has another number of columns than
    /// its right operand has rows.
    InnerDimensionMismatch,
    /// A matrix-vector product whose vector has another length than the
    /// matrix has columns, or rows for the transposed product.
    VectorLengthMismatch,
    /// A division by a norm or a denominator that is zero.
    ZeroDivisor,
}

impl DomainError {
    /// The text of `message`.
    pub open spec fn message_text(self) -> Seq<char> {
        match self {
            DomainError::InnerDimensionMismatch => "inner dimensions of the product differ"@,
            DomainError::VectorLengthMismatch => "vector length does not fit the matrix"@,
            DomainError::ZeroDivisor => "division by zero"@,
        }
    }

    /// A short description for people.
    pub fn message(&self) -> (text: &'static str)
        ensures
            text@ == self.message_text(),
    {
        match self {
            DomainError::InnerDimensionMismatch => "inner dimensions of the product differ",
            DomainError::VectorLengthMismatch => "vector length does not fit the matrix",
            DomainError::ZeroDivisor => "division by zero",
        }
    }
}

/// Columns of the contraction dimension that a product accumulates in one
/// block.
pub const BLOCK_SIZE: usize = 32;

/// Number of blocks of at most `block` indices that cover `0..k`.
pub open spec fn block_count(k: nat, block: nat) -> nat {
    ((k + block - 1) / (block as int)) as nat
}

/// Block `b` of the range `0..k`: from `b * block` up to, not including,
/// `(b + 1) * block`, cut at `k`.
pub open spec fn block_range(b: nat, k: nat, block: nat) -> (nat, nat) {
    (b * block, if (b + 1) * block <= k {
        (b + 1) * block
    } else {
        k
    })
}

/// The blocks follow one another without gap or overlap from `0` to `k`, and
/// none is empty: walking them in order visits `0..k` in increasing order.
pub proof fn lemma_blocks_partition(k: nat, block: nat, b: nat)
    requires
        block >= 1,
        b < block_count(k, block),
    ensures
        block_range(b, k, block).0 < block_range(b, k, block).1 <= k,
        block_range(b, k, block).1 - block_range(b, k, block).0 <= block,
        b == 0 ==> block_range(b, k, block).0 == 0,
        b + 1 < block_count(k, block) ==> block_range(b, k, block).1 == block_range(
            b + 1,
            k,
            block,
        ).0,
        b + 1 == block_count(k, block) ==> block_range(b, k, block).1 == k,
{
    let n = block_count(k, block);
    // n is the least count with n * block >= k.
    assert(n * block >= k && (n - 1) * block < k) by (nonlinear_arith)
        requires
            block >= 1,
            n == (k + block - 1) / (block as int),
            n >= 1,
    ;
    assert(b * block < k) by (nonlinear_arith)
        requires
            b <= n - 1,
            (n - 1) * block < k,
            block >= 1,
    ;
    assert((b + 1) * block == b * block + block) by (nonlinear_arith);
    assert(b == 0 ==> b * block == 0) by (nonlinear_arith);
    if b + 1 < n {
        assert((b + 1) * block < k) by (nonlinear_arith)
            requires
                b + 1 <= n - 1,
                (n - 1) * block < k,
                block >= 1,
        ;
    } else {
        assert((b + 1) * block >= k);
    }
}

/// The blocks in which the contraction index `0..k` is walked.
pub fn contraction_blocks(k: usize, block: usize) -> (out: Vec<(usize, usize)>)
    requires
        block >= 1,
    ensures
        out@.len() == block_count(k as nat, block as nat),
        forall|b: int|
            0 <= b < out@.len() ==> (#[trigger] out@[b]).0 == block_range(
                b as nat,
                k as nat,
                block as nat,
            ).0 && out@[b].1 == block_range(b as nat, k as nat, block as nat).1,
{
    let mut out: Vec<(usize, usize)> = Vec::new();
    let mut start: usize = 0;
    assert(out@.len() * block == 0) by (nonlinear_arith)
        requires
            out@.len() == 0,
    ;
    while start < k
        invariant
            block >= 1,
            start <= k,
            start == out@.len() * block || (start == k && out@.len() == block_count(
                k as nat,
                block as nat,
            )),
            out@.len() <= block_count(k as nat, block as nat),
            forall|b: int|
                0 <= b < out@.len() ==> (#[trigger] out@[b]).0 == block_range(
                    b as nat,
                    k as nat,
                    block as nat,
                ).0 && out@[b].1 == block_range(b as nat, k as nat, block as nat).1,
        decreases k - start,
    {
        let ghost b = out@.len() as nat;
        let ghost n = block_count(k as nat, block as nat);
        proof {
            assert(n * block >= k && (n - 1) * block < k) by (nonlinear_arith)
                requires
                    block >= 1,
                    n == (k + block - 1) / (block as int),
                    k >= 1,
            ;
            assert(b < n) by (nonlinear_arith)
                requires
                    b * block < k,
                    n * block >= k,
                    block >= 1,
                    b <= n,
            ;
            lemma_blocks_partition(k as nat, block as nat, b);
            assert((b + 1) * block == b * block + block) by (nonlinear_arith);
        }
        let end: usize = if k - start <= block {
            k
        } else {
            start + block
        };
        out.push((start, end));
        start = end;
    }
    proof {
        let n = block_count(k as nat, block as nat);
        if out@.len() != n {
            assert(out@.len() * block == k);
            assert(n * block >= k && (n == 0 || (n - 1) * block < k)) by (nonlinear_arith)
                requires
                    block >= 1,
                    n == (k + block - 1) / (block as int),
            ;
            assert(false) by (nonlinear_arith)
                requires
                    out@.len() < n,
                    out@.len() * block == k,
                    (n - 1) * block < k,
                    block >= 1,
            ;
        }
    }
    out
}

/// The shape of the product of an `a_rows x a_cols` matrix with a
/// `b_rows x b_cols` matrix, which is defined when `a_cols` is `b_rows`.
pub fn matmul_shape(a_rows: usize, a_cols: usize, b_rows: usize, b_cols: usize) -> (out: Result<
    (usize, usize),
    DomainError,
>)
    ensures
        out == if a_cols == b_rows {
            Ok::<(usize, usize), DomainError>((a_rows, b_cols))
        } else {
            Err::<(usize, usize), DomainError>(DomainError::InnerDimensionMismatch)
        },
{
    if a_cols == b_rows {
        Ok((a_rows, b_cols))
    } else {
        Err(DomainError::InnerDimensionMismatch)
    }
}

/// The length of the product of a `rows x cols` matrix with a vector of
/// `len` entries, which is defined when `len` is `cols`.
pub fn matmul_vec_len(rows: usize, cols: usize, len: usize) -> (out: Result<usize, DomainError>)
    ensures
        out == if cols == len {
            Ok::<usize, DomainError>(rows)
        } else {
            Err::<usize, DomainError>(DomainError::VectorLengthMismatch)
        },
{
    if cols == len {
        Ok(rows)
    } else {
        Err(DomainError::VectorLengthMismatch)
    }
}

/// The length of the product of the transpose of a `rows x cols` matrix with
/// a vector of `len` entries, which is defined when `len` is `rows`.
pub fn matmul_transpose_vec_len(rows: usize, cols: usize, len: usize) -> (out: Result<
    usize,
    DomainError,
>)
    ensures
        out == if rows == len {
            Ok::<usize, DomainError>(cols)
        } else {
            Err::<usize, DomainError>(DomainError::VectorLengthMismatch)
        },
{
    if rows == len {
        Ok(cols)
    } else {
        Err(DomainError::VectorLengthMismatch)
    }
}

/// Accepts a divisor exactly when it is not a zero of either sign.
pub fn check_divisor(x: &RawFloat) -> (out: Result<(), DomainError>)
    ensures
        out == if x@.is_zero() {
            Err::<(), DomainError>(DomainError::ZeroDivisor)
        } else {
            Ok::<(), DomainError>(())
        },
{
    if x.is_zero() {
        Err(DomainError::ZeroDivisor)
    } else {
        Ok(())
    }
}

} // verus!
