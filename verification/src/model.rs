//! The mathematical model of the codec.
//!
//! A value is read as a number in base four, least significant digit first:
//! digit `i` of `v` is `(v / 4^i) % 4`, which is bits `2i` and `2i + 1` of
//! `v`. A carrier byte `b` holds one digit in its two low-order bits,
//! `b % 4`, and keeps its other six bits, `b / 4`.

use vstd::prelude::*;
use vstd::arithmetic::power2::{pow2, lemma2_to64, lemma2_to64_rest, lemma_pow2_adds};
use crate::error::{ErrorKind, Operation, StegoError};

verus! {

/// Four to the power `n`.
pub open spec fn pow4(n: nat) -> nat
    decreases n,
{
    if n == 0 {
        1
    } else {
        4 * pow4((n - 1) as nat)
    }
}

/// Digit `i` of `v` in base four.
pub open spec fn digit(v: nat, i: nat) -> nat {
    (v / pow4(i)) % 4
}

/// The carrier byte `b` after its two low-order bits were replaced by the
/// base-four digit `d`.
pub open spec fn with_digit(b: u8, d: nat) -> u8 {
    ((b / 4) * 4 + d % 4) as u8
}

/// Whether the window of `size` bytes at `offset` lies inside a buffer of
/// `len` bytes; if it does not, the kind of the fault.
pub open spec fn window_fault(len: nat, offset: usize, size: usize) -> Option<ErrorKind> {
    if offset + size > usize::MAX {
        Some(ErrorKind::Overflow)
    } else if offset + size > len {
        Some(ErrorKind::OutOfBounds)
    } else {
        None
    }
}

/// The buffer `b` after `value` was imprinted on the window of `size` bytes
/// at `offset`: byte `offset + i` takes digit `i` of `value` in its two
/// low-order bits; every other bit of the buffer is as before.
pub open spec fn imprinted(b: Seq<u8>, value: u64, offset: int, size: int) -> Seq<u8> {
    Seq::new(
        b.len(),
        |k: int|
            if offset <= k < offset + size {
                with_digit(b[k], digit(value as nat, (k - offset) as nat))
            } else {
                b[k]
            },
    )
}

/// The value held by the window of `size` bytes at `offset`: the sum over
/// `i < size` of `(b[offset + i] % 4) * 4^i`.
pub open spec fn extracted(b: Seq<u8>, offset: int, size: nat) -> nat
    decreases size,
{
    if size == 0 {
        0
    } else {
        extracted(b, offset, (size - 1) as nat) + (b[offset + size - 1] % 4) as nat * pow4(
            (size - 1) as nat,
        )
    }
}

/// What `modify` returns on a buffer of `len` bytes.
pub open spec fn modify_result(len: nat, offset: usize, size: usize) -> Result<(), StegoError> {
    match window_fault(len, offset, size) {
        Some(kind) => Err(StegoError { kind, operation: Operation::Imprint }),
        None => Ok(()),
    }
}

/// What `recover` returns on the buffer `b`.
pub open spec fn recover_result(b: Seq<u8>, offset: usize, size: usize) -> Result<u64, StegoError> {
    match window_fault(b.len(), offset, size) {
        Some(kind) => Err(StegoError { kind, operation: Operation::Extract }),
        None => if size > 32 {
            Err(StegoError { kind: ErrorKind::SizeLimitExceeded, operation: Operation::Extract })
        } else {
            Ok(extracted(b, offset as int, size as nat) as u64)
        },
    }
}

/// Every power of four is positive.
pub proof fn lemma_pow4_positive(n: nat)
    ensures
        pow4(n) > 0,
    decreases n,
{
    if n > 0 {
        lemma_pow4_positive((n - 1) as nat);
    }
}

/// The powers of four do not decrease.
pub proof fn lemma_pow4_increases(a: nat, b: nat)
    requires
        a <= b,
    ensures
        pow4(a) <= pow4(b),
    decreases b,
{
    if a < b {
        lemma_pow4_increases(a, (b - 1) as nat);
    }
}

/// `4^n` is `2^(2n)`.
pub proof fn lemma_pow4_is_pow2(n: nat)
    ensures
        pow4(n) == pow2(2 * n),
    decreases n,
{
    if n == 0 {
        lemma2_to64();
    } else {
        lemma_pow4_is_pow2((n - 1) as nat);
        lemma_pow2_adds(2 * (n - 1) as nat, 2);
        lemma2_to64();
    }
}

/// `4^(a + b)` is `4^a * 4^b`.
pub proof fn lemma_pow4_adds(a: nat, b: nat)
    ensures
        pow4(a + b) == pow4(a) * pow4(b),
{
    lemma_pow4_is_pow2(a);
    lemma_pow4_is_pow2(b);
    lemma_pow4_is_pow2(a + b);
    lemma_pow2_adds(2 * a, 2 * b);
}

/// The powers of four that bound what a window can hold: a payload byte on
/// 4 carrier bytes, a 64-bit value on 32.
pub proof fn lemma_pow4_limits()
    ensures
        pow4(4) == 0x100,
        pow4(31) == 0x4000_0000_0000_0000,
        pow4(32) == 0x1_0000_0000_0000_0000,
{
    lemma_pow4_is_pow2(4);
    lemma_pow4_is_pow2(31);
    lemma_pow4_is_pow2(32);
    lemma2_to64();
    lemma2_to64_rest();
}

/// A window of `size` bytes holds a value below `4^size`.
pub proof fn lemma_extracted_bound(b: Seq<u8>, offset: int, size: nat)
    ensures
        extracted(b, offset, size) < pow4(size),
    decreases size,
{
    if size > 0 {
        let n = (size - 1) as nat;
        lemma_extracted_bound(b, offset, n);
        let d = (b[offset + size - 1] % 4) as nat;
        assert(d * pow4(n) <= 3 * pow4(n)) by (nonlinear_arith)
            requires
                d <= 3,
        ;
    }
}

} // verus!
