//! The codec: `modify` imprints a value on a window of carrier bytes, two
//! bits per byte, and `recover` reads it back.

use vstd::prelude::*;
use vstd::arithmetic::div_mod::lemma_div_denominator;
use vstd::bits::lemma_u64_shl_is_mul;
use crate::constants::{DATA_MASK, LSB_MASK};
use crate::error::{ErrorKind, StegoError};
use crate::model::{
    digit, extracted, imprinted, lemma_extracted_bound, lemma_pow4_increases, lemma_pow4_is_pow2,
    lemma_pow4_limits, lemma_pow4_positive, modify_result, pow4, recover_result, with_digit,
};

verus! {

/// Replacing the two low-order bits of `b` by those of `rest` writes the
/// lowest base-four digit of `rest` and keeps the six high-order bits.
proof fn lemma_write_digit(rest: u64, b: u8)
    ensures
        (rest & (LSB_MASK as u64)) < 4,
        (((rest & (LSB_MASK as u64)) as u8) | (b & DATA_MASK)) == with_digit(b, (rest % 4) as nat),
        rest >> 2 == rest / 4,
{
    assert((rest & 3) < 4) by (bit_vector);
    assert((rest & 3) == rest % 4) by (bit_vector);
    assert(rest >> 2 == rest / 4) by (bit_vector);
    let d = (rest & 3) as u8;
    assert((d | (b & 0xFC)) == (b / 4) * 4 + d) by (bit_vector)
        requires
            d < 4,
    ;
}

/// Placing the two low-order bits of `b` at digit position `n` of an
/// accumulator that holds only lower digits adds `(b % 4) * 4^n` to it.
proof fn lemma_place_digit(acc: u64, b: u8, n: usize)
    requires
        n < 32,
        acc < pow4(n as nat),
    ensures
        2 * n < 64,
        (b & LSB_MASK) == b % 4,
        (acc | (((b & LSB_MASK) as u64) << (2 * n) as usize)) == acc + (b % 4) * pow4(n as nat),
        acc + (b % 4) * pow4(n as nat) < pow4((n + 1) as nat),
{
    let d = (b & 3) as u64;
    let sh = (2 * n) as u64;
    let unit = pow4(n as nat);
    assert((b & 3) == b % 4) by (bit_vector);
    lemma_pow4_is_pow2(n as nat);
    lemma_pow4_increases(n as nat, 31);
    lemma_pow4_limits();
    assert(d * unit <= 3 * unit) by (nonlinear_arith)
        requires
            d <= 3,
    ;
    lemma_u64_shl_is_mul(1, sh);
    lemma_u64_shl_is_mul(d, sh);
    let one = 1u64 << sh;
    let x = d << sh;
    assert((acc | x) == acc + x) by (bit_vector)
        requires
            sh < 63,
            acc < one,
            one == 1u64 << sh,
            x == d << sh,
            d < 4,
    ;
}

/// Imprints `value` on the window of `size` bytes at `dix` of `pix`: byte
/// `dix + i` of the window takes bits `2i` and `2i + 1` of `value` in its two
/// low-order bits and keeps its six high-order bits. Bits of `value` from
/// `2 * size` on are dropped: the caller sizes the window to the value.
///
/// Fails, and leaves `pix` as it was, when `dix + size` overflows the index
/// type (`Overflow`) or reaches past the end of `pix` (`OutOfBounds`).
pub fn modify(value: u64, pix: &mut [u8], dix: usize, size: usize) -> (r: Result<(), StegoError>)
    ensures
        r == modify_result(old(pix)@.len(), dix, size),
        r is Ok ==> final(pix)@ == imprinted(old(pix)@, value, dix as int, size as int),
        r is Err ==> final(pix)@ == old(pix)@,
{
    let end = match dix.checked_add(size) {
        Some(end) => end,
        None => {
            return Err(StegoError::imprint(ErrorKind::Overflow));
        },
    };
    if end > pix.len() {
        return Err(StegoError::imprint(ErrorKind::OutOfBounds));
    }
    let ghost before = pix@;
    let mut rest: u64 = value;
    assert(value as nat / pow4(0) == value) by {
        assert(pow4(0) == 1);
    }
    let mut i: usize = dix;
    while i < end
        invariant
            dix <= i <= end,
            end == dix + size,
            end <= pix@.len(),
            pix@.len() == before.len(),
            rest == value as nat / pow4((i - dix) as nat),
            forall|k: int|
                0 <= k < before.len() ==> #[trigger] pix@[k] == if dix <= k < i {
                    with_digit(before[k], digit(value as nat, (k - dix) as nat))
                } else {
                    before[k]
                },
        decreases end - i,
    {
        let byte = pix[i];
        proof {
            let n = (i - dix) as nat;
            lemma_write_digit(rest, byte);
            lemma_pow4_positive(n);
            lemma_div_denominator(value as int, pow4(n) as int, 4);
        }
        pix[i] = ((rest & (LSB_MASK as u64)) as u8) | (byte & DATA_MASK);
        rest = rest >> 2;
        i = i + 1;
    }
    assert(pix@ =~= imprinted(before, value, dix as int, size as int));
    Ok(())
}

/// Reads the value held by the window of `size` bytes at `dix` of `pix`: the
/// two low-order bits of byte `dix + i` become bits `2i` and `2i + 1` of the
/// result. The six high-order bits of each byte are not read.
///
/// Fails when `dix + size` overflows the index type (`Overflow`), when the
/// window reaches past the end of `pix` (`OutOfBounds`), and otherwise when
/// `size` is more than 32 (`SizeLimitExceeded`).
pub fn recover(pix: &[u8], dix: usize, size: usize) -> (r: Result<u64, StegoError>)
    ensures
        r == recover_result(pix@, dix, size),
{
    let end = match dix.checked_add(size) {
        Some(end) => end,
        None => {
            return Err(StegoError::extract(ErrorKind::Overflow));
        },
    };
    if end > pix.len() {
        return Err(StegoError::extract(ErrorKind::OutOfBounds));
    }
    if size > 32 {
        return Err(StegoError::extract(ErrorKind::SizeLimitExceeded));
    }
    let mut acc: u64 = 0;
    let mut i: usize = 0;
    while i < size
        invariant
            i <= size <= 32,
            end == dix + size,
            end <= pix@.len(),
            acc == extracted(pix@, dix as int, i as nat),
            acc < pow4(i as nat),
        decreases size - i,
    {
        let byte = pix[dix + i];
        proof {
            lemma_place_digit(acc, byte, i);
        }
        acc = acc | (((byte & LSB_MASK) as u64) << (2 * i));
        i = i + 1;
    }
    proof {
        lemma_extracted_bound(pix@, dix as int, size as nat);
        lemma_pow4_increases(size as nat, 32);
        lemma_pow4_limits();
    }
    Ok(acc)
}

} // verus!
