//! Laws of the codec, stated over the model and proved once for all buffers,
//! windows and values. A buffer is the content of a slice, so where a law
//! speaks of what the operations return, its length fits the index type.

use vstd::prelude::*;
use vstd::arithmetic::div_mod::{
    lemma_basic_div, lemma_breakdown, lemma_fundamental_div_mod_converse,
    lemma_hoist_over_denominator, lemma_small_mod,
};
use vstd::bits::lemma_u64_shr_is_div;
use crate::constants::{BYTES_PER_CHAR, LENGTH_HIDING_BYTES};
use crate::error::{ErrorKind, Operation, StegoError};
use crate::framer::{
    available, decode_result, encode_result, framed, hidden_byte, hidden_payload, required,
};
use crate::model::{
    digit, extracted, imprinted, lemma_extracted_bound, lemma_pow4_adds, lemma_pow4_increases,
    lemma_pow4_is_pow2, lemma_pow4_limits, lemma_pow4_positive, modify_result, pow4,
    recover_result, with_digit,
};

verus! {

/// A base-four digit of a 64-bit value is a pair of its bits: digit `i` of
/// `v` is `(v >> 2i) & 3`.
pub proof fn lemma_digit_is_bit_pair(v: u64, i: u64)
    requires
        i < 32,
    ensures
        digit(v as nat, i as nat) == (v >> (2 * i) as u64) & 3,
{
    let sh = (2 * i) as u64;
    lemma_u64_shr_is_div(v, sh);
    lemma_pow4_is_pow2(i as nat);
    let q = v >> sh;
    assert(q & 3 == q % 4) by (bit_vector);
}

/// Writing a digit into a carrier byte sets its two low-order bits to the
/// digit and keeps its six high-order bits.
pub proof fn lemma_with_digit(b: u8, d: nat)
    ensures
        with_digit(b, d) % 4 == d % 4,
        with_digit(b, d) / 4 == b / 4,
        with_digit(b, d) & 0xFC == b & 0xFC,
        with_digit(b, d) & 0x03 == d % 4,
{
    let low = (d % 4) as u8;
    let w = ((b / 4) * 4 + low) as u8;
    assert(w % 4 == low && w / 4 == b / 4 && w & 0xFC == b & 0xFC && w & 0x03 == low)
        by (bit_vector)
        requires
            low < 4,
            w == ((b / 4) * 4 + low) as u8,
    ;
}

/// Imprinting changes nothing but the two low-order bits of the bytes of the
/// window: the buffer keeps its length, every byte outside the window is as
/// before, and every byte inside it keeps bits 2 to 7.
pub proof fn lemma_imprint_touches_low_bits_of_window_only(
    b: Seq<u8>,
    value: u64,
    offset: int,
    size: int,
)
    ensures
        imprinted(b, value, offset, size).len() == b.len(),
        forall|k: int|
            0 <= k < b.len() && !(offset <= k < offset + size) ==> #[trigger] imprinted(
                b,
                value,
                offset,
                size,
            )[k] == b[k],
        forall|k: int|
            0 <= k < b.len() && offset <= k < offset + size ==> (#[trigger] imprinted(
                b,
                value,
                offset,
                size,
            )[k]) & 0xFC == b[k] & 0xFC,
        forall|k: int|
            0 <= k < b.len() && offset <= k < offset + size ==> (#[trigger] imprinted(
                b,
                value,
                offset,
                size,
            )[k]) % 4 == digit(value as nat, (k - offset) as nat),
{
    let after = imprinted(b, value, offset, size);
    assert forall|k: int| 0 <= k < b.len() && offset <= k < offset + size implies (#[trigger] after[k])
        & 0xFC == b[k] & 0xFC && after[k] % 4 == digit(value as nat, (k - offset) as nat) by {
        lemma_with_digit(b[k], digit(value as nat, (k - offset) as nat));
    }
}

/// Extraction reads nothing but the two low-order bits of the bytes of the
/// window: two buffers that agree on those bits hold the same value.
pub proof fn lemma_extract_reads_low_bits_of_window_only(
    b1: Seq<u8>,
    b2: Seq<u8>,
    offset: int,
    size: nat,
)
    requires
        forall|i: int| 0 <= i < size ==> #[trigger] b1[offset + i] % 4 == b2[offset + i] % 4,
    ensures
        extracted(b1, offset, size) == extracted(b2, offset, size),
    decreases size,
{
    if size > 0 {
        lemma_extract_reads_low_bits_of_window_only(b1, b2, offset, (size - 1) as nat);
    }
}

/// The value held by a window has the two low-order bits of byte `i` of the
/// window as its digit `i`, and no digit beyond the window.
pub proof fn lemma_extracted_digits(b: Seq<u8>, offset: int, size: nat, i: nat)
    ensures
        i < size ==> digit(extracted(b, offset, size), i) == b[offset + i] % 4,
        i >= size ==> digit(extracted(b, offset, size), i) == 0,
    decreases size,
{
    let value = extracted(b, offset, size);
    let unit = pow4(i);
    lemma_pow4_positive(i);
    lemma_extracted_bound(b, offset, size);
    if i >= size {
        lemma_pow4_increases(size, i);
        lemma_basic_div(value as int, unit as int);
    } else {
        let n = (size - 1) as nat;
        let lower = extracted(b, offset, n);
        let top = (b[offset + n] % 4) as nat;
        lemma_extracted_bound(b, offset, n);
        if i == n {
            lemma_fundamental_div_mod_converse(value as int, unit as int, top as int, lower as int);
        } else {
            lemma_extracted_digits(b, offset, n, i);
            let above = ((n - i) - 1) as nat;
            lemma_pow4_adds(i, (n - i) as nat);
            let lift = top * pow4(above);
            assert(top * pow4(n) == (4 * lift) * unit) by (nonlinear_arith)
                requires
                    pow4(n) == unit * (4 * pow4(above)),
                    lift == top * pow4(above),
            ;
            lemma_hoist_over_denominator(lower as int, (4 * lift) as int, unit);
        }
    }
}

/// The value held by a window after an imprint is the imprinted value
/// reduced to the digits that the window has room for.
pub proof fn lemma_extracted_of_imprinted(b: Seq<u8>, value: u64, offset: int, size: nat)
    requires
        0 <= offset,
        offset + size <= b.len(),
    ensures
        extracted(imprinted(b, value, offset, size as int), offset, size) == value as nat % pow4(
            size,
        ),
    decreases size,
{
    let after = imprinted(b, value, offset, size as int);
    if size > 0 {
        let n = (size - 1) as nat;
        let shorter = imprinted(b, value, offset, n as int);
        lemma_extracted_of_imprinted(b, value, offset, n);
        assert forall|i: int| 0 <= i < n implies #[trigger] after[offset + i] % 4 == shorter[offset
            + i] % 4 by {}
        lemma_extract_reads_low_bits_of_window_only(after, shorter, offset, n);
        lemma_with_digit(b[offset + n], digit(value as nat, n));
        lemma_pow4_positive(n);
        lemma_breakdown(value as int, pow4(n) as int, 4);
        assert(digit(value as nat, n) * pow4(n) == pow4(n) * digit(value as nat, n))
            by (nonlinear_arith);
    }
}

/// Round trip: a value that fits a window of at most 32 bytes inside the
/// buffer is imprinted without error and then extracted unchanged.
pub proof fn lemma_round_trip(b: Seq<u8>, value: u64, offset: usize, size: usize)
    requires
        b.len() <= usize::MAX,
        offset + size <= b.len(),
        size <= 32,
        value < pow4(size as nat),
    ensures
        modify_result(b.len(), offset, size) == Ok::<(), StegoError>(()),
        recover_result(imprinted(b, value, offset as int, size as int), offset, size) == Ok::<
            u64,
            StegoError,
        >(value),
{
    lemma_extracted_of_imprinted(b, value, offset as int, size as nat);
    lemma_small_mod(value as nat, pow4(size as nat));
}

/// A window of 32 bytes carries every 64-bit value: imprinting and then
/// extracting over 32 bytes inside the buffer gives the value back.
pub proof fn lemma_round_trip_full_width(b: Seq<u8>, value: u64, offset: usize)
    requires
        b.len() <= usize::MAX,
        offset + 32 <= b.len(),
    ensures
        recover_result(imprinted(b, value, offset as int, 32), offset, 32) == Ok::<
            u64,
            StegoError,
        >(value),
{
    lemma_pow4_limits();
    lemma_round_trip(b, value, offset, 32);
}

/// Bounds rejection: a window whose end fits the index type but lies past
/// the end of the buffer is refused as out of bounds by both operations.
pub proof fn lemma_bounds_rejection(b: Seq<u8>, offset: usize, size: usize)
    requires
        offset + size > b.len(),
        offset + size <= usize::MAX,
    ensures
        modify_result(b.len(), offset, size) == Err::<(), StegoError>(
            StegoError { kind: ErrorKind::OutOfBounds, operation: Operation::Imprint },
        ),
        recover_result(b, offset, size) == Err::<u64, StegoError>(
            StegoError { kind: ErrorKind::OutOfBounds, operation: Operation::Extract },
        ),
{
}

/// A window whose end does not fit the index type is refused as an overflow
/// by both operations, whatever the buffer.
pub proof fn lemma_overflow_rejection(b: Seq<u8>, offset: usize, size: usize)
    requires
        offset + size > usize::MAX,
    ensures
        modify_result(b.len(), offset, size) == Err::<(), StegoError>(
            StegoError { kind: ErrorKind::Overflow, operation: Operation::Imprint },
        ),
        recover_result(b, offset, size) == Err::<u64, StegoError>(
            StegoError { kind: ErrorKind::Overflow, operation: Operation::Extract },
        ),
{
}

/// Size ceiling: extraction over more than 32 bytes is refused even when the
/// window lies inside the buffer.
pub proof fn lemma_size_ceiling(b: Seq<u8>, offset: usize, size: usize)
    requires
        b.len() <= usize::MAX,
        size > 32,
        offset + size <= b.len(),
    ensures
        recover_result(b, offset, size) == Err::<u64, StegoError>(
            StegoError { kind: ErrorKind::SizeLimitExceeded, operation: Operation::Extract },
        ),
{
}

/// Extraction over a window of at most 32 bytes inside the buffer succeeds,
/// and its result is below `4^size`.
pub proof fn lemma_recover_succeeds(b: Seq<u8>, offset: usize, size: usize)
    requires
        b.len() <= usize::MAX,
        offset + size <= b.len(),
        size <= 32,
    ensures
        recover_result(b, offset, size) == Ok::<u64, StegoError>(
            extracted(b, offset as int, size as nat) as u64,
        ),
        extracted(b, offset as int, size as nat) < pow4(size as nat),
        pow4(size as nat) <= 0x1_0000_0000_0000_0000,
{
    lemma_extracted_bound(b, offset as int, size as nat);
    lemma_pow4_increases(size as nat, 32);
    lemma_pow4_limits();
}

/// Framing changes nothing but the two low-order bits of the bytes of the
/// length window and of the payload windows: the carrier keeps its length,
/// every byte keeps bits 2 to 7, and every byte before the header or behind
/// the last payload window is as before.
pub proof fn lemma_frame_touches_low_bits_of_windows_only(
    b: Seq<u8>,
    header: int,
    payload: Seq<u8>,
)
    ensures
        framed(b, header, payload).len() == b.len(),
        forall|k: int|
            0 <= k < b.len() ==> (#[trigger] framed(b, header, payload)[k]) & 0xFC == b[k] & 0xFC,
        forall|k: int|
            0 <= k < b.len() && !(header <= k < header + LENGTH_HIDING_BYTES + required(
                payload.len(),
            )) ==> #[trigger] framed(b, header, payload)[k] == b[k],
{
    let after = framed(b, header, payload);
    let start = header + LENGTH_HIDING_BYTES;
    assert forall|k: int| 0 <= k < b.len() implies (#[trigger] after[k]) & 0xFC == b[k] & 0xFC by {
        if header <= k < start {
            lemma_with_digit(b[k], digit(payload.len(), (k - header) as nat));
        } else if start <= k < start + BYTES_PER_CHAR * payload.len() {
            lemma_with_digit(
                b[k],
                digit(
                    payload[(k - start) / (BYTES_PER_CHAR as int)] as nat,
                    ((k - start) % (BYTES_PER_CHAR as int)) as nat,
                ),
            );
        }
    }
}

/// Capacity rejection: a payload whose windows need more carrier bytes than
/// are available is refused with `CapacityExceeded`, whatever else holds of
/// the carrier.
pub proof fn lemma_capacity_rejection(len: nat, header: usize, payload_len: nat)
    requires
        required(payload_len) > available(len, header as nat),
    ensures
        encode_result(len, header, payload_len) == Err::<(), StegoError>(
            StegoError { kind: ErrorKind::CapacityExceeded, operation: Operation::Imprint },
        ),
{
}

/// Framing succeeds exactly when the length window and every payload window
/// lie inside the carrier.
pub proof fn lemma_encode_succeeds(len: nat, header: usize, payload_len: nat)
    requires
        len <= usize::MAX,
    ensures
        encode_result(len, header, payload_len) is Ok <==> header + LENGTH_HIDING_BYTES + required(
            payload_len,
        ) <= len,
{
}

/// Framed round trip: what was framed into a carrier is what the carrier
/// then holds, byte for byte and with its length.
pub proof fn lemma_frame_round_trip(b: Seq<u8>, header: usize, payload: Seq<u8>)
    requires
        b.len() <= usize::MAX,
        encode_result(b.len(), header, payload.len()) is Ok,
    ensures
        decode_result(framed(b, header as int, payload), header) == Ok::<Seq<u8>, StegoError>(
            payload,
        ),
{
    let after = framed(b, header as int, payload);
    let start = header + LENGTH_HIDING_BYTES;
    let count = payload.len();
    lemma_pow4_limits();

    let with_length = imprinted(b, count as u64, header as int, LENGTH_HIDING_BYTES as int);
    assert forall|i: int| 0 <= i < LENGTH_HIDING_BYTES implies #[trigger] after[header + i] % 4
        == with_length[header + i] % 4 by {}
    lemma_extract_reads_low_bits_of_window_only(
        after,
        with_length,
        header as int,
        LENGTH_HIDING_BYTES as nat,
    );
    lemma_extracted_of_imprinted(b, count as u64, header as int, LENGTH_HIDING_BYTES as nat);
    lemma_small_mod(count, pow4(LENGTH_HIDING_BYTES as nat));

    assert forall|p: int| 0 <= p < count implies #[trigger] hidden_byte(after, header as int, p)
        == payload[p] by {
        let offset = start + BYTES_PER_CHAR * p;
        let with_byte = imprinted(b, payload[p] as u64, offset, BYTES_PER_CHAR as int);
        assert forall|j: int| 0 <= j < BYTES_PER_CHAR implies #[trigger] after[offset + j] % 4
            == with_byte[offset + j] % 4 by {
            let k = offset + j;
            assert((k - start) / (BYTES_PER_CHAR as int) == p);
            assert((k - start) % (BYTES_PER_CHAR as int) == j);
        }
        lemma_extract_reads_low_bits_of_window_only(
            after,
            with_byte,
            offset,
            BYTES_PER_CHAR as nat,
        );
        lemma_extracted_of_imprinted(b, payload[p] as u64, offset, BYTES_PER_CHAR as nat);
        lemma_small_mod(payload[p] as nat, pow4(BYTES_PER_CHAR as nat));
    }
    assert(hidden_payload(after, header as int) =~= payload);
}

} // verus!
