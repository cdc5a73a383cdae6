use lsb_hide::constants::{BMP_HEADER_SIZE, BYTES_PER_CHAR, DATA_MASK, LENGTH_HIDING_BYTES, LSB_MASK};
use lsb_hide::error::{ErrorKind, Operation, StegoError};
use lsb_hide::steganography::{modify, recover};

fn patterned(len: usize) -> Vec<u8> {
    (0..len).map(|i| (i * 37 + 11) as u8).collect()
}

#[test]
fn constants_have_their_values() {
    assert_eq!(BMP_HEADER_SIZE, 54);
    assert_eq!(LENGTH_HIDING_BYTES, 32);
    assert_eq!(BYTES_PER_CHAR, 4);
    assert_eq!(LSB_MASK, 0x03);
    assert_eq!(DATA_MASK, 0xFC);
}

#[test]
fn imprint_writes_digits_least_significant_first() {
    let mut buffer = [0u8; 8];
    assert_eq!(modify(0b1011, &mut buffer, 0, 4), Ok(()));
    assert_eq!(buffer, [3, 2, 0, 0, 0, 0, 0, 0]);
    assert_eq!(recover(&buffer, 0, 4), Ok(11));
}

#[test]
fn imprint_at_an_offset_leaves_the_rest() {
    let mut buffer = [0xFFu8; 6];
    assert_eq!(modify(0b00_01_10, &mut buffer, 2, 3), Ok(()));
    assert_eq!(buffer, [0xFF, 0xFF, 0xFE, 0xFD, 0xFC, 0xFF]);
    assert_eq!(recover(&buffer, 2, 3), Ok(0b00_01_10));
}

#[test]
fn imprint_keeps_the_six_high_bits() {
    let original = patterned(64);
    let mut buffer = original.clone();
    assert_eq!(modify(0xDEAD_BEEF_0123_4567, &mut buffer, 16, 32), Ok(()));
    for k in 0..64 {
        assert_eq!(buffer[k] & 0xFC, original[k] & 0xFC);
        if !(16..48).contains(&k) {
            assert_eq!(buffer[k], original[k]);
        }
    }
    for i in 0..32 {
        let digit = ((0xDEAD_BEEF_0123_4567u64 >> (2 * i)) & 3) as u8;
        assert_eq!(buffer[16 + i] & 0x03, digit);
    }
}

#[test]
fn round_trip_over_every_window_size() {
    for size in 0..=32usize {
        let value: u64 = if size == 32 {
            0xFEDC_BA98_7654_3210
        } else {
            0xFEDC_BA98_7654_3210 & ((1u64 << (2 * size)) - 1)
        };
        let mut buffer = patterned(80);
        assert_eq!(modify(value, &mut buffer, 5, size), Ok(()));
        assert_eq!(recover(&buffer, 5, size), Ok(value));
    }
}

#[test]
fn round_trip_of_the_extreme_values() {
    let mut buffer = patterned(32);
    assert_eq!(modify(u64::MAX, &mut buffer, 0, 32), Ok(()));
    assert_eq!(recover(&buffer, 0, 32), Ok(u64::MAX));
    assert_eq!(modify(0, &mut buffer, 0, 32), Ok(()));
    assert_eq!(recover(&buffer, 0, 32), Ok(0));
}

#[test]
fn imprint_drops_the_bits_that_the_window_cannot_hold() {
    let mut buffer = [0u8; 4];
    assert_eq!(modify(0x1FF, &mut buffer, 0, 4), Ok(()));
    assert_eq!(buffer, [3, 3, 3, 3]);
    assert_eq!(recover(&buffer, 0, 4), Ok(0xFF));
}

#[test]
fn imprint_over_more_than_32_bytes_clears_the_low_bits_beyond() {
    let mut buffer = [0xFFu8; 40];
    assert_eq!(modify(u64::MAX, &mut buffer, 0, 40), Ok(()));
    for k in 0..32 {
        assert_eq!(buffer[k], 0xFF);
    }
    for k in 32..40 {
        assert_eq!(buffer[k], 0xFC);
    }
}

#[test]
fn extract_reads_only_the_two_low_bits() {
    let plain = [0x01u8, 0x02, 0x03, 0x00];
    let noisy = [0xF1u8, 0x0E, 0xAB, 0x54];
    assert_eq!(recover(&plain, 0, 4), Ok(0b00_11_10_01));
    assert_eq!(recover(&noisy, 0, 4), Ok(0b00_11_10_01));
}

#[test]
fn extract_twice_gives_the_same() {
    let buffer = patterned(50);
    let first = recover(&buffer, 3, 20);
    let second = recover(&buffer, 3, 20);
    assert!(first.is_ok());
    assert_eq!(first, second);
    assert_eq!(buffer, patterned(50));
}

#[test]
fn empty_window_holds_zero() {
    let mut buffer = patterned(4);
    assert_eq!(modify(77, &mut buffer, 4, 0), Ok(()));
    assert_eq!(buffer, patterned(4));
    assert_eq!(recover(&buffer, 4, 0), Ok(0));
    assert_eq!(recover(&[], 0, 0), Ok(0));
}

#[test]
fn window_past_the_end_is_out_of_bounds() {
    let buffer = [0u8; 7];
    assert_eq!(
        recover(&buffer, 0, 8),
        Err(StegoError { kind: ErrorKind::OutOfBounds, operation: Operation::Extract })
    );
    let mut target = patterned(7);
    assert_eq!(
        modify(0xFFFF, &mut target, 0, 8),
        Err(StegoError { kind: ErrorKind::OutOfBounds, operation: Operation::Imprint })
    );
    assert_eq!(target, patterned(7));
    assert_eq!(
        modify(1, &mut target, 8, 0),
        Err(StegoError { kind: ErrorKind::OutOfBounds, operation: Operation::Imprint })
    );
    assert_eq!(target, patterned(7));
}

#[test]
fn window_end_beyond_the_index_type_is_an_overflow() {
    let buffer = [0u8; 16];
    assert_eq!(
        recover(&buffer, usize::MAX, 1),
        Err(StegoError { kind: ErrorKind::Overflow, operation: Operation::Extract })
    );
    let mut target = patterned(16);
    assert_eq!(
        modify(5, &mut target, 2, usize::MAX),
        Err(StegoError { kind: ErrorKind::Overflow, operation: Operation::Imprint })
    );
    assert_eq!(target, patterned(16));
}

#[test]
fn window_wider_than_32_bytes_is_refused_on_extract() {
    let buffer = [0u8; 40];
    assert_eq!(
        recover(&buffer, 0, 33),
        Err(StegoError { kind: ErrorKind::SizeLimitExceeded, operation: Operation::Extract })
    );
    assert_eq!(recover(&buffer, 8, 32), Ok(0));
}

#[test]
fn bounds_are_judged_before_the_size_ceiling() {
    let buffer = [0u8; 40];
    assert_eq!(
        recover(&buffer, 0, 41),
        Err(StegoError { kind: ErrorKind::OutOfBounds, operation: Operation::Extract })
    );
    assert_eq!(
        recover(&buffer, usize::MAX, 33),
        Err(StegoError { kind: ErrorKind::Overflow, operation: Operation::Extract })
    );
}

#[test]
fn errors_carry_a_kind_and_a_text() {
    assert_eq!(
        StegoError::imprint(ErrorKind::Overflow),
        StegoError { kind: ErrorKind::Overflow, operation: Operation::Imprint }
    );
    assert_eq!(
        StegoError::extract(ErrorKind::OutOfBounds),
        StegoError { kind: ErrorKind::OutOfBounds, operation: Operation::Extract }
    );
    assert_eq!(
        StegoError::imprint(ErrorKind::Overflow).message(),
        "Integer overflow when calculating end index."
    );
    assert_eq!(
        StegoError::extract(ErrorKind::Overflow).message(),
        "Integer overflow when calculating end index."
    );
    assert_eq!(
        StegoError::imprint(ErrorKind::OutOfBounds).message(),
        "Steganography region out of bounds."
    );
    assert_eq!(
        StegoError::extract(ErrorKind::OutOfBounds).message(),
        "Extraction area out of bounds."
    );
    assert_eq!(
        StegoError::extract(ErrorKind::SizeLimitExceeded).message(),
        "Extraction size limit exceeded (max 32 bytes for a u64 value)."
    );
    assert_eq!(
        StegoError::imprint(ErrorKind::CapacityExceeded).message(),
        "Not enough space in the carrier to hide the payload."
    );
}

#[test]
fn failing_calls_report_their_text() {
    let mut buffer = [0u8; 7];
    let written = modify(1, &mut buffer, 0, 8);
    assert_eq!(written.unwrap_err().message(), "Steganography region out of bounds.");
    let read = recover(&buffer, 0, 8);
    assert_eq!(read.unwrap_err().message(), "Extraction area out of bounds.");
}
