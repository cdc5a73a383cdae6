use lsb_hide::constants::{BMP_HEADER_SIZE, BYTES_PER_CHAR, LENGTH_HIDING_BYTES};
use lsb_hide::steganography::{modify, recover};

/// Hides a text byte by byte behind a length field and reads it back.
#[test]
fn test_hide_and_recover_e2e() {
    let mut picture = vec![0u8; 1024];
    for (i, byte) in picture.iter_mut().enumerate() {
        *byte = (i % 256) as u8;
    }

    let original_text = "Hello, Steganography! 你好，隐写术！";
    let text_bytes = original_text.as_bytes();
    let text_len = text_bytes.len() as u64;

    modify(text_len, &mut picture, BMP_HEADER_SIZE, LENGTH_HIDING_BYTES)
        .expect("Failed to hide text length.");

    for (i, &char_byte) in text_bytes.iter().enumerate() {
        let offset = BMP_HEADER_SIZE + LENGTH_HIDING_BYTES + BYTES_PER_CHAR * i;
        modify(char_byte as u64, &mut picture, offset, BYTES_PER_CHAR)
            .expect("Failed to hide a character.");
    }

    let recovered_len = recover(&picture, BMP_HEADER_SIZE, LENGTH_HIDING_BYTES)
        .expect("Failed to recover text length.");

    assert_eq!(
        text_len, recovered_len,
        "Recovered length should match original length."
    );

    let recovered_bytes: Vec<u8> = (0..recovered_len as usize)
        .map(|i| {
            let offset = BMP_HEADER_SIZE + LENGTH_HIDING_BYTES + BYTES_PER_CHAR * i;
            recover(&picture, offset, BYTES_PER_CHAR)
                .map(|val| val as u8)
                .expect("Failed to recover a character.")
        })
        .collect();

    assert_eq!(
        text_bytes,
        recovered_bytes.as_slice(),
        "Recovered text should match original text."
    );
}

/// Seven bytes cannot hold a window of eight.
#[test]
fn test_recover_not_enough_data() {
    let picture = vec![0u8; 7];
    let result = recover(&picture, 0, 8);

    assert!(
        result.is_err(),
        "Recover should fail when there is not enough data."
    );
}
