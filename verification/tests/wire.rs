use ringlog::wire::{
    decode_length, decode_offset, encode_frame, encode_offset, CONSUMER, PRODUCER,
};

#[test]
fn roles_have_their_bytes() {
    assert_eq!(PRODUCER, 0x01);
    assert_eq!(CONSUMER, 0x02);
}

#[test]
fn offset_is_eight_big_endian_bytes() {
    assert_eq!(encode_offset(0), vec![0; 8]);
    assert_eq!(
        encode_offset(0x0102_0304_0506_0708),
        vec![1, 2, 3, 4, 5, 6, 7, 8]
    );
    assert_eq!(encode_offset(u64::MAX), vec![0xff; 8]);
    assert_eq!(encode_offset(26), 26u64.to_be_bytes().to_vec());
}

#[test]
fn length_is_four_big_endian_bytes() {
    assert_eq!(decode_length(&vec![0, 0, 0, 0]), 0);
    assert_eq!(decode_length(&vec![0, 0, 1, 2]), 258);
    assert_eq!(decode_length(&vec![0xff, 0xff, 0xff, 0xff]), 0xffff_ffff);
    // Only the first four bytes count.
    assert_eq!(decode_length(&vec![0, 0, 0, 7, 9, 9]), 7);
}

#[test]
fn offsets_survive_the_wire() {
    for offset in [0, 1, 255, 256, 65_536, 1 << 40, u64::MAX - 1, u64::MAX] {
        assert_eq!(decode_offset(&encode_offset(offset)), offset);
    }
}

#[test]
fn bytes_survive_decoding() {
    let bytes = vec![0xde, 0xad, 0xbe, 0xef, 0x00, 0x01, 0x80, 0x7f];
    assert_eq!(encode_offset(decode_offset(&bytes)), bytes);
}

#[test]
fn frame_is_length_then_message() {
    assert_eq!(encode_frame(Vec::new()), vec![0, 0, 0, 0]);
    assert_eq!(
        encode_frame(b"Rust".to_vec()),
        vec![0, 0, 0, 4, b'R', b'u', b's', b't']
    );
    let long = encode_frame(vec![7; 300]);
    assert_eq!(long.len(), 304);
    assert_eq!(&long[..4], &[0, 0, 1, 44]);
    assert!(long[4..].iter().all(|b| *b == 7));
}
