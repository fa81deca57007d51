use tarnished_sockets::sha1::calculate_sha1;

#[test]
fn sha1_works() {
    let input = "The quick brown fox jumps over the lazy cog";
    let sha1_output = calculate_sha1(input.as_bytes());

    let expected_output: Vec<u8> = [
        0xde, 0x9f, 0x2c, 0x7f, 0xd2, 0x5e, 0x1b, 0x3a, 0xfa, 0xd3, 0xe8, 0x5a, 0x0b, 0xd1, 0x7d,
        0x9b, 0x10, 0x0d, 0xb4, 0xb3,
    ]
    .to_vec();

    assert_eq!(sha1_output, expected_output);
}

#[test]
fn sha1_empty() {
    let input = "";
    let sha1_output = calculate_sha1(input.as_bytes());

    let expected_output: Vec<u8> = [
        0xda, 0x39, 0xa3, 0xee, 0x5e, 0x6b, 0x4b, 0x0d, 0x32, 0x55, 0xbf, 0xef, 0x95, 0x60, 0x18,
        0x90, 0xaf, 0xd8, 0x07, 0x09,
    ]
    .to_vec();

    assert_eq!(sha1_output, expected_output);
}

#[test]
fn bytes_into_u32() {
    let bytes: Vec<u8> = vec![0x01, 0x02, 0x03, 0x04];
    let chunk = bytes.chunks(4);
    let value: Vec<u32> = chunk
        .map(|word_chunk| u32::from_be_bytes(word_chunk.try_into().unwrap()))
        .collect();
    assert_eq!(*value.get(0).unwrap(), 0x01020304 as u32);
}

#[test]
fn sha1_u32_helper_matches_std() {
    let value = tarnished_sockets::endian::u32_from_be_bytes(0x01, 0x02, 0x03, 0x04);
    assert_eq!(value, 0x01020304);
}

#[test]
fn sha1_abc() {
    let sha1_output = calculate_sha1("abc".as_bytes());
    let expected_output: Vec<u8> = [
        0xa9, 0x99, 0x3e, 0x36, 0x47, 0x06, 0x81, 0x6a, 0xba, 0x3e, 0x25, 0x71, 0x78, 0x50, 0xc2,
        0x6c, 0x9c, 0xd0, 0xd8, 0x9d,
    ]
    .to_vec();
    assert_eq!(sha1_output, expected_output);
}

#[test]
fn sha1_longer_than_one_chunk() {
    // 64 'a' bytes force a second chunk after padding.
    let input = "a".repeat(64);
    let sha1_output = calculate_sha1(input.as_bytes());
    let expected_output: Vec<u8> = [
        0x00, 0x98, 0xba, 0x82, 0x4b, 0x5c, 0x16, 0x42, 0x7b, 0xd7, 0xa1, 0x12, 0x2a, 0x5a, 0x44,
        0x2a, 0x25, 0xec, 0x64, 0x4d,
    ]
    .to_vec();
    assert_eq!(sha1_output, expected_output);
}
