use tarnished_sockets::base64::encode;

#[test]
fn encoding_works() {
    let input: Vec<u8> = "Many hands make light work.".as_bytes().into();
    let encoded = encode(input);
    let expected = "TWFueSBoYW5kcyBtYWtlIGxpZ2h0IHdvcmsu";

    assert_eq!(encoded, expected);
}

#[test]
fn encoding_padding_works() {
    let input: Vec<u8> = "light work.".as_bytes().into();
    let encoded = encode(input);
    let expected = "bGlnaHQgd29yay4=";

    assert_eq!(encoded, expected);
}

#[test]
fn encoding_padding_two_bytes_works() {
    let input: Vec<u8> = "light work".as_bytes().into();
    let encoded = encode(input);
    let expected = "bGlnaHQgd29yaw==";

    assert_eq!(encoded, expected);
}

#[test]
fn encoding_empty_input() {
    let encoded = encode(Vec::new());
    assert_eq!(encoded, "");
}

#[test]
fn encoding_accept_key_shape() {
    // base64 of any 20-byte digest is 28 characters from the alphabet or '='.
    let digest: Vec<u8> = (0..20u8).collect();
    let encoded = encode(digest);
    assert_eq!(encoded.len(), 28);
    assert!(encoded.chars().all(|c| c.is_ascii_alphanumeric() || c == '+' || c == '/' || c == '='));
}
