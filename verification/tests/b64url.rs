//! The URL-safe base64 form: exact spellings, round trips, and strictness.

use auth_gateway::b64::{b64_decode, b64_encode};

#[test]
fn known_spellings_are_produced() {
    assert_eq!(b64_encode(b"Man"), b"TWFu");
    assert_eq!(b64_encode(b"Ma"), b"TWE");
    assert_eq!(b64_encode(b"M"), b"TQ");
    assert_eq!(b64_encode(b""), b"");
    // Bytes that force the URL-safe alphabet.
    assert_eq!(b64_encode(&[0xfb, 0xff]), b"-_8");
}

#[test]
fn decoding_inverts_encoding() {
    for input in [
        &b""[..],
        b"a",
        b"ab",
        b"abc",
        b"abcd",
        b"\x00\xff\x10\x80",
        b"the quick brown fox",
    ] {
        let enc = b64_encode(input);
        let dec = b64_decode(&enc).expect("own encoding must decode");
        assert_eq!(dec, input);
    }
}

#[test]
fn non_canonical_text_is_rejected() {
    // A lone symbol cannot encode a byte.
    assert_eq!(b64_decode(b"T"), None);
    // Padding characters are not part of the unpadded form.
    assert_eq!(b64_decode(b"TQ=="), None);
    // Outside the alphabet.
    assert_eq!(b64_decode(b"T!"), None);
    assert_eq!(b64_decode(b"+/"), None);
    // Non-zero trailing bits: "TR" and "TWF" are no encoder outputs.
    assert_eq!(b64_decode(b"TR"), None);
    assert_eq!(b64_decode(b"TWG"), None);
}
