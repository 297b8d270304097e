//! Base64 in the alphabet for addresses.

use nostos::base64url::{base64url_decode, base64url_encode};

#[test]
fn known_texts() {
    for (bytes, text) in [
        (&b""[..], ""),
        (b"f", "Zg"),
        (b"fo", "Zm8"),
        (b"foo", "Zm9v"),
        (b"foob", "Zm9vYg"),
        (&[0xfb, 0xff], "-_8"),
    ] {
        assert_eq!(base64url_encode(bytes), text);
        assert_eq!(base64url_decode(text).as_deref(), Some(bytes));
    }
}

#[test]
fn texts_that_are_none() {
    for text in ["A", "Zg==", "Zh", "Zm9", "Z+", "Zm9vY", "Zm 9"] {
        assert_eq!(base64url_decode(text), None, "{text}");
    }
}
