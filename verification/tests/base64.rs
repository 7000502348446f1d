use codex_openai_gateway::base64::decode_base64url;

#[test]
fn texts_are_decoded() {
    for (text, bytes) in [
        ("", &b""[..]),
        ("Zg", b"f"),
        ("Zm8", b"fo"),
        ("Zm9v", b"foo"),
        ("Zm9vYg", b"foob"),
        ("Zm9vYmE", b"fooba"),
        ("Zm9vYmFy", b"foobar"),
        ("-_-_", &[0xfb, 0xff, 0xbf]),
        ("AAAA", &[0, 0, 0]),
    ] {
        assert_eq!(decode_base64url(text).as_deref(), Some(bytes));
    }
}

#[test]
fn padding_ends_the_text() {
    assert_eq!(decode_base64url("Zg==").as_deref(), Some(&b"f"[..]));
    assert_eq!(decode_base64url("Zg=!!").as_deref(), Some(&b"f"[..]));
    assert_eq!(decode_base64url("=Zg").as_deref(), Some(&b""[..]));
}

#[test]
fn other_characters_are_refused() {
    for text in ["Z+", "Z/", "Z g", "é", "Zm9v\n"] {
        assert_eq!(decode_base64url(text), None);
    }
}

#[test]
fn bits_that_fill_no_byte_are_dropped() {
    assert_eq!(decode_base64url("Z").as_deref(), Some(&b""[..]));
    assert_eq!(decode_base64url("Zh").as_deref(), Some(&b"f"[..]));
    assert_eq!(decode_base64url("Zm9vY").as_deref(), Some(&b"foo"[..]));
}
