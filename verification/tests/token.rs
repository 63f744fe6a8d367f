use chien::{InvalidTokenError, Token};

#[test]
fn test_token_new() {
    assert_eq!(
        Token::new(0x4ef5ae907669bfb5, 0xfecd6f623bea35d9),
        Token::new(0x0ef5ae907669bfb5, 0x0ecd6f623bea35d9)
    );
}

#[test]
fn test_token_idempotent() {
    assert_eq!(
        Token::from_str(Token::new(0x124a75107f35bd12, 0x3a743bd129087d84).to_string().as_ref())
            .ok()
            .unwrap(),
        (Token::new(0x124a75107f35bd12, 0x3a743bd129087d84))
    );
    assert_eq!(
        Token::from_str(Token::new(0x4ef5ae907669bfb5, 0xfecd6f623bea35d9).to_string().as_ref())
            .ok()
            .unwrap(),
        (Token::new(0x4ef5ae907669bfb5, 0xfecd6f623bea35d9))
    );
}

#[test]
fn test_token_invalid() {
    assert_eq!(Token::from_str("012345678901234567890"), Err(InvalidTokenError));
    assert_eq!(Token::from_str("0123456789012345678!"), Err(InvalidTokenError));
    assert_eq!(Token::from_str("!1234567890123456789"), Err(InvalidTokenError));
}

#[test]
fn token_text_of_small_parts() {
    assert_eq!(Token::new(0, 0).to_string(), "AAAAAAAAAAAAAAAAAAAA");
    assert_eq!(Token::new(1, 63).to_string(), "AAAAAAAAABAAAAAAAAA_");
    assert_eq!(Token::new(26, 52).to_string(), "AAAAAAAAAaAAAAAAAAA0");
    assert_eq!(Token::new(62, 64).to_string(), "AAAAAAAAA-AAAAAAAABA");
}

#[test]
fn token_new_keeps_low_sixty_bits() {
    assert_eq!(Token::new(u64::MAX, u64::MAX).to_string(), "____________________");
    assert_eq!(Token::new(1u64 << 60, 1u64 << 61), Token::new(0, 0));
    assert_eq!(Token::new((1u64 << 60) - 1, 0).to_string(), "__________AAAAAAAAAA");
}

#[test]
fn token_text_is_big_endian() {
    // 64^9 has a single digit 1 in the most significant place
    let t = Token::new(1u64 << 54, 1u64 << 6);
    assert_eq!(t.to_string(), "BAAAAAAAAAAAAAAAAABA");
    assert_eq!(Token::from_str("BAAAAAAAAAAAAAAAAABA"), Ok(t));
}

#[test]
fn token_reads_standard_alphabet() {
    let t = Token::from_str("AAAAAAAAA+AAAAAAAAA/").unwrap();
    assert_eq!(t, Token::new(62, 63));
    assert_eq!(t.to_string(), "AAAAAAAAA-AAAAAAAAA_");
}

#[test]
fn token_text_reads_back_to_the_same_text() {
    let text = "Hello-World_0123Az9z";
    let t = Token::from_str(text).unwrap();
    assert_eq!(t.to_string(), text);
}

#[test]
fn token_rejects_wrong_lengths_and_bytes() {
    assert_eq!(Token::from_str(""), Err(InvalidTokenError));
    assert_eq!(Token::from_str("AAAAAAAAAAAAAAAAAAA"), Err(InvalidTokenError));
    assert_eq!(Token::from_str("AAAAAAAAAA AAAAAAAAA"), Err(InvalidTokenError));
    assert_eq!(Token::from_str("AAAAAAAAAA=AAAAAAAAA"), Err(InvalidTokenError));
    // twenty bytes, ten two-byte characters: no digit among them
    assert_eq!(Token::from_str("\u{e9}\u{e9}\u{e9}\u{e9}\u{e9}\u{e9}\u{e9}\u{e9}\u{e9}\u{e9}"), Err(InvalidTokenError));
}

#[test]
fn token_clone_is_equal() {
    let t = Token::new(7, 9);
    assert_eq!(t.clone(), t);
}
