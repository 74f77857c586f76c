use openfairdb::error::ParameterError;
use openfairdb::hex::{hex_char_of, hex_val_of, push_hex, read_hex};
use openfairdb::nonce::{EmailNonce, Nonce};

#[test]
fn digits_stand_for_numbers_below_sixteen() {
    let digits = "0123456789abcdef";
    for (d, c) in digits.chars().enumerate() {
        assert_eq!(hex_char_of(d as u8), c);
        assert_eq!(hex_val_of(c), Some(d as u8));
    }
    assert_eq!(hex_val_of('g'), None);
    assert_eq!(hex_val_of('A'), None);
    assert_eq!(hex_val_of(' '), None);
}

#[test]
fn numbers_are_written_with_a_fixed_number_of_digits() {
    let mut s = String::from(">");
    push_hex(&mut s, 0x2a, 6);
    assert_eq!(s, ">00002a");
    push_hex(&mut s, 0x12345, 4);
    assert_eq!(s, ">00002a2345");
    push_hex(&mut s, 7, 0);
    assert_eq!(s, ">00002a2345");
    let chars: Vec<char> = s.chars().collect();
    assert_eq!(read_hex(&chars, 1, 7), Some(0x2a));
    assert_eq!(read_hex(&chars, 7, 11), Some(0x2345));
    assert_eq!(read_hex(&chars, 3, 3), Some(0));
    assert_eq!(read_hex(&chars, 0, 3), None);
}

#[test]
fn nonce_is_written_in_32_digits() {
    let nonce = Nonce::from_u128(0x0123_4567_89ab_cdef_0011_2233_4455_6677);
    assert_eq!(nonce.to_string(), "0123456789abcdef0011223344556677");
    assert_eq!(Nonce::from_u128(0).to_string(), "00000000000000000000000000000000");
    assert_eq!(Nonce::from_u128(u128::MAX).to_string(), "ffffffffffffffffffffffffffffffff");
    assert_eq!(Nonce::from_str("0123456789abcdef0011223344556677"), Some(nonce));
    assert_eq!(Nonce::from_str("ffffffffffffffffffffffffffffffff"), Some(Nonce::from_u128(u128::MAX)));
    assert_eq!(Nonce::from_str("0123456789ABCDEF0011223344556677"), None);
    assert_eq!(Nonce::from_str("0123456789abcdef001122334455667"), None);
    assert_eq!(Nonce::from_str("0123456789abcdef00112233445566777"), None);
    assert_eq!(Nonce::from_str(""), None);
}

#[test]
fn token_holds_the_address_and_the_nonce() {
    let email_nonce = EmailNonce { email: "a@b".into(), nonce: Nonce::from_u128(0x1f) };
    assert_eq!(
        email_nonce.encode_to_string(),
        "0000610000400000620000000000000000000000000000001f"
    );
    let empty = EmailNonce { email: String::new(), nonce: Nonce::from_u128(1) };
    assert_eq!(empty.encode_to_string(), "00000000000000000000000000000001");
}

#[test]
fn token_is_read_back() {
    for email in ["user@example.com", "", "ünïcödé@exämple.com", "\u{10ffff}\u{0}"] {
        for value in [0u128, 1, 0xdead_beef, u128::MAX] {
            let email_nonce = EmailNonce { email: email.into(), nonce: Nonce::from_u128(value) };
            let token = email_nonce.encode_to_string();
            assert_eq!(token.len(), 6 * email.chars().count() + 32);
            let decoded = EmailNonce::decode_from_str(&token).unwrap();
            assert_eq!(decoded, email_nonce);
            assert_eq!(decoded.email, email);
            assert_eq!(decoded.encode_to_string(), token);
        }
    }
}

#[test]
fn text_that_is_no_token_is_refused() {
    let good = EmailNonce { email: "a@b".into(), nonce: Nonce::from_u128(5) }.encode_to_string();
    assert!(EmailNonce::decode_from_str(&good).is_ok());
    let mut too_short = good.clone();
    too_short.pop();
    // The digits of the first character in upper case
    let upper = good.replacen("000061", "00006A", 1);
    assert!(upper != good);
    for bad in [
        "",
        "abc",
        too_short.as_str(),
        // a character with the code point of a surrogate
        "00d80000000000000000000000000000000001",
        // a character beyond the last code point
        "11000000000000000000000000000000000001",
        "00006g00000000000000000000000000000001",
        upper.as_str(),
    ] {
        assert_eq!(EmailNonce::decode_from_str(bad), Err(ParameterError::InvalidNonce));
    }
}
