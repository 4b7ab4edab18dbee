use conreg::enc_dec::{frame, unframe, EncDec, EncDecError};

#[test]
fn test_enc_dec() {
    let key = &[0u8; 32];
    let enc_dec = EncDec::new("1234567890");
    println!("{}", enc_dec.content);
    let sealed = enc_dec.encrypt(key).unwrap();
    println!("{}", sealed);
    let opened = EncDec::decrypt(key, &sealed).unwrap();
    println!("{}", opened.content);
    assert_eq!(opened.content, "1234567890");
    assert_eq!(opened.content_len, 10);
    assert_eq!(opened.s1, 0);
    assert_eq!(opened.s2, 0);
    assert_eq!(opened.nonce, enc_dec.nonce);
}

#[test]
fn decrypt_rejects_mangled_ciphertexts() {
    let key = &[0u8; 32];
    // a long run of leading ones decodes to nothing sensible and must be
    // rejected, not tear the process down
    let ones = "1".repeat(140);
    assert!(matches!(
        EncDec::decrypt(key, &ones),
        Err(EncDecError::InvalidFormat)
    ));
    assert!(matches!(
        EncDec::decrypt(key, "not base58 0OIl"),
        Err(EncDecError::InvalidFormat)
    ));
    assert!(matches!(
        EncDec::decrypt(key, "1"),
        Err(EncDecError::InvalidFormat)
    ));
    let sealed = EncDec::new("x").encrypt(key).unwrap();
    let wrong_key = &[1u8; 32];
    assert!(EncDec::decrypt(wrong_key, &sealed).is_err());
}

#[test]
fn framing_round_trips() {
    let framed = frame(7, 9, "hello");
    assert_eq!(framed.len(), 10 + 5);
    assert_eq!(framed[0], 7);
    assert_eq!(framed[1], 9);
    let (s1, s2, payload) = unframe(&framed).unwrap();
    assert_eq!((s1, s2), (7, 9));
    assert_eq!(payload, b"hello");
    // a frame whose length field disagrees with its payload is rejected
    let mut broken = frame(0, 0, "hello");
    broken.push(0);
    assert!(unframe(&broken).is_none());
}

#[test]
fn error_text() {
    assert_eq!(EncDecError::InvalidFormat.message(), "InvalidFormat");
}

#[test]
fn the_largest_admitted_content_still_round_trips() {
    let key = &[7u8; 32];
    let content = "x".repeat(90);
    let sealed = EncDec::new(&content).encrypt(key).unwrap();
    let opened = EncDec::decrypt(key, &sealed).unwrap();
    assert_eq!(opened.content, content);
}
