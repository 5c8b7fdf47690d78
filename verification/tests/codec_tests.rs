use confect::category::Category;
use confect::codec::{generate_keypair, is_encrypted, AgeEncryption};
use confect::error::ConfectError;
use confect::reconcile::content_for_copy;

#[test]
fn keypair_round_trip_reproduces_plaintext() {
    let (identity, recipient) = generate_keypair();
    let codec = AgeEncryption::new(vec![recipient]).unwrap();
    let plain = b"the quick brown fox".to_vec();
    let cipher = codec.encrypt(&plain).unwrap();
    assert_ne!(cipher, plain);
    let back = codec.decrypt(&cipher, &identity).unwrap();
    assert_eq!(back, plain);
}

#[test]
fn decrypt_with_wrong_identity_fails() {
    let (_identity, recipient) = generate_keypair();
    let (other_identity, _other_recipient) = generate_keypair();
    let codec = AgeEncryption::new(vec![recipient]).unwrap();
    let cipher = codec.encrypt(&b"secret".to_vec()).unwrap();
    assert!(matches!(
        codec.decrypt(&cipher, &other_identity),
        Err(ConfectError::Decryption(_))
    ));
}

#[test]
fn decrypt_with_garbage_identity_fails() {
    let (_identity, recipient) = generate_keypair();
    let codec = AgeEncryption::new(vec![recipient]).unwrap();
    let cipher = codec.encrypt(&b"secret".to_vec()).unwrap();
    assert!(matches!(
        codec.decrypt(&cipher, "not-an-identity"),
        Err(ConfectError::Decryption(_))
    ));
}

#[test]
fn any_of_several_recipients_can_open() {
    let (id_a, rec_a) = generate_keypair();
    let (id_b, rec_b) = generate_keypair();
    let codec = AgeEncryption::new(vec![rec_a, rec_b]).unwrap();
    let plain = b"shared".to_vec();
    let cipher = codec.encrypt(&plain).unwrap();
    assert_eq!(codec.decrypt(&cipher, &id_a).unwrap(), plain);
    assert_eq!(codec.decrypt(&cipher, &id_b).unwrap(), plain);
}

#[test]
fn new_drops_blank_and_comment_entries() {
    let (_identity, recipient) = generate_keypair();
    let codec = AgeEncryption::new(vec![
        "".to_string(),
        "# a comment".to_string(),
        recipient.clone(),
    ])
    .unwrap();
    assert_eq!(codec.recipients(), &vec![recipient]);
}

#[test]
fn new_rejects_an_invalid_recipient() {
    assert!(matches!(
        AgeEncryption::new(vec!["not a key".to_string()]),
        Err(ConfectError::Encryption(_))
    ));
}

#[test]
fn encrypt_without_recipients_fails() {
    let codec = AgeEncryption::new(Vec::new()).unwrap();
    assert!(matches!(
        codec.encrypt(&b"x".to_vec()),
        Err(ConfectError::Encryption(_))
    ));
}

#[test]
fn from_recipients_text_reads_one_key_per_line() {
    let (identity, recipient) = generate_keypair();
    let text = format!("# keys\n\n{}\n", recipient);
    let codec = AgeEncryption::from_recipients_text(&text).unwrap();
    assert_eq!(codec.recipients(), &vec![recipient]);
    let cipher = codec.encrypt(&b"x".to_vec()).unwrap();
    assert_eq!(codec.decrypt(&cipher, &identity).unwrap(), b"x".to_vec());
}

#[test]
fn envelopes_are_detected() {
    let (_identity, recipient) = generate_keypair();
    let codec = AgeEncryption::new(vec![recipient]).unwrap();
    let cipher = codec.encrypt(&b"x".to_vec()).unwrap();
    assert!(is_encrypted(&cipher));
}

#[test]
fn short_or_plain_prefixes_are_not_envelopes() {
    assert!(!is_encrypted(&Vec::new()));
    assert!(!is_encrypted(&b"age-encryption".to_vec()));
    assert!(!is_encrypted(&b"plain text that is long enough".to_vec()));
}

#[test]
fn from_recipients_text_rejects_an_invalid_kept_line() {
    let text = "# comment\n\nnot a key\n";
    assert!(matches!(
        AgeEncryption::from_recipients_text(text),
        Err(ConfectError::Encryption(_))
    ));
}

#[test]
fn content_for_copy_encrypts_exactly_the_marked_paths() {
    let (identity, recipient) = generate_keypair();
    let codec = AgeEncryption::new(vec![recipient]).unwrap();
    let mut cat = Category::new("secret");
    cat.paths.push("/etc/*".to_string());
    cat.encrypt.push("/etc/secrets/*".to_string());
    let plain = b"api key material".to_vec();

    // An unmarked path is copied as-is.
    let out = content_for_copy(&cat, Some(&codec), "/etc/hostname", &plain).unwrap();
    assert_eq!(out, plain);

    // A marked path is copied as an envelope the identity can open.
    let out = content_for_copy(&cat, Some(&codec), "/etc/secrets/key", &plain).unwrap();
    assert_ne!(out, plain);
    assert!(is_encrypted(&out));
    assert_eq!(codec.decrypt(&out, &identity).unwrap(), plain);

    // Without a codec the content stays plain even for a marked path.
    let out = content_for_copy(&cat, None, "/etc/secrets/key", &plain).unwrap();
    assert_eq!(out, plain);

    // A marked path with a recipient-less codec is a failure, not a silent
    // plain copy.
    let empty = AgeEncryption::new(Vec::new()).unwrap();
    assert!(matches!(
        content_for_copy(&cat, Some(&empty), "/etc/secrets/key", &plain),
        Err(ConfectError::Encryption(_))
    ));
}

#[test]
fn blocklisted_small_order_recipients_are_rejected() {
    // The seven small-order u-coordinate values, each in its two byte
    // encodings (high bit clear and set), beside their canonical recipient
    // strings. Each string really decodes to its intended bytes, really
    // parses as an age recipient in both cases, and is rejected by the
    // codec in both cases.
    let entries: Vec<([u8; 32], &str)> = vec![
        ([0x00, 0x00, 0x00, 0x00, 0x00, 0x00, 0x00, 0x00, 0x00, 0x00, 0x00, 0x00, 0x00, 0x00, 0x00, 0x00, 0x00, 0x00, 0x00, 0x00, 0x00, 0x00, 0x00, 0x00, 0x00, 0x00, 0x00, 0x00, 0x00, 0x00, 0x00, 0x00], "age1qqqqqqqqqqqqqqqqqqqqqqqqqqqqqqqqqqqqqqqqqqqqqqqqqqqq5cu47z"),
        ([0x00, 0x00, 0x00, 0x00, 0x00, 0x00, 0x00, 0x00, 0x00, 0x00, 0x00, 0x00, 0x00, 0x00, 0x00, 0x00, 0x00, 0x00, 0x00, 0x00, 0x00, 0x00, 0x00, 0x00, 0x00, 0x00, 0x00, 0x00, 0x00, 0x00, 0x00, 0x80], "age1qqqqqqqqqqqqqqqqqqqqqqqqqqqqqqqqqqqqqqqqqqqqqqqqqzqqsuwj9m"),
        ([0x01, 0x00, 0x00, 0x00, 0x00, 0x00, 0x00, 0x00, 0x00, 0x00, 0x00, 0x00, 0x00, 0x00, 0x00, 0x00, 0x00, 0x00, 0x00, 0x00, 0x00, 0x00, 0x00, 0x00, 0x00, 0x00, 0x00, 0x00, 0x00, 0x00, 0x00, 0x00], "age1qyqqqqqqqqqqqqqqqqqqqqqqqqqqqqqqqqqqqqqqqqqqqqqqqqqqj7vrya"),
        ([0x01, 0x00, 0x00, 0x00, 0x00, 0x00, 0x00, 0x00, 0x00, 0x00, 0x00, 0x00, 0x00, 0x00, 0x00, 0x00, 0x00, 0x00, 0x00, 0x00, 0x00, 0x00, 0x00, 0x00, 0x00, 0x00, 0x00, 0x00, 0x00, 0x00, 0x00, 0x80], "age1qyqqqqqqqqqqqqqqqqqqqqqqqqqqqqqqqqqqqqqqqqqqqqqqqzqqk67yly"),
        ([0xe0, 0xeb, 0x7a, 0x7c, 0x3b, 0x41, 0xb8, 0xae, 0x16, 0x56, 0xe3, 0xfa, 0xf1, 0x9f, 0xc4, 0x6a, 0xda, 0x09, 0x8d, 0xeb, 0x9c, 0x32, 0xb1, 0xfd, 0x86, 0x62, 0x05, 0x16, 0x5f, 0x49, 0xb8, 0x00], "age1ur4h5lpmgxu2u9jku0a0r87ydtdqnr0tnsetrlvxvgz3vh6fhqqqzyt4v9"),
        ([0xe0, 0xeb, 0x7a, 0x7c, 0x3b, 0x41, 0xb8, 0xae, 0x16, 0x56, 0xe3, 0xfa, 0xf1, 0x9f, 0xc4, 0x6a, 0xda, 0x09, 0x8d, 0xeb, 0x9c, 0x32, 0xb1, 0xfd, 0x86, 0x62, 0x05, 0x16, 0x5f, 0x49, 0xb8, 0x80], "age1ur4h5lpmgxu2u9jku0a0r87ydtdqnr0tnsetrlvxvgz3vh6fhzqqxqejhu"),
        ([0x5f, 0x9c, 0x95, 0xbc, 0xa3, 0x50, 0x8c, 0x24, 0xb1, 0xd0, 0xb1, 0x55, 0x9c, 0x83, 0xef, 0x5b, 0x04, 0x44, 0x5c, 0xc4, 0x58, 0x1c, 0x8e, 0x86, 0xd8, 0x22, 0x4e, 0xdd, 0xd0, 0x9f, 0x11, 0x57], "age1t7wft09r2zxzfvwsk92eeql0tvzyghxytqwgapkcyf8dm5ylz9ts6wm9s8"),
        ([0x5f, 0x9c, 0x95, 0xbc, 0xa3, 0x50, 0x8c, 0x24, 0xb1, 0xd0, 0xb1, 0x55, 0x9c, 0x83, 0xef, 0x5b, 0x04, 0x44, 0x5c, 0xc4, 0x58, 0x1c, 0x8e, 0x86, 0xd8, 0x22, 0x4e, 0xdd, 0xd0, 0x9f, 0x11, 0xd7], "age1t7wft09r2zxzfvwsk92eeql0tvzyghxytqwgapkcyf8dm5ylz8ts72fzt7"),
        ([0xec, 0xff, 0xff, 0xff, 0xff, 0xff, 0xff, 0xff, 0xff, 0xff, 0xff, 0xff, 0xff, 0xff, 0xff, 0xff, 0xff, 0xff, 0xff, 0xff, 0xff, 0xff, 0xff, 0xff, 0xff, 0xff, 0xff, 0xff, 0xff, 0xff, 0xff, 0x7f], "age1anlllllllllllllllllllllllllllllllllllllllllllllllals4n2t7m"),
        ([0xec, 0xff, 0xff, 0xff, 0xff, 0xff, 0xff, 0xff, 0xff, 0xff, 0xff, 0xff, 0xff, 0xff, 0xff, 0xff, 0xff, 0xff, 0xff, 0xff, 0xff, 0xff, 0xff, 0xff, 0xff, 0xff, 0xff, 0xff, 0xff, 0xff, 0xff, 0xff], "age1anllllllllllllllllllllllllllllllllllllllllllllllllls3hcv9z"),
        ([0xed, 0xff, 0xff, 0xff, 0xff, 0xff, 0xff, 0xff, 0xff, 0xff, 0xff, 0xff, 0xff, 0xff, 0xff, 0xff, 0xff, 0xff, 0xff, 0xff, 0xff, 0xff, 0xff, 0xff, 0xff, 0xff, 0xff, 0xff, 0xff, 0xff, 0xff, 0x7f], "age1ahlllllllllllllllllllllllllllllllllllllllllllllllalsn46ayy"),
        ([0xed, 0xff, 0xff, 0xff, 0xff, 0xff, 0xff, 0xff, 0xff, 0xff, 0xff, 0xff, 0xff, 0xff, 0xff, 0xff, 0xff, 0xff, 0xff, 0xff, 0xff, 0xff, 0xff, 0xff, 0xff, 0xff, 0xff, 0xff, 0xff, 0xff, 0xff, 0xff], "age1ahlllllllllllllllllllllllllllllllllllllllllllllllllsh3g6la"),
        ([0xee, 0xff, 0xff, 0xff, 0xff, 0xff, 0xff, 0xff, 0xff, 0xff, 0xff, 0xff, 0xff, 0xff, 0xff, 0xff, 0xff, 0xff, 0xff, 0xff, 0xff, 0xff, 0xff, 0xff, 0xff, 0xff, 0xff, 0xff, 0xff, 0xff, 0xff, 0x7f], "age1amlllllllllllllllllllllllllllllllllllllllllllllllalselrwrv"),
        ([0xee, 0xff, 0xff, 0xff, 0xff, 0xff, 0xff, 0xff, 0xff, 0xff, 0xff, 0xff, 0xff, 0xff, 0xff, 0xff, 0xff, 0xff, 0xff, 0xff, 0xff, 0xff, 0xff, 0xff, 0xff, 0xff, 0xff, 0xff, 0xff, 0xff, 0xff, 0xff], "age1amlllllllllllllllllllllllllllllllllllllllllllllllllsam3fc4"),
    ];
    for (bytes, s) in &entries {
        let (hrp, data) = bech32::decode(s).unwrap();
        assert_eq!(hrp.to_lowercase(), "age");
        assert_eq!(data, bytes.to_vec());
        assert!(s.parse::<age::x25519::Recipient>().is_ok());
        assert!(s.to_uppercase().parse::<age::x25519::Recipient>().is_ok());
        assert!(matches!(
            AgeEncryption::new(vec![s.to_string()]),
            Err(ConfectError::Encryption(_))
        ));
        assert!(matches!(
            AgeEncryption::new(vec![s.to_uppercase()]),
            Err(ConfectError::Encryption(_))
        ));
    }
}
