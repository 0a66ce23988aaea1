use passfile::crypt::{CryptCtx, ENCRYPTED_BLOCK_LEN, PLAIN_BLOCK_LEN, TAG_LEN};
use passfile::header::{Header, HEADER_LEN, NONCE_LEN, SALT_LEN};
use passfile::key::{confirm_to_key, Key, KEY_LEN};

fn err<T, E>(r: Result<T, E>) -> E {
    match r {
        Ok(_) => panic!("unexpected success"),
        Err(e) => e,
    }
}

fn fixed_header() -> Header {
    let mut bytes = Vec::new();
    for i in 0..HEADER_LEN {
        bytes.push(i as u8);
    }
    Header::read_from(bytes.as_slice()).unwrap()
}

fn other_header() -> Header {
    let mut bytes = Vec::new();
    for i in 0..HEADER_LEN {
        bytes.push(0xA0u8.wrapping_add(i as u8));
    }
    Header::read_from(bytes.as_slice()).unwrap()
}

fn key_for(pw: &[u8], head: &Header) -> Key {
    Key::from_password(pw, head).unwrap()
}

#[test]
fn header_read_write_round_trip() {
    let head = fixed_header();
    assert_eq!(head.salt().len(), SALT_LEN);
    assert_eq!(head.nonce().len(), NONCE_LEN);
    let mut out = Vec::new();
    head.write_to(&mut out);
    assert_eq!(out.len(), HEADER_LEN);
    let again = Header::read_from(out.as_slice()).unwrap();
    assert_eq!(again.salt(), head.salt());
    assert_eq!(again.nonce(), head.nonce());
}

#[test]
fn header_too_short_is_refused() {
    let bytes = vec![0u8; HEADER_LEN - 1];
    assert!(Header::read_from(bytes.as_slice()).is_err());
}

#[test]
fn generated_headers_are_well_formed_and_fresh() {
    let a = Header::generate().unwrap();
    let b = Header::generate().unwrap();
    assert_eq!(a.salt().len(), SALT_LEN);
    assert_eq!(a.nonce().len(), NONCE_LEN);
    // two fresh headers coincide only with negligible probability
    assert!(a.salt() != b.salt() || a.nonce() != b.nonce());
}

#[test]
fn key_has_fixed_length() {
    let head = fixed_header();
    let key = key_for(b"hunter2", &head);
    assert_eq!(key.as_slice().len(), KEY_LEN);
    assert_ne!(key.as_slice().as_slice(), b"hunter2");
}

#[test]
fn key_derivation_is_deterministic() {
    let head = fixed_header();
    let k1 = key_for(b"hunter2", &head);
    let k2 = key_for(b"hunter2", &head);
    assert_eq!(k1.as_slice(), k2.as_slice());
}

#[test]
fn key_differs_across_salts_and_passwords() {
    let h1 = fixed_header();
    let h2 = other_header();
    let k1 = key_for(b"hunter2", &h1);
    let k2 = key_for(b"hunter2", &h2);
    let k3 = key_for(b"hunter3", &h1);
    assert_ne!(k1.as_slice(), k2.as_slice());
    assert_ne!(k1.as_slice(), k3.as_slice());
}

#[test]
fn confirm_to_key_accepts_matching_passwords() {
    let head = fixed_header();
    let confirmed = confirm_to_key(b"hunter2", b"hunter2", &head).unwrap();
    let key = confirmed.expect("matching passwords must confirm");
    assert_eq!(key.as_slice(), key_for(b"hunter2", &head).as_slice());
}

#[test]
fn confirm_to_key_rejects_mismatched_passwords() {
    let head = fixed_header();
    let confirmed = confirm_to_key(b"hunter2", b"hunter3", &head).unwrap();
    assert!(confirmed.is_none());
}

fn round_trip_case(plain: &[u8]) {
    let head = fixed_header();
    let key = key_for(b"hunter2", &head);
    let ctx = CryptCtx::new(&key, &head);
    let sealed = ctx.encrypt(plain).unwrap();
    if plain.is_empty() {
        assert!(sealed.is_empty());
    } else {
        let blocks = (plain.len() + PLAIN_BLOCK_LEN - 1) / PLAIN_BLOCK_LEN;
        assert_eq!(sealed.len(), plain.len() + TAG_LEN * blocks);
    }
    let opened = ctx.decrypt(sealed.as_slice()).unwrap();
    assert_eq!(opened.expose().as_slice(), plain);
}

#[test]
fn round_trip_empty() {
    round_trip_case(b"");
}

#[test]
fn round_trip_short() {
    round_trip_case(b"attack at dawn");
}

#[test]
fn round_trip_exactly_one_block() {
    let plain = vec![0x5Au8; PLAIN_BLOCK_LEN];
    round_trip_case(plain.as_slice());
}

#[test]
fn round_trip_multi_block() {
    let mut plain = Vec::new();
    for i in 0..(2 * PLAIN_BLOCK_LEN + 100) {
        plain.push((i % 251) as u8);
    }
    round_trip_case(plain.as_slice());
}

#[test]
fn round_trip_method_returns_input() {
    let head = fixed_header();
    let key = key_for(b"hunter2", &head);
    let ctx = CryptCtx::new(&key, &head);
    let out = ctx.round_trip(b"some stored secrets");
    assert_eq!(out.as_slice(), b"some stored secrets");
}

#[test]
fn ciphertext_differs_from_plaintext() {
    let head = fixed_header();
    let key = key_for(b"hunter2", &head);
    let ctx = CryptCtx::new(&key, &head);
    let plain = b"plaintext must never appear in the sealed stream";
    let sealed = ctx.encrypt(plain).unwrap();
    assert_ne!(&sealed[..plain.len()], plain.as_slice());
    // raw plaintext bytes are not a valid sealed stream
    assert!(ctx.decrypt(plain.as_slice()).is_err());
}

#[test]
fn tamper_detection_every_bit_of_a_short_stream() {
    let head = fixed_header();
    let key = key_for(b"hunter2", &head);
    let ctx = CryptCtx::new(&key, &head);
    let plain = b"pin:1234";
    let sealed = ctx.encrypt(plain).unwrap();
    for byte in 0..sealed.len() {
        for bit in 0..8 {
            let mut bad = sealed.clone();
            bad[byte] ^= 1u8 << bit;
            assert!(
                ctx.decrypt(bad.as_slice()).is_err(),
                "flipping bit {bit} of byte {byte} went undetected"
            );
        }
    }
}

#[test]
fn tamper_detection_in_later_blocks() {
    let head = fixed_header();
    let key = key_for(b"hunter2", &head);
    let ctx = CryptCtx::new(&key, &head);
    let plain = vec![7u8; PLAIN_BLOCK_LEN + 600];
    let sealed = ctx.encrypt(plain.as_slice()).unwrap();
    // one bit in the second sealed block's ciphertext
    let mut bad = sealed.clone();
    bad[ENCRYPTED_BLOCK_LEN + 3] ^= 0x10;
    assert!(ctx.decrypt(bad.as_slice()).is_err());
    // one bit in the trailing tag
    let mut bad = sealed.clone();
    let last = bad.len() - 1;
    bad[last] ^= 0x80;
    assert!(ctx.decrypt(bad.as_slice()).is_err());
}

#[test]
fn truncation_and_reordering_are_detected() {
    let head = fixed_header();
    let key = key_for(b"hunter2", &head);
    let ctx = CryptCtx::new(&key, &head);
    let plain = vec![9u8; 2 * PLAIN_BLOCK_LEN];
    let sealed = ctx.encrypt(plain.as_slice()).unwrap();
    assert_eq!(sealed.len(), 2 * ENCRYPTED_BLOCK_LEN);
    // dropping the trailing block leaves a stream whose last block was not
    // sealed as final
    let truncated = &sealed[..ENCRYPTED_BLOCK_LEN];
    assert!(ctx.decrypt(truncated).is_err());
    // swapping the two blocks breaks the per-block counters
    let mut swapped = Vec::new();
    swapped.extend_from_slice(&sealed[ENCRYPTED_BLOCK_LEN..]);
    swapped.extend_from_slice(&sealed[..ENCRYPTED_BLOCK_LEN]);
    assert!(ctx.decrypt(swapped.as_slice()).is_err());
}

#[test]
fn wrong_key_fails_with_the_same_condition() {
    let head = fixed_header();
    let key = key_for(b"hunter2", &head);
    let ctx = CryptCtx::new(&key, &head);
    let sealed = ctx.encrypt(b"secret data").unwrap();

    let other_key = key_for(b"not-hunter2", &head);
    let other_ctx = CryptCtx::new(&other_key, &head);
    let wrong_key_err = err(other_ctx.decrypt(sealed.as_slice()));

    let mut corrupted = sealed.clone();
    corrupted[0] ^= 1;
    let corrupt_err = err(ctx.decrypt(corrupted.as_slice()));

    // wrong password and corrupted data surface as the one opaque condition
    assert!(matches!(wrong_key_err, passfile::crypt::Error::DecryptingBlock));
    assert!(matches!(corrupt_err, passfile::crypt::Error::DecryptingBlock));
}
