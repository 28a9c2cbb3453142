use live_sync::ids::{ContentHash, InvalidPublicKey, NamespaceId, PublicKey};

fn some_invalid_key() -> [u8; 32] {
    (0..=255u8)
        .map(|byte| [byte; 32])
        .find(|bytes| iroh::PublicKey::from_bytes(bytes).is_err())
        .unwrap()
}

#[test]
fn a_public_key_keeps_its_bytes() {
    let bytes = [1; 32];
    let key = PublicKey::from_bytes(&bytes).unwrap();
    assert_eq!(*key.as_bytes(), bytes);

    let key = iroh::SecretKey::from_bytes(&[7; 32]).public();
    assert_eq!(PublicKey::from_bytes(key.as_bytes()).unwrap().as_bytes(), key.as_bytes());
}

#[test]
fn bytes_that_are_no_point_are_no_public_key() {
    assert_eq!(PublicKey::from_bytes(&some_invalid_key()), Err(InvalidPublicKey));
}

#[test]
fn the_same_bytes_are_keys_here_and_there() {
    for byte in 0..=255u8 {
        let bytes = [byte; 32];
        assert_eq!(
            PublicKey::from_bytes(&bytes).is_ok(),
            iroh::PublicKey::from_bytes(&bytes).is_ok()
        );
    }
}

#[test]
fn the_short_form_is_five_bytes_in_hexadecimal() {
    let mut bytes = [1; 32];
    let key = PublicKey::from_bytes(&bytes).unwrap();
    assert_eq!(key.fmt_short(), "0101010101");

    bytes[..6].copy_from_slice(&[0x00, 0x9f, 0xa0, 0xff, 0x1e, 0x77]);
    assert_eq!(NamespaceId::from_bytes(bytes).fmt_short(), "009fa0ff1e");
}

#[test]
fn the_short_form_of_a_key_is_that_of_its_owner() {
    let key = iroh::SecretKey::from_bytes(&[9; 32]).public();
    let same = PublicKey::from_bytes(key.as_bytes()).unwrap();
    assert_eq!(same.fmt_short(), key.fmt_short().to_string());
    assert_ne!(same.fmt_short(), format!("{:?}", key.as_bytes()));
}

#[test]
fn identifiers_are_their_bytes() {
    assert_eq!(*ContentHash::from_bytes([3; 32]).as_bytes(), [3; 32]);
    assert_eq!(*NamespaceId::from_bytes([4; 32]).as_bytes(), [4; 32]);
    assert_ne!(NamespaceId::from_bytes([4; 32]), NamespaceId::from_bytes([5; 32]));
}
