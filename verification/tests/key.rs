use keyring_core::attribute_value::AttributeValue;
use keyring_core::error::{Error, EXIT_SUCCESS};
use keyring_core::key::{Key, KeyStrength, Secret, WeakKeyReason};

#[test]
fn a_key_holds_its_bytes_and_its_strength() {
    let key = Key::new(vec![1, 2, 3], KeyStrength::Strong);
    assert_eq!(key.len(), 3);
    assert_eq!(key.as_view(), &[1, 2, 3]);
    assert_eq!(key.strength(), KeyStrength::Strong);
    assert!(key.may_protect_new_items());
    let weak = Key::new(vec![], KeyStrength::Weak(WeakKeyReason::PasswordLowEntropy));
    assert_eq!(weak.len(), 0);
    assert_eq!(
        weak.strength(),
        KeyStrength::Weak(WeakKeyReason::PasswordLowEntropy)
    );
    assert!(!weak.may_protect_new_items());
}

#[test]
fn a_key_can_be_written_through_its_view() {
    let mut key = Key::new(vec![0; 4], KeyStrength::Weak(WeakKeyReason::PasswordTooShort));
    key.as_mut_view().copy_from_slice(&[9, 8, 7, 6]);
    assert_eq!(key.as_view(), &[9, 8, 7, 6]);
    assert_eq!(
        key.strength(),
        KeyStrength::Weak(WeakKeyReason::PasswordTooShort)
    );
}

#[test]
fn a_secret_holds_its_bytes() {
    let secret = Secret::new(b"password".to_vec());
    assert_eq!(secret.len(), 8);
    assert_eq!(secret.as_bytes(), b"password");
    assert_eq!(secret.to_vec(), b"password".to_vec());
}

#[test]
fn a_deep_copy_shares_nothing() {
    let mut key = Key::new(vec![4, 5, 6], KeyStrength::Weak(WeakKeyReason::PasswordLowEntropy));
    let copy = key.deep_copy();
    key.zeroize();
    assert_eq!(copy.as_view(), &[4, 5, 6]);
    assert_eq!(
        copy.strength(),
        KeyStrength::Weak(WeakKeyReason::PasswordLowEntropy)
    );
}

#[test]
fn zeroize_empties_the_buffer() {
    let mut key = Key::new(vec![1, 2, 3], KeyStrength::Weak(WeakKeyReason::PasswordTooShort));
    key.zeroize();
    assert_eq!(key.len(), 0);
    assert_eq!(
        key.strength(),
        KeyStrength::Weak(WeakKeyReason::PasswordTooShort)
    );
    let mut secret = Secret::new(b"password".to_vec());
    secret.zeroize();
    assert_eq!(secret.len(), 0);
    assert!(secret.to_vec().is_empty());
    let mut value = AttributeValue::new("secret");
    value.zeroize();
    assert_eq!(value.as_str(), "");
}

#[test]
fn attribute_values() {
    let value = AttributeValue::from("café");
    assert_eq!(value.as_str(), "café");
    assert_eq!(AttributeValue::from("café".to_string()).as_str(), "café");
    assert_eq!(AttributeValue::new("x").as_str(), "x");
    let key = Key::new((0u8..16).collect(), KeyStrength::Strong);
    let tag = value.mac(&key);
    let expected: Vec<u8> = vec![
        0xd1, 0x81, 0xd4, 0x23, 0xa1, 0x43, 0xf6, 0xc9, 0x8e, 0x14, 0x1c, 0x13, 0x54, 0x9b, 0x37,
        0x46, 0xa9, 0x4d, 0xee, 0xce, 0x96, 0x4e, 0xa5, 0xeb, 0x58, 0x5b, 0xe6, 0x93, 0x33, 0x4d,
        0xa7, 0xff,
    ];
    assert_eq!(tag, expected);
}

#[test]
fn exit_codes() {
    assert_eq!(EXIT_SUCCESS, 0);
    assert_eq!(Error::BadExchange.exit_code(), Some(2));
    assert_eq!(Error::Unpad.exit_code(), Some(3));
    assert_eq!(Error::MacMismatch.exit_code(), Some(3));
    assert_eq!(Error::Crypto.exit_code(), Some(4));
    assert_eq!(Error::Bus.exit_code(), Some(5));
    assert_eq!(Error::InvalidKeyOrIvLength.exit_code(), None);
    assert_eq!(Error::Cancelled.exit_code(), None);
    assert_eq!(Error::ProtocolViolation.exit_code(), None);
    assert!(Error::Unpad.is_incorrect_secret());
    assert!(Error::MacMismatch.is_incorrect_secret());
    assert!(!Error::Crypto.is_incorrect_secret());
    assert_eq!(Error::BadExchange.message(), "malformed secret exchange");
}
