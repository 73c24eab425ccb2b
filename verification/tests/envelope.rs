use keyring_core::envelope::{decode, encode, ExchangePayload, IV, PRIVATE, PROTOCOL, PUBLIC, SECRET};

fn field(payload: &ExchangePayload, key: &str) -> Option<Vec<u8>> {
    payload.get(key).map(|value| value.to_vec())
}

#[test]
fn field_keys_and_header() {
    assert_eq!(PROTOCOL, "[sx-aes-1]\n");
    assert_eq!(SECRET, "secret");
    assert_eq!(PUBLIC, "public");
    assert_eq!(PRIVATE, "private");
    assert_eq!(IV, "iv");
}

#[test]
fn encode_writes_header_and_lines() {
    let mut payload = ExchangePayload::new();
    assert_eq!(encode(&payload), "[sx-aes-1]\n");
    payload.insert(SECRET, b"password".to_vec());
    assert_eq!(encode(&payload), "[sx-aes-1]\nsecret=cGFzc3dvcmQ=");
    payload.insert(IV, vec![0, 1, 2]);
    assert_eq!(encode(&payload), "[sx-aes-1]\nsecret=cGFzc3dvcmQ=\niv=AAEC");
    payload.insert(SECRET, b"ab".to_vec());
    assert_eq!(encode(&payload), "[sx-aes-1]\nsecret=YWI=\niv=AAEC");
    assert_eq!(payload.len(), 2);
}

#[test]
fn decode_undoes_encode() {
    let mut payload = ExchangePayload::new();
    payload.insert(PUBLIC, (0u8..=255).collect());
    payload.insert(SECRET, vec![0xFF; 16]);
    payload.insert(IV, vec![1]);
    payload.insert("other", vec![2, 3]);
    payload.insert("", vec![4]);
    let decoded = decode(&encode(&payload)).unwrap();
    assert_eq!(decoded.len(), 5);
    assert_eq!(field(&decoded, PUBLIC), Some((0u8..=255).collect()));
    assert_eq!(field(&decoded, SECRET), Some(vec![0xFF; 16]));
    assert_eq!(field(&decoded, IV), Some(vec![1]));
    assert_eq!(field(&decoded, "other"), Some(vec![2, 3]));
    assert_eq!(field(&decoded, ""), Some(vec![4]));
    assert_eq!(field(&decoded, PRIVATE), None);
}

#[test]
fn an_empty_value_cannot_be_read_back() {
    let mut payload = ExchangePayload::new();
    payload.insert(SECRET, vec![]);
    let text = encode(&payload);
    assert_eq!(text, "[sx-aes-1]\nsecret=");
    assert!(decode(&text).is_none());
}

#[test]
fn decode_needs_the_header_at_the_start() {
    assert!(decode("").is_none());
    assert!(decode("secret=cGFzc3dvcmQ=").is_none());
    assert!(decode("[sx-aes-1]").is_none());
    assert!(decode("[sx-aes-2]\nsecret=cGFzc3dvcmQ=").is_none());
    assert!(decode(" [sx-aes-1]\nsecret=cGFzc3dvcmQ=").is_none());
    assert!(decode("x=YQ==\n[sx-aes-1]\nsecret=cGFzc3dvcmQ=").is_none());
    assert!(decode("[SX-AES-1]\nsecret=cGFzc3dvcmQ=").is_none());
}

#[test]
fn decode_accepts_an_empty_body() {
    assert_eq!(decode("[sx-aes-1]\n").unwrap().len(), 0);
    assert_eq!(decode("[sx-aes-1]\n\n").unwrap().len(), 0);
}

#[test]
fn decode_ignores_empty_lines() {
    let decoded = decode("[sx-aes-1]\nsecret=cGFzc3dvcmQ=\n").unwrap();
    assert_eq!(field(&decoded, SECRET), Some(b"password".to_vec()));
    assert_eq!(decoded.len(), 1);
    let decoded = decode("[sx-aes-1]\nsecret=cGFzc3dvcmQ=\n\niv=AAEC\n\n").unwrap();
    assert_eq!(field(&decoded, SECRET), Some(b"password".to_vec()));
    assert_eq!(field(&decoded, IV), Some(vec![0, 1, 2]));
    assert_eq!(decoded.len(), 2);
}

#[test]
fn decode_rejects_malformed_lines() {
    // No `=` in a line.
    assert!(decode("[sx-aes-1]\nsecret").is_none());
    assert!(decode("[sx-aes-1]\nsecret=cGFzc3dvcmQ=\njunk").is_none());
    assert!(decode("[sx-aes-1]\njunk\nsecret=cGFzc3dvcmQ=").is_none());
    // A value that is no base64 text.
    assert!(decode("[sx-aes-1]\nsecret=***").is_none());
    assert!(decode("[sx-aes-1]\nsecret=cGFzc3dvcmQ").is_none());
    assert!(decode("[sx-aes-1]\nsecret=cGFzc3dvcmQ= ").is_none());
    assert!(decode("[sx-aes-1]\nsecret=cGFzc3dvcmQ=\r\n").is_none());
    assert!(decode("[sx-aes-1]\nsecret=päss").is_none());
    // An empty value.
    assert!(decode("[sx-aes-1]\nsecret=").is_none());
    assert!(decode("[sx-aes-1]\niv=AAEC\nsecret=\n").is_none());
}

#[test]
fn decode_splits_at_the_first_equals_sign() {
    let decoded = decode("[sx-aes-1]\nsecret=YWI=").unwrap();
    assert_eq!(field(&decoded, SECRET), Some(b"ab".to_vec()));
    // The text behind the first `=` is the value, so `a=b=...` has the key `a`.
    assert!(decode("[sx-aes-1]\na=b=YWI=").is_none());
    let decoded = decode("[sx-aes-1]\n=YWI=").unwrap();
    assert_eq!(field(&decoded, ""), Some(b"ab".to_vec()));
}

#[test]
fn of_two_lines_with_one_key_the_later_counts() {
    let decoded = decode("[sx-aes-1]\nsecret=YWI=\niv=AAEC\nsecret=cGFzc3dvcmQ=").unwrap();
    assert_eq!(decoded.len(), 2);
    assert_eq!(field(&decoded, SECRET), Some(b"password".to_vec()));
    assert_eq!(field(&decoded, IV), Some(vec![0, 1, 2]));
}

#[test]
fn unknown_keys_are_kept() {
    let decoded = decode("[sx-aes-1]\ncolour=YWI=\nclé=AAEC").unwrap();
    assert_eq!(field(&decoded, "colour"), Some(b"ab".to_vec()));
    assert_eq!(field(&decoded, "clé"), Some(vec![0, 1, 2]));
    assert_eq!(field(&decoded, SECRET), None);
    assert_eq!(encode(&decoded), "[sx-aes-1]\ncolour=YWI=\nclé=AAEC");
}

#[test]
fn insert_replaces_in_place() {
    let mut payload = ExchangePayload::new();
    assert_eq!(payload.len(), 0);
    assert!(payload.get(SECRET).is_none());
    payload.insert(SECRET, vec![1]);
    payload.insert(IV, vec![2]);
    payload.insert(SECRET, vec![3]);
    assert_eq!(payload.len(), 2);
    assert_eq!(field(&payload, SECRET), Some(vec![3]));
    assert_eq!(field(&payload, IV), Some(vec![2]));
}
