use pwm::codec::{parse_store_bytes, serialize_store};
use pwm::config::Config;
use pwm::crypto::key_from_password;
use pwm::error::Error;
use pwm::store::{Entry, PasswordStore};

fn mock_config() -> Config {
    Config::from_pairs(vec![
        (
            "foo".to_string(),
            ("foo@gmail.com".to_string(), "pass1".to_string()),
        ),
        (
            "bar".to_string(),
            ("bar@gmail.com".to_string(), "pass2".to_string()),
        ),
    ])
    .unwrap()
}

#[test]
fn key_from_password_pads_short_passwords() {
    let key = key_from_password("abc");
    let mut expected = vec![97u8, 98, 99];
    expected.extend(std::iter::repeat(0u8).take(29));
    assert_eq!(key, expected);
}

#[test]
fn key_from_password_truncates_long_passwords() {
    let long = "0123456789012345678901234567890123456789";
    let key = key_from_password(long);
    assert_eq!(key.len(), 32);
    assert_eq!(key, long.as_bytes()[..32].to_vec());
}

#[test]
fn serialize_empty_store_exact_bytes() {
    let store = PasswordStore::new();
    assert_eq!(serialize_store(&store), vec![0u8; 8]);
}

#[test]
fn serialize_one_entry_exact_bytes() {
    let mut store = PasswordStore::new();
    store
        .add_password("a".to_string(), "b".to_string(), "c".to_string())
        .unwrap();
    let mut expected: Vec<u8> = vec![1, 0, 0, 0, 0, 0, 0, 0];
    for byte in [97u8, 98, 99] {
        expected.extend([1u8, 0, 0, 0, 0, 0, 0, 0]);
        expected.push(byte);
    }
    assert_eq!(serialize_store(&store), expected);
}

#[test]
fn parse_inverts_serialize() {
    let mut store = PasswordStore::new();
    store
        .add_password(
            "github.com".to_string(),
            "me@example.com".to_string(),
            "hunter2".to_string(),
        )
        .unwrap();
    let bytes = serialize_store(&store);
    let back = parse_store_bytes(&bytes).unwrap();
    let got = back.get_entry("github.com").unwrap();
    assert_eq!(got.username, "me@example.com");
    assert_eq!(got.password, "hunter2");
    assert_eq!(back.entries().len(), 1);
}

#[test]
fn parse_rejects_garbage() {
    assert_eq!(parse_store_bytes(&[1, 2, 3]).unwrap_err(), Error::MalformedData);
}

#[test]
fn parse_rejects_trailing_bytes() {
    let mut bytes = serialize_store(&PasswordStore::new());
    bytes.push(0);
    assert_eq!(parse_store_bytes(&bytes).unwrap_err(), Error::MalformedData);
}

#[test]
fn parse_rejects_invalid_utf8() {
    // one row whose account is the single invalid byte 0xff
    let mut bytes: Vec<u8> = vec![1, 0, 0, 0, 0, 0, 0, 0];
    bytes.extend([1u8, 0, 0, 0, 0, 0, 0, 0]);
    bytes.push(0xff);
    bytes.extend([0u8; 8]);
    bytes.extend([0u8; 8]);
    assert_eq!(parse_store_bytes(&bytes).unwrap_err(), Error::MalformedData);
}

#[test]
fn parse_rejects_duplicate_accounts() {
    // two rows with the same account name "a"
    let mut bytes: Vec<u8> = vec![2, 0, 0, 0, 0, 0, 0, 0];
    for _ in 0..2 {
        bytes.extend([1u8, 0, 0, 0, 0, 0, 0, 0]);
        bytes.push(97);
        bytes.extend([0u8; 8]);
        bytes.extend([0u8; 8]);
    }
    assert_eq!(parse_store_bytes(&bytes).unwrap_err(), Error::MalformedData);
}

#[test]
fn round_trip_preserves_entries() {
    let config = mock_config();
    let bytes = config.encrypt_bytes("TEST_PASS").unwrap();
    let back = Config::from_bytes(&bytes, "TEST_PASS").unwrap();
    let all = back.get_all_entries();
    assert_eq!(all.len(), 2);
    assert_eq!(back.get_entry("foo").unwrap().username, "foo@gmail.com");
    assert_eq!(back.get_entry("foo").unwrap().password, "pass1");
    assert_eq!(back.get_entry("bar").unwrap().username, "bar@gmail.com");
    assert_eq!(back.get_entry("bar").unwrap().password, "pass2");
}

#[test]
fn wrong_password_rejected() {
    let config = mock_config();
    let bytes = config.encrypt_bytes("TEST_PASS").unwrap();
    let err = Config::from_bytes(&bytes, "XEST_PASS").unwrap_err();
    assert_eq!(err, Error::DecryptionFailed);
}

#[test]
fn truncated_container_rejected() {
    let config = mock_config();
    let bytes = config.encrypt_bytes("TEST_PASS").unwrap();
    assert_eq!(
        Config::from_bytes(&bytes[..10], "TEST_PASS").unwrap_err(),
        Error::DecryptionFailed
    );
    assert_eq!(
        Config::from_bytes(&bytes[..bytes.len() - 1], "TEST_PASS").unwrap_err(),
        Error::DecryptionFailed
    );
}

#[test]
fn tampered_container_rejected() {
    let config = mock_config();
    let mut bytes = config.encrypt_bytes("TEST_PASS").unwrap();
    let last = bytes.len() - 1;
    bytes[last] ^= 1;
    assert_eq!(
        Config::from_bytes(&bytes, "TEST_PASS").unwrap_err(),
        Error::DecryptionFailed
    );
}

#[test]
fn nonce_unique_across_encryptions() {
    let config = mock_config();
    let first = config.encrypt_bytes("TEST_PASS").unwrap();
    let second = config.encrypt_bytes("TEST_PASS").unwrap();
    assert_ne!(first[..24], second[..24]);
    assert_ne!(first[24..], second[24..]);
}

#[test]
fn empty_store_round_trip() {
    let config = Config::new();
    let bytes = config.encrypt_bytes("TEST_PASS").unwrap();
    let back = Config::from_bytes(&bytes, "TEST_PASS").unwrap();
    assert_eq!(back.get_all_entries().len(), 0);
    assert!(back.get_entry("anything").is_none());
}

#[test]
fn container_add_entry_duplicate_rejected() {
    let mut config = mock_config();
    let err = config
        .add_entry(
            "foo",
            Entry {
                username: "other".to_string(),
                password: "other".to_string(),
            },
        )
        .unwrap_err();
    assert_eq!(err, Error::DuplicateAccount);
    assert_eq!(config.get_entry("foo").unwrap().password, "pass1");
}
