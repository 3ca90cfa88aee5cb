use dnsqb_service::encrypted_file::{
    open, seal, seal_with_nonce, EncryptedFileError, FileKind, HEADER_LEN, MIN_LEN,
};

const KEY: [u8; 32] = [7u8; 32];

fn seal_ok(kind: FileKind, plaintext: &[u8]) -> Vec<u8> {
    match seal(&KEY, kind, plaintext) {
        Ok(bytes) => bytes,
        Err(err) => panic!("seal must succeed: {}", err.message()),
    }
}

#[test]
fn seal_then_open_round_trips_the_plaintext_and_kind() {
    let plaintext = b"example.com decision=ALLOWED source=QUORUM";
    let sealed = seal_ok(FileKind::QueryLog, plaintext);
    match open(&KEY, FileKind::QueryLog, &sealed) {
        Ok(got) => assert_eq!(got, plaintext),
        Err(err) => panic!("open must return the sealed plaintext: {}", err.message()),
    }
}

#[test]
fn sealed_bytes_do_not_contain_the_plaintext() {
    let sentinel = "super-secret-internal-hostname.example";
    let sealed = seal_ok(FileKind::QueryLog, sentinel.as_bytes());
    let needle = sentinel.as_bytes();
    assert!(
        !sealed.windows(needle.len()).any(|w| w == needle),
        "the sealed container must not contain the plaintext in the clear"
    );
}

#[test]
fn two_seals_of_the_same_plaintext_differ_by_nonce() {
    let plaintext = b"same input twice";
    let a = seal_ok(FileKind::Cache, plaintext);
    let b = seal_ok(FileKind::Cache, plaintext);
    assert_ne!(a, b, "each seal draws a fresh random nonce");
    match (
        open(&KEY, FileKind::Cache, &a),
        open(&KEY, FileKind::Cache, &b),
    ) {
        (Ok(pa), Ok(pb)) => {
            assert_eq!(pa, plaintext);
            assert_eq!(pb, plaintext);
        }
        other => panic!("both must still decrypt to the same plaintext, got {other:?}"),
    }
}

#[test]
fn open_rejects_a_container_shorter_than_the_minimum() {
    let short = vec![0u8; MIN_LEN - 1];
    assert!(matches!(
        open(&KEY, FileKind::QueryLog, &short),
        Err(EncryptedFileError::Malformed)
    ));
    assert!(matches!(
        open(&KEY, FileKind::QueryLog, &[]),
        Err(EncryptedFileError::Malformed)
    ));
}

#[test]
fn open_rejects_a_wrong_magic() {
    let mut sealed = seal_ok(FileKind::QueryLog, b"payload");
    sealed[0] ^= 0xff;
    assert!(matches!(
        open(&KEY, FileKind::QueryLog, &sealed),
        Err(EncryptedFileError::Malformed)
    ));
}

#[test]
fn open_rejects_the_wrong_file_kind() {
    let sealed = seal_ok(FileKind::QueryLog, b"payload");
    assert!(
        matches!(
            open(&KEY, FileKind::Cache, &sealed),
            Err(EncryptedFileError::Malformed)
        ),
        "a query-log container must not open as a cache container"
    );
}

#[test]
fn open_reports_an_unsupported_version_distinctly_from_tampering() {
    let mut sealed = seal_ok(FileKind::QueryLog, b"payload");
    sealed[5] = 2;
    match open(&KEY, FileKind::QueryLog, &sealed) {
        Err(EncryptedFileError::UnsupportedVersion { found: 2 }) => {}
        other => panic!("expected UnsupportedVersion {{ found: 2 }}, got {other:?}"),
    }
}

#[test]
fn open_rejects_a_bit_flip_in_the_ciphertext() {
    let mut sealed = seal_ok(FileKind::QueryLog, b"a longer payload here");
    let last = sealed.len() - 1;
    sealed[last] ^= 0x01;
    assert!(matches!(
        open(&KEY, FileKind::QueryLog, &sealed),
        Err(EncryptedFileError::Decrypt)
    ));
}

#[test]
fn open_rejects_a_bit_flip_in_the_nonce() {
    let mut sealed = seal_ok(FileKind::QueryLog, b"payload");
    sealed[HEADER_LEN] ^= 0x01;
    assert!(matches!(
        open(&KEY, FileKind::QueryLog, &sealed),
        Err(EncryptedFileError::Decrypt)
    ));
}

#[test]
fn open_rejects_truncation_of_the_ciphertext_tail() {
    let sealed = seal_ok(FileKind::QueryLog, b"a payload long enough to cut");
    let cut = &sealed[..sealed.len() - 1];
    assert!(matches!(
        open(&KEY, FileKind::QueryLog, cut),
        Err(EncryptedFileError::Decrypt)
    ));
}

#[test]
fn open_with_the_wrong_key_fails_authentication() {
    let sealed = seal_ok(FileKind::QueryLog, b"payload");
    let wrong = [8u8; 32];
    assert!(matches!(
        open(&wrong, FileKind::QueryLog, &sealed),
        Err(EncryptedFileError::Decrypt)
    ));
}

#[test]
fn round_trips_an_empty_plaintext() {
    let sealed = seal_ok(FileKind::Cache, b"");
    assert_eq!(sealed.len(), MIN_LEN, "header + nonce + tag, no body");
    match open(&KEY, FileKind::Cache, &sealed) {
        Ok(got) => assert!(got.is_empty()),
        Err(err) => panic!(
            "open of an empty-body container must succeed: {}",
            err.message()
        ),
    }
}

#[test]
fn the_header_is_bound_as_associated_data() {
    let mut sealed = seal_ok(FileKind::QueryLog, b"payload");
    sealed[4] = FileKind::Cache.tag();
    assert!(
        matches!(
            open(&KEY, FileKind::Cache, &sealed),
            Err(EncryptedFileError::Decrypt)
        ),
        "rewriting the kind byte to match a different expected_kind must not authenticate"
    );
}

#[test]
fn the_header_names_the_format_the_store_and_the_version() {
    for (kind, tag) in [
        (FileKind::QueryLog, 1),
        (FileKind::Cache, 2),
        (FileKind::PersonalZone, 3),
    ] {
        let sealed = seal_ok(kind, b"payload");
        assert_eq!(&sealed[..4], b"DQF1");
        assert_eq!(sealed[4], tag);
        assert_eq!(sealed[5], 1);
    }
}

#[test]
fn a_container_under_a_given_nonce_holds_that_nonce() {
    let nonce = [9u8; 24];
    let Ok(a) = seal_with_nonce(&KEY, FileKind::Cache, &nonce, b"payload") else {
        panic!("seal must succeed");
    };
    let Ok(b) = seal_with_nonce(&KEY, FileKind::Cache, &nonce, b"payload") else {
        panic!("seal must succeed");
    };
    assert_eq!(a, b);
    assert_eq!(&a[6..30], &nonce);
    assert_eq!(a.len(), MIN_LEN + 7);
    assert_ne!(&a[30..37], b"payload");
}

#[test]
fn errors_say_nothing_of_the_content() {
    assert_eq!(
        EncryptedFileError::UnsupportedVersion { found: 7 }.message(),
        "persisted file format version 7 is not supported (this build reads 1)"
    );
    assert_eq!(
        EncryptedFileError::Encrypt.message(),
        "plaintext is too large to encrypt"
    );
    assert_eq!(
        EncryptedFileError::Rng.message(),
        "the OS random number generator failed while producing a nonce"
    );
}
