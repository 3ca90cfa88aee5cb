use dnsqb_service::key_store::{
    drawn_key, key_from_secret, key_stored, load_or_create_persistence_key,
    maxmind_credentials_entry, overwrite_len, persistence_key_entry, personal_zone_key_entry,
    tls_key_entry, KeyStep, KeyStoreError, PersistenceKey, SecretRead,
};
use dnsqb_service::local_state::{
    remove_all, remove_cert, remove_secret, ArtifactOutcome, Presence, SecretRemoval,
    SecretRemovals,
};
use dnsqb_service::paths::{app_data_dir_hash, file_in, resolve_app_data_dir, PathsError};

/// One entry of a credential store.
struct Store {
    secret: Option<Vec<u8>>,
}

impl Store {
    fn obtain(&mut self, ciphertext_present: bool) -> Result<PersistenceKey, KeyStoreError> {
        let read = match &self.secret {
            Some(bytes) => SecretRead::Present(bytes.clone()),
            None => SecretRead::Absent,
        };
        match load_or_create_persistence_key(read) {
            KeyStep::Done(result) => result,
            KeyStep::Store(key) => {
                self.secret = Some(key.to_vec());
                key_stored(key, true, ciphertext_present)
            }
        }
    }

    fn remove(&mut self) -> ArtifactOutcome {
        let removal = SecretRemoval {
            found: if self.secret.is_some() {
                Presence::Present
            } else {
                Presence::Absent
            },
            deleted: true,
        };
        self.secret = None;
        remove_secret(removal)
    }
}

#[test]
fn entry_name_is_stable_path_specific_and_normalized() {
    let a = tls_key_entry(r"C:\Users\x\AppData\Local\dns-quorum-filter");
    let b = tls_key_entry(r"C:\Users\x\AppData\Local\dns-quorum-filter");
    let c = tls_key_entry(r"C:\scratch\dns-quorum-filter");
    let d = tls_key_entry(r"C:\Users\x\AppData\local\dns-quorum-filter\");
    assert_eq!(a, b, "same path must yield the same entry");
    assert_ne!(a, c, "a different path must yield a different entry");
    assert_eq!(a, d, "case / trailing separator must be normalized away");
    assert!(a.starts_with("doh-tls-private-key:"));
}

#[test]
fn tls_and_maxmind_entries_differ_for_the_same_dir() {
    let dir = r"C:\Users\x\AppData\Local\dns-quorum-filter";
    let key = tls_key_entry(dir);
    let creds = maxmind_credentials_entry(dir);
    assert_ne!(key, creds, "the two secrets must not share one entry");
    assert!(creds.starts_with("maxmind-credentials:"));
    assert_eq!(
        key.rsplit(':').next(),
        creds.rsplit(':').next(),
        "both entries are derived from the same normalized path"
    );
}

#[test]
fn persistence_key_entry_differs_from_the_other_two_and_shares_the_dir_hash() {
    let dir = r"C:\Users\x\AppData\Local\dns-quorum-filter";
    let persist = persistence_key_entry(dir);
    assert!(persist.starts_with("persistence-key:"));
    assert_ne!(persist, tls_key_entry(dir));
    assert_ne!(persist, maxmind_credentials_entry(dir));
    assert_eq!(
        persist.rsplit(':').next(),
        tls_key_entry(dir).rsplit(':').next(),
        "all three entries derive from the same normalized path hash"
    );
}

#[test]
fn first_run_generates_and_persists_a_key() {
    let mut store = Store { secret: None };
    let pk = match store.obtain(false) {
        Ok(pk) => pk,
        Err(err) => panic!("first run must mint a key: {}", err.message()),
    };
    assert!(!pk.orphaned_ciphertext, "no ciphertext file was present");
    assert!(
        !pk.key.iter().all(|&b| b == 0),
        "a freshly generated key must not be all zeros"
    );
    match store.secret {
        Some(stored) => assert_eq!(stored.len(), 32),
        None => panic!("the minted key must be persisted"),
    }
}

#[test]
fn a_second_call_returns_the_same_key() {
    let mut store = Store { secret: None };
    let first = match store.obtain(false) {
        Ok(pk) => pk,
        Err(err) => panic!("first call: {}", err.message()),
    };
    let second = match store.obtain(false) {
        Ok(pk) => pk,
        Err(err) => panic!("second call: {}", err.message()),
    };
    assert!(
        first.key.as_slice() == second.key.as_slice(),
        "the second call must return the same stored key bytes"
    );
    assert!(!second.orphaned_ciphertext);
}

#[test]
fn two_installations_get_different_keys() {
    let first = Store { secret: None }.obtain(false);
    let second = Store { secret: None }.obtain(false);
    match (first, second) {
        (Ok(a), Ok(b)) => assert_ne!(a.key, b.key),
        _ => panic!("both runs must mint a key"),
    }
}

#[test]
fn ciphertext_present_with_no_stored_key_signals_an_orphan() {
    let mut store = Store { secret: None };
    let pk = match store.obtain(true) {
        Ok(pk) => pk,
        Err(err) => panic!("must still mint a key: {}", err.message()),
    };
    assert!(
        pk.orphaned_ciphertext,
        "a ciphertext file with no key must flag the caller to move it aside"
    );
    assert!(
        !pk.key.iter().all(|&b| b == 0),
        "a key must still have been minted"
    );
}

#[test]
fn once_a_key_exists_ciphertext_present_does_not_signal_an_orphan() {
    let mut store = Store { secret: None };
    if let Err(err) = store.obtain(false) {
        panic!("seed the key: {}", err.message());
    }
    let pk = match store.obtain(true) {
        Ok(pk) => pk,
        Err(err) => panic!("second call: {}", err.message()),
    };
    assert!(
        !pk.orphaned_ciphertext,
        "the stored key can decrypt the existing file - not an orphan"
    );
}

#[test]
fn a_stored_key_of_the_wrong_length_is_rejected() {
    let mut store = Store {
        secret: Some(b"not thirty-two".to_vec()),
    };
    match store.obtain(false) {
        Err(KeyStoreError::MalformedKey) => {}
        Ok(_) => panic!("a wrong-length stored key must not be accepted"),
        Err(err) => panic!("expected MalformedKey, got {}", err.message()),
    }
    assert_eq!(
        key_from_secret(&[3u8; 33]),
        Err(KeyStoreError::MalformedKey)
    );
}

#[test]
fn a_store_that_fails_gives_no_key() {
    assert!(matches!(
        load_or_create_persistence_key(SecretRead::Failed),
        KeyStep::Done(Err(KeyStoreError::Backend))
    ));
    assert!(matches!(
        key_stored([1u8; 32], false, false),
        Err(KeyStoreError::Backend)
    ));
}

#[test]
fn a_drawn_key_is_the_bytes_that_were_drawn() {
    let mut bytes = [0u8; 32];
    bytes[0] = 7;
    bytes[31] = 9;
    assert_eq!(drawn_key(true, &bytes), Ok(bytes));
    assert_eq!(drawn_key(false, &bytes), Err(KeyStoreError::Rng));
    assert_eq!(drawn_key(false, &[]), Err(KeyStoreError::Rng));
    assert_eq!(
        drawn_key(true, &bytes[1..]),
        Err(KeyStoreError::MalformedKey)
    );
}

#[test]
fn nothing_of_a_key_is_logged() {
    let Ok(pk) = key_stored([0xabu8; 32], true, true) else {
        panic!("the key was stored");
    };
    assert_eq!(
        pk.log_text(),
        "PersistenceKey { key: \"<redacted 32 bytes>\", orphaned_ciphertext: true }"
    );
}

#[test]
fn a_file_is_overwritten_up_to_a_limit() {
    assert_eq!(overwrite_len(0), 0);
    assert_eq!(overwrite_len(65_536), 65_536);
    assert_eq!(overwrite_len(65_537), 65_536);
}

#[test]
fn resolves_under_the_given_local_app_data_root() {
    let resolved = resolve_app_data_dir(Some(r"C:\Users\x\AppData\Local".to_string()));
    let Ok(dir) = resolved else {
        panic!("a root is given");
    };
    assert_eq!(
        format!(r"{}\{}", dir.parent, dir.name),
        r"C:\Users\x\AppData\Local\dns-quorum-filter"
    );
}

#[test]
fn missing_local_app_data_is_an_explicit_error_not_a_guessed_fallback() {
    assert_eq!(
        resolve_app_data_dir(None),
        Err(PathsError::LocalAppDataNotSet)
    );
}

#[test]
fn app_data_dir_hash_is_stable_case_and_trailing_separator_normalized() {
    let a = app_data_dir_hash(r"C:\Users\x\AppData\Local\dns-quorum-filter");
    let b = app_data_dir_hash(r"c:\users\x\appdata\local\dns-quorum-filter\");
    assert_eq!(a, b, "case and a trailing separator must normalize away");
    assert_eq!(a.len(), 16, "8 bytes, hex-encoded");
    assert!(a.chars().all(|c| c.is_ascii_hexdigit()));
}

#[test]
fn app_data_dir_hash_differs_for_a_different_path() {
    assert_ne!(
        app_data_dir_hash(r"C:\Users\x\AppData\Local\dns-quorum-filter"),
        app_data_dir_hash(r"C:\Users\y\AppData\Local\dns-quorum-filter"),
    );
}

#[test]
fn a_file_lies_in_its_directory() {
    let path = file_in("/data", "config.toml");
    assert_eq!(path.parent.as_deref(), Some("/data"));
    assert_eq!(path.name, "config.toml");
}

#[test]
fn present_secret_reports_removed() {
    let mut store = Store {
        secret: Some(b"placeholder".to_vec()),
    };
    assert_eq!(store.remove(), ArtifactOutcome::Removed);
}

#[test]
fn absent_secret_reports_not_present() {
    let mut store = Store { secret: None };
    assert_eq!(store.remove(), ArtifactOutcome::NotPresent);
}

#[test]
fn removing_the_same_secret_twice_is_idempotent() {
    let mut store = Store {
        secret: Some(b"placeholder".to_vec()),
    };
    assert_eq!(store.remove(), ArtifactOutcome::Removed);
    assert_eq!(store.remove(), ArtifactOutcome::NotPresent);
}

#[test]
fn an_entry_that_could_not_be_read_does_not_count_as_absent() {
    for (found, outcome) in [
        (Presence::Present, ArtifactOutcome::Removed),
        (Presence::Absent, ArtifactOutcome::NotPresent),
        (
            Presence::Unknown,
            ArtifactOutcome::Failed("secret store error"),
        ),
    ] {
        let deleted = SecretRemoval {
            found,
            deleted: true,
        };
        assert_eq!(remove_secret(deleted), outcome);
        let stuck = SecretRemoval {
            found,
            deleted: false,
        };
        assert_eq!(
            remove_secret(stuck),
            ArtifactOutcome::Failed("secret store error")
        );
    }
}

#[test]
fn the_personal_zone_has_a_key_of_its_own() {
    let dir = r"C:\Users\x\AppData\Local\dns-quorum-filter";
    let name = personal_zone_key_entry(dir);
    assert!(name.starts_with("personal-zone-key:"));
    assert_ne!(name, persistence_key_entry(dir));
    assert!(name.ends_with(&app_data_dir_hash(dir)));
}

#[test]
fn one_artifact_that_stays_does_not_hide_the_others() {
    let removed = SecretRemoval {
        found: Presence::Present,
        deleted: true,
    };
    let stuck = SecretRemoval {
        found: Presence::Present,
        deleted: false,
    };
    let report = remove_all(
        true,
        Some(SecretRemovals {
            tls_key: removed,
            persistence_key: removed,
            maxmind_creds: stuck,
        }),
    );
    assert_eq!(report.cert, ArtifactOutcome::Removed);
    assert_eq!(report.tls_key, ArtifactOutcome::Removed);
    assert_eq!(report.persistence_key, ArtifactOutcome::Removed);
    assert_eq!(
        report.maxmind_creds,
        ArtifactOutcome::Failed("secret store error")
    );
    assert_eq!(
        remove_cert(false),
        ArtifactOutcome::Failed("trust store error")
    );
    assert_eq!(
        remove_all(true, None).tls_key,
        ArtifactOutcome::Failed("no app-data directory")
    );
}
