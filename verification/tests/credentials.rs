use dnsqb_service::geoip_credentials::{
    load, migrate_legacy_credentials_file, save, CredentialsError, LegacyFile, LicenseKey,
    MaxmindCredentials, MigrationEvent, MigrationOutcome, MigrationStep, StoredCredentials,
    MAX_CREDENTIALS_FILE_SIZE,
};
use dnsqb_service::key_store::SecretRead;

/// One entry of a credential store, held as JSON text, and an old file.
struct Machine {
    entry: Option<String>,
    file: Option<String>,
}

fn member(json: &str, name: &str) -> Option<String> {
    let value: serde_json::Value = serde_json::from_str(json).ok()?;
    Some(value.get(name)?.as_str()?.to_string())
}

fn both(account_id: Option<String>, license_key: Option<String>) -> Option<(String, String)> {
    Some((account_id?, license_key?))
}

impl Machine {
    fn new() -> Self {
        Machine {
            entry: None,
            file: None,
        }
    }

    fn write(&mut self, credentials: &MaxmindCredentials) {
        let mut record = serde_json::Map::new();
        let account = credentials.account_id.clone();
        let key = credentials.license_key.expose_secret().to_string();
        record.insert("account_id".to_string(), serde_json::Value::String(account));
        record.insert("license_key".to_string(), serde_json::Value::String(key));
        self.entry = Some(serde_json::Value::Object(record).to_string());
    }

    fn load(&self) -> Result<Option<MaxmindCredentials>, CredentialsError> {
        let Some(json) = &self.entry else {
            return load(StoredCredentials::Absent);
        };
        match both(member(json, "account_id"), member(json, "license_key")) {
            Some((account_id, license_key)) => load(StoredCredentials::Fields {
                account_id,
                license_key,
            }),
            None => load(StoredCredentials::Unparsable),
        }
    }

    fn save(&mut self, account_id: &str, license_key: &str) -> Result<(), CredentialsError> {
        let credentials = save(account_id, license_key)?;
        self.write(&credentials);
        Ok(())
    }

    fn read_file(&self) -> LegacyFile {
        let Some(content) = &self.file else {
            return LegacyFile::Failed;
        };
        let text = |name: &str| {
            let table = content.parse::<toml::Table>().ok()?;
            Some(table.get(name)?.as_str()?.to_string())
        };
        LegacyFile::Read {
            len: u64::try_from(content.len()).unwrap_or(u64::MAX),
            fields: both(text("account_id"), text("license_key")),
        }
    }

    fn migrate(&mut self) -> Result<MigrationOutcome, CredentialsError> {
        let mut event = MigrationEvent::FileChecked {
            exists: self.file.is_some(),
        };
        loop {
            event = match migrate_legacy_credentials_file(event) {
                MigrationStep::ReadStore => MigrationEvent::StoreRead(match &self.entry {
                    Some(json) => SecretRead::Present(json.clone().into_bytes()),
                    None => SecretRead::Absent,
                }),
                MigrationStep::ReadFile => MigrationEvent::FileRead(self.read_file()),
                MigrationStep::WriteStore(credentials) => {
                    self.write(&credentials);
                    MigrationEvent::StoreWritten { done: true }
                }
                MigrationStep::EraseStaleFile => {
                    self.file = None;
                    MigrationEvent::StaleFileErased { done: true }
                }
                MigrationStep::EraseMovedFile => {
                    self.file = None;
                    MigrationEvent::MovedFileErased { done: true }
                }
                MigrationStep::Done(outcome) => return outcome,
            };
        }
    }
}

fn held(machine: &Machine) -> (String, String) {
    match machine.load() {
        Ok(Some(c)) => (c.account_id, c.license_key.expose_secret().to_string()),
        Ok(None) => panic!("expected credentials, found none"),
        Err(err) => panic!("expected credentials: {}", err.message()),
    }
}

#[test]
fn load_of_an_unconfigured_install_is_ok_none() {
    assert!(matches!(Machine::new().load(), Ok(None)));
}

#[test]
fn save_then_load_roundtrips_both_fields() {
    let mut machine = Machine::new();
    assert!(machine.save("acct-123", "the-license-key").is_ok());
    let (account_id, license_key) = held(&machine);
    assert_eq!(account_id, "acct-123");
    assert_eq!(license_key, "the-license-key");
}

#[test]
fn save_rejects_a_blank_field_and_stores_nothing() {
    let mut machine = Machine::new();
    assert!(matches!(
        machine.save("acct", "   "),
        Err(CredentialsError::Malformed)
    ));
    assert!(
        matches!(machine.load(), Ok(None)),
        "a rejected save must not have stored anything"
    );
}

#[test]
fn a_blank_account_is_refused_too() {
    assert!(matches!(
        save("\t", "key"),
        Err(CredentialsError::Malformed)
    ));
}

#[test]
fn a_corrupt_stored_blob_is_malformed_not_silently_unconfigured() {
    let machine = Machine {
        entry: Some("{not valid json".to_string()),
        file: None,
    };
    assert!(matches!(machine.load(), Err(CredentialsError::Malformed)));
}

#[test]
fn a_stored_record_with_a_blank_part_is_malformed() {
    let stored = StoredCredentials::Fields {
        account_id: " ".to_string(),
        license_key: "key".to_string(),
    };
    assert!(matches!(load(stored), Err(CredentialsError::Malformed)));
}

#[test]
fn a_store_that_fails_is_an_error_of_its_own() {
    assert!(matches!(
        load(StoredCredentials::Unavailable),
        Err(CredentialsError::KeyStore)
    ));
}

#[test]
fn migration_of_no_file_is_nothing_to_migrate() {
    assert!(matches!(
        Machine::new().migrate(),
        Ok(MigrationOutcome::NothingToMigrate)
    ));
}

#[test]
fn migration_moves_a_legacy_file_into_the_store_and_erases_it() {
    let mut machine = Machine::new();
    machine.file =
        Some("account_id = \"123456\"\nlicense_key = \"abcdEFGH_the_key\"\n".to_string());
    assert!(matches!(machine.migrate(), Ok(MigrationOutcome::Migrated)));
    assert!(
        machine.file.is_none(),
        "the legacy file must be gone after migration"
    );
    let (account_id, license_key) = held(&machine);
    assert_eq!(account_id, "123456");
    assert_eq!(license_key, "abcdEFGH_the_key");
}

#[test]
fn migration_erases_a_stale_file_when_the_store_already_has_credentials() {
    let mut machine = Machine::new();
    assert!(machine.save("store-acct", "store-key").is_ok());
    machine.file = Some("account_id = \"file-acct\"\nlicense_key = \"file-key\"\n".to_string());
    assert!(matches!(
        machine.migrate(),
        Ok(MigrationOutcome::StalePlaintextPresent)
    ));
    assert!(machine.file.is_none());
    let (account_id, license_key) = held(&machine);
    assert_eq!(account_id, "store-acct", "the store's copy must win");
    assert_eq!(license_key, "store-key");
}

#[test]
fn migration_rejects_an_oversized_legacy_file_and_leaves_it_in_place() {
    let mut machine = Machine::new();
    machine.file = Some(format!(
        "account_id = \"1\"\nlicense_key = \"k\"\n# {}\n",
        "x".repeat(usize::try_from(MAX_CREDENTIALS_FILE_SIZE).unwrap_or(usize::MAX))
    ));
    assert!(matches!(machine.migrate(), Err(CredentialsError::TooLarge)));
    assert!(
        machine.file.is_some(),
        "an oversized file must be left for the operator to inspect"
    );
}

#[test]
fn migration_rejects_a_blank_field_in_the_legacy_file() {
    let mut machine = Machine::new();
    machine.file = Some("account_id = \"123456\"\nlicense_key = \"   \"\n".to_string());
    assert!(matches!(machine.migrate(), Err(CredentialsError::Malformed)));
    assert!(machine.file.is_some());
    assert!(machine.entry.is_none());
}

#[test]
fn the_file_stays_where_the_store_fails() {
    for event in [
        MigrationEvent::StoreRead(SecretRead::Failed),
        MigrationEvent::StoreWritten { done: false },
    ] {
        assert!(matches!(
            migrate_legacy_credentials_file(event),
            MigrationStep::Done(Err(CredentialsError::KeyStore))
        ));
    }
    for event in [
        MigrationEvent::FileRead(LegacyFile::Failed),
        MigrationEvent::StaleFileErased { done: false },
        MigrationEvent::MovedFileErased { done: false },
    ] {
        assert!(matches!(
            migrate_legacy_credentials_file(event),
            MigrationStep::Done(Err(CredentialsError::Io))
        ));
    }
}

#[test]
fn debug_output_never_contains_the_key_text() {
    let secret = "super-secret-license-key-value";
    let creds = MaxmindCredentials {
        account_id: "acct".to_string(),
        license_key: LicenseKey::new(secret.to_string()),
    };
    let key_text = creds.license_key.log_text();
    let struct_text = creds.log_text();
    assert!(!key_text.contains(secret));
    assert!(!struct_text.contains(secret));
    assert!(!struct_text.contains("license-key-value"));
    assert!(
        struct_text.contains("acct"),
        "the non-secret field is fine to show"
    );
}

#[test]
fn blank_keys_are_told_from_others() {
    assert!(LicenseKey::new(" \n".to_string()).is_blank());
    assert!(!LicenseKey::new(" k ".to_string()).is_blank());
}
