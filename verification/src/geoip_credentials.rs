//! The credentials for MaxMind's downloads: what is accepted, what is stored,
//! and how an old file of them is moved into the credential store.
use vstd::prelude::*;
use vstd::string::*;
use crate::key_store::SecretRead;
use crate::text;

verus! {

/// The longest file of credentials that is read.
pub const MAX_CREDENTIALS_FILE_SIZE: u64 = 8192;

/// The name of the old file of credentials.
pub const LEGACY_FILE_NAME: &'static str = "geoip_maxmind.toml";

/// A license key. It has no printable form but the redacted one.
#[derive(PartialEq, Eq)]
pub struct LicenseKey(String);

impl View for LicenseKey {
    type V = Seq<char>;

    closed spec fn view(&self) -> Seq<char> {
        self.0@
    }
}

impl Clone for LicenseKey {
    fn clone(&self) -> (copy: Self)
        ensures
            copy == *self,
    {
        LicenseKey(self.0.clone())
    }
}

impl LicenseKey {
    /// A license key.
    pub fn new(key: String) -> (r: Self)
        ensures
            r@ == key@,
    {
        LicenseKey(key)
    }

    /// The key itself, for the request that needs it.
    pub fn expose_secret(&self) -> (key: &str)
        ensures
            key@ == self@,
    {
        self.0.as_str()
    }

    /// Whether the key is nothing but white space.
    pub fn is_blank(&self) -> (blank: bool)
        ensures
            blank == (text::trim(self@).len() == 0),
    {
        text::is_blank(self.0.as_str())
    }

    /// What a log may say of the key: the same for every key.
    pub fn log_text(&self) -> (line: &'static str)
        ensures
            line@ == "LicenseKey(\"<redacted>\")"@,
    {
        "LicenseKey(\"<redacted>\")"
    }
}

/// The credentials of an account.
#[derive(PartialEq, Eq)]
pub struct MaxmindCredentials {
    /// The account.
    pub account_id: String,
    /// Its license key.
    pub license_key: LicenseKey,
}

/// The credentials as texts.
#[verifier::ext_equal]
pub struct Account {
    /// The account.
    pub account_id: Seq<char>,
    /// Its license key.
    pub license_key: Seq<char>,
}

impl View for MaxmindCredentials {
    type V = Account;

    open spec fn view(&self) -> Account {
        Account { account_id: self.account_id@, license_key: self.license_key@ }
    }
}

impl Clone for MaxmindCredentials {
    fn clone(&self) -> (copy: Self)
        ensures
            copy == *self,
    {
        MaxmindCredentials {
            account_id: self.account_id.clone(),
            license_key: self.license_key.clone(),
        }
    }
}

impl MaxmindCredentials {
    /// What a log may say of the credentials: the account, and nothing of the
    /// key.
    pub fn log_text(&self) -> (line: String)
        ensures
            line@ == "MaxmindCredentials { account_id: "@ + self.account_id@ + ", license_key: "@
                + "LicenseKey(\"<redacted>\")"@ + " }"@,
    {
        let mut line = "MaxmindCredentials { account_id: ".to_owned();
        line.append(self.account_id.as_str());
        line.append(", license_key: ");
        line.append(self.license_key.log_text());
        line.append(" }");
        line
    }
}

/// Why there are no credentials.
#[derive(Debug, Clone, Copy, PartialEq, Eq, Structural)]
pub enum CredentialsError {
    /// The old file could not be read or removed.
    Io,
    /// The credentials are not in the expected form, or a part is blank.
    Malformed,
    /// The old file is too long.
    TooLarge,
    /// The credential store failed.
    KeyStore,
}

impl CredentialsError {
    /// The error in words.
    pub fn message(self) -> (message: &'static str)
        ensures
            message@ == match self {
                CredentialsError::Io => "failed to read the legacy MaxMind credentials file"@,
                CredentialsError::Malformed =>
                    "MaxMind credentials are malformed or have a blank field"@,
                CredentialsError::TooLarge =>
                    "the legacy MaxMind credentials file exceeds the 8192-byte size limit"@,
                CredentialsError::KeyStore => "MaxMind credentials secure storage failed"@,
            },
    {
        match self {
            CredentialsError::Io => "failed to read the legacy MaxMind credentials file",
            CredentialsError::Malformed =>
                "MaxMind credentials are malformed or have a blank field",
            CredentialsError::TooLarge =>
                "the legacy MaxMind credentials file exceeds the 8192-byte size limit",
            CredentialsError::KeyStore => "MaxMind credentials secure storage failed",
        }
    }
}

/// What reading the stored credentials came to.
pub enum StoredCredentials {
    /// Nothing is stored.
    Absent,
    /// The credential store failed.
    Unavailable,
    /// What is stored is not a record of credentials.
    Unparsable,
    /// The two fields of the stored record.
    Fields {
        /// The account.
        account_id: String,
        /// Its license key.
        license_key: String,
    },
}

/// Whether both parts of an account are more than white space.
pub open spec fn usable(account_id: Seq<char>, license_key: Seq<char>) -> bool {
    text::trim(account_id).len() > 0 && text::trim(license_key).len() > 0
}

/// The credentials that two fields are, if both are usable.
pub fn checked_fields(account_id: String, license_key: String) -> (r: Result<
    MaxmindCredentials,
    CredentialsError,
>)
    ensures
        match r {
            Ok(c) => usable(account_id@, license_key@) && c.account_id@ == account_id@
                && c.license_key@ == license_key@,
            Err(e) => !usable(account_id@, license_key@) && e == CredentialsError::Malformed,
        },
{
    if text::is_blank(account_id.as_str()) || text::is_blank(license_key.as_str()) {
        Err(CredentialsError::Malformed)
    } else {
        Ok(MaxmindCredentials { account_id, license_key: LicenseKey::new(license_key) })
    }
}

/// The stored credentials. Nothing stored is no error; a stored record that is
/// no use is one, and is not taken for nothing.
pub fn load(stored: StoredCredentials) -> (r: Result<Option<MaxmindCredentials>, CredentialsError>)
    ensures
        match (stored, r) {
            (StoredCredentials::Absent, Ok(None)) => true,
            (StoredCredentials::Unavailable, Err(e)) => e == CredentialsError::KeyStore,
            (StoredCredentials::Unparsable, Err(e)) => e == CredentialsError::Malformed,
            (StoredCredentials::Fields { account_id, license_key }, Ok(Some(c))) => usable(
                account_id@,
                license_key@,
            ) && c.account_id@ == account_id@ && c.license_key@ == license_key@,
            (StoredCredentials::Fields { account_id, license_key }, Err(e)) => !usable(
                account_id@,
                license_key@,
            ) && e == CredentialsError::Malformed,
            _ => false,
        },
{
    match stored {
        StoredCredentials::Absent => Ok(None),
        StoredCredentials::Unavailable => Err(CredentialsError::KeyStore),
        StoredCredentials::Unparsable => Err(CredentialsError::Malformed),
        StoredCredentials::Fields { account_id, license_key } => match checked_fields(
            account_id,
            license_key,
        ) {
            Ok(credentials) => Ok(Some(credentials)),
            Err(error) => Err(error),
        },
    }
}

/// The record that is to be stored for an account. A blank part is refused and
/// nothing is stored.
pub fn save(account_id: &str, license_key: &str) -> (r: Result<
    MaxmindCredentials,
    CredentialsError,
>)
    ensures
        match r {
            Ok(c) => usable(account_id@, license_key@) && c.account_id@ == account_id@
                && c.license_key@ == license_key@,
            Err(e) => !usable(account_id@, license_key@) && e == CredentialsError::Malformed,
        },
{
    checked_fields(account_id.to_owned(), license_key.to_owned())
}

/// What came of moving the old file.
#[derive(Debug, Clone, Copy, PartialEq, Eq, Structural)]
pub enum MigrationOutcome {
    /// There is no old file.
    NothingToMigrate,
    /// The credentials are in the store and the file is gone.
    Migrated,
    /// The store had credentials already; the file is gone.
    StalePlaintextPresent,
}

/// What happened last while the old file is being moved.
pub enum MigrationEvent {
    /// Whether the file exists was found out.
    FileChecked {
        /// Whether it does.
        exists: bool,
    },
    /// The store was asked for credentials.
    StoreRead(SecretRead),
    /// The file was read.
    FileRead(LegacyFile),
    /// The credentials were written to the store.
    StoreWritten {
        /// Whether that went well.
        done: bool,
    },
    /// The file was removed because the store had credentials already.
    StaleFileErased {
        /// Whether that went well.
        done: bool,
    },
    /// The file was removed after its content had been stored.
    MovedFileErased {
        /// Whether that went well.
        done: bool,
    },
}

/// What reading the old file came to.
pub enum LegacyFile {
    /// It could not be read.
    Failed,
    /// It was read, up to one byte past the limit.
    Read {
        /// How many bytes were read.
        len: u64,
        /// The two fields, where the content has them and nothing else.
        fields: Option<(String, String)>,
    },
}

/// What is to be done next while the old file is being moved.
pub enum MigrationStep {
    /// Ask the store for credentials.
    ReadStore,
    /// Read the file.
    ReadFile,
    /// Write these credentials to the store.
    WriteStore(MaxmindCredentials),
    /// Remove the file: the store had credentials already.
    EraseStaleFile,
    /// Remove the file: its content has been stored.
    EraseMovedFile,
    /// Nothing more.
    Done(Result<MigrationOutcome, CredentialsError>),
}

/// Moves an old file of credentials into the credential store, one step at a
/// time. The file is removed only once the store holds credentials.
pub fn migrate_legacy_credentials_file(event: MigrationEvent) -> (step: MigrationStep)
    ensures
        match event {
            MigrationEvent::FileChecked { exists } => if exists {
                step is ReadStore
            } else {
                step matches MigrationStep::Done(r) && r == Ok::<
                    MigrationOutcome,
                    CredentialsError,
                >(MigrationOutcome::NothingToMigrate)
            },
            MigrationEvent::StoreRead(SecretRead::Failed) => step matches MigrationStep::Done(r)
                && r == Err::<MigrationOutcome, CredentialsError>(CredentialsError::KeyStore),
            MigrationEvent::StoreRead(SecretRead::Present(_)) => step is EraseStaleFile,
            MigrationEvent::StoreRead(SecretRead::Absent) => step is ReadFile,
            MigrationEvent::FileRead(LegacyFile::Failed) => step matches MigrationStep::Done(r)
                && r == Err::<MigrationOutcome, CredentialsError>(CredentialsError::Io),
            MigrationEvent::FileRead(LegacyFile::Read { len, fields }) => if len
                > MAX_CREDENTIALS_FILE_SIZE {
                step matches MigrationStep::Done(r) && r == Err::<
                    MigrationOutcome,
                    CredentialsError,
                >(CredentialsError::TooLarge)
            } else if fields is Some && usable((fields->0).0@, (fields->0).1@) {
                step matches MigrationStep::WriteStore(c) && c.account_id@ == (fields->0).0@
                    && c.license_key@ == (fields->0).1@
            } else {
                step matches MigrationStep::Done(r) && r == Err::<
                    MigrationOutcome,
                    CredentialsError,
                >(CredentialsError::Malformed)
            },
            MigrationEvent::StoreWritten { done } => if done {
                step is EraseMovedFile
            } else {
                step matches MigrationStep::Done(r) && r == Err::<
                    MigrationOutcome,
                    CredentialsError,
                >(CredentialsError::KeyStore)
            },
            MigrationEvent::StaleFileErased { done } => step matches MigrationStep::Done(r) && r
                == if done {
                Ok::<MigrationOutcome, CredentialsError>(MigrationOutcome::StalePlaintextPresent)
            } else {
                Err(CredentialsError::Io)
            },
            MigrationEvent::MovedFileErased { done } => step matches MigrationStep::Done(r) && r
                == if done {
                Ok::<MigrationOutcome, CredentialsError>(MigrationOutcome::Migrated)
            } else {
                Err(CredentialsError::Io)
            },
        },
        step is EraseMovedFile ==> event == (MigrationEvent::StoreWritten { done: true }),
        step is EraseStaleFile ==> event matches MigrationEvent::StoreRead(SecretRead::Present(_)),
{
    match event {
        MigrationEvent::FileChecked { exists } => if exists {
            MigrationStep::ReadStore
        } else {
            MigrationStep::Done(Ok(MigrationOutcome::NothingToMigrate))
        },
        MigrationEvent::StoreRead(read) => match read {
            SecretRead::Failed => MigrationStep::Done(Err(CredentialsError::KeyStore)),
            SecretRead::Present(_) => MigrationStep::EraseStaleFile,
            SecretRead::Absent => MigrationStep::ReadFile,
        },
        MigrationEvent::FileRead(file) => match file {
            LegacyFile::Failed => MigrationStep::Done(Err(CredentialsError::Io)),
            LegacyFile::Read { len, fields } => if len > MAX_CREDENTIALS_FILE_SIZE {
                MigrationStep::Done(Err(CredentialsError::TooLarge))
            } else {
                match fields {
                    Some((account_id, license_key)) => match checked_fields(
                        account_id,
                        license_key,
                    ) {
                        Ok(credentials) => MigrationStep::WriteStore(credentials),
                        Err(error) => MigrationStep::Done(Err(error)),
                    },
                    None => MigrationStep::Done(Err(CredentialsError::Malformed)),
                }
            },
        },
        MigrationEvent::StoreWritten { done } => if done {
            MigrationStep::EraseMovedFile
        } else {
            MigrationStep::Done(Err(CredentialsError::KeyStore))
        },
        MigrationEvent::StaleFileErased { done } => MigrationStep::Done(
            if done {
                Ok(MigrationOutcome::StalePlaintextPresent)
            } else {
                Err(CredentialsError::Io)
            },
        ),
        MigrationEvent::MovedFileErased { done } => MigrationStep::Done(
            if done {
                Ok(MigrationOutcome::Migrated)
            } else {
                Err(CredentialsError::Io)
            },
        ),
    }
}

/// Credentials are of use if and only if each of the two parts has a character
/// that is no white space.
pub proof fn law_what_credentials_are_of_use(account_id: Seq<char>, license_key: Seq<char>)
    ensures
        usable(account_id, license_key) <==> (exists|i: int|
            0 <= i < account_id.len() && !text::white_space(#[trigger] account_id[i])) && (exists|
            i: int,
        | 0 <= i < license_key.len() && !text::white_space(#[trigger] license_key[i])),
{
    lemma_blank(account_id);
    lemma_blank(license_key);
}

proof fn lemma_blank(s: Seq<char>)
    ensures
        text::trim(s).len() > 0 <==> exists|i: int|
            0 <= i < s.len() && !text::white_space(#[trigger] s[i]),
{
    if forall|i: int| 0 <= i < s.len() ==> text::white_space(#[trigger] s[i]) {
        text::law_trimming_takes_white_space_alone(s, Seq::empty(), Seq::empty());
        assert(s + Seq::<char>::empty() + Seq::<char>::empty() =~= s);
    } else {
        let first = lemma_first_visible(s);
        let last = lemma_last_visible(s);
        let before = s.take(first);
        let kept = s.subrange(first, last + 1);
        let after = s.skip(last + 1);
        assert forall|i: int| 0 <= i < before.len() implies text::white_space(
            #[trigger] before[i],
        ) by {
            assert(before[i] == s[i]);
        }
        assert forall|i: int| 0 <= i < after.len() implies text::white_space(
            #[trigger] after[i],
        ) by {
            assert(after[i] == s[last + 1 + i]);
        }
        text::law_trimming_takes_white_space_alone(before, kept, after);
        assert(s =~= before + kept + after);
    }
}

proof fn lemma_first_visible(s: Seq<char>) -> (at: int)
    requires
        exists|i: int| 0 <= i < s.len() && !text::white_space(#[trigger] s[i]),
    ensures
        0 <= at < s.len(),
        !text::white_space(s[at]),
        forall|i: int| 0 <= i < at ==> text::white_space(#[trigger] s[i]),
    decreases s.len(),
{
    let k = choose|i: int| 0 <= i < s.len() && !text::white_space(#[trigger] s[i]);
    if !text::white_space(s[0]) {
        0
    } else {
        let rest = s.skip(1);
        assert(!text::white_space(rest[k - 1]));
        let at = lemma_first_visible(rest);
        assert forall|i: int| 0 <= i < at + 1 implies text::white_space(#[trigger] s[i]) by {
            if i > 0 {
                assert(rest[i - 1] == s[i]);
            }
        }
        at + 1
    }
}

proof fn lemma_last_visible(s: Seq<char>) -> (at: int)
    requires
        exists|i: int| 0 <= i < s.len() && !text::white_space(#[trigger] s[i]),
    ensures
        0 <= at < s.len(),
        !text::white_space(s[at]),
        forall|i: int| at < i < s.len() ==> text::white_space(#[trigger] s[i]),
    decreases s.len(),
{
    let k = choose|i: int| 0 <= i < s.len() && !text::white_space(#[trigger] s[i]);
    if !text::white_space(s[s.len() - 1]) {
        s.len() - 1
    } else {
        let rest = s.drop_last();
        assert(!text::white_space(rest[k]));
        let at = lemma_last_visible(rest);
        assert forall|i: int| at < i < s.len() implies text::white_space(#[trigger] s[i]) by {
            if i < rest.len() {
                assert(rest[i] == s[i]);
            }
        }
        at
    }
}

/// Credentials are the account and the key that they hold.
pub proof fn law_credentials_are_what_they_hold(credentials: MaxmindCredentials)
    ensures
        credentials@.account_id == credentials.account_id@,
        credentials@.license_key == credentials.license_key@,
{
}

} // verus!
