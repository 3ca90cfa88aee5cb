//! The service's entries in the system's credential store.
//!
//! The store itself is the caller's: it reads, writes and deletes entries, and
//! reports what came of it.
use vstd::prelude::*;
use vstd::string::*;
use crate::paths;

verus! {

/// The service name that every entry is stored under.
pub const KEY_STORE_SERVICE: &'static str = "dns-quorum-filter";

/// How much of a file is overwritten before it is removed.
pub const MAX_ZEROED_BYTES: u64 = 65_536;

/// Why a key could not be had.
#[derive(Debug, Clone, Copy, PartialEq, Eq, Structural)]
pub enum KeyStoreError {
    /// The credential store failed.
    Backend,
    /// The system's random number generator failed.
    Rng,
    /// The stored key is not 32 bytes long.
    MalformedKey,
}

impl KeyStoreError {
    /// The error in words.
    pub fn message(self) -> (message: &'static str)
        ensures
            message@ == match self {
                KeyStoreError::Backend => "OS credential store error"@,
                KeyStoreError::Rng =>
                    "the OS random number generator failed while generating the persistence key"@,
                KeyStoreError::MalformedKey =>
                    "the stored persistence key has an unexpected length"@,
            },
    {
        match self {
            KeyStoreError::Backend => "OS credential store error",
            KeyStoreError::Rng =>
                "the OS random number generator failed while generating the persistence key",
            KeyStoreError::MalformedKey => "the stored persistence key has an unexpected length",
        }
    }
}

/// What reading an entry of the store came to.
pub enum SecretRead {
    /// There is no such entry.
    Absent,
    /// The entry's bytes.
    Present(Vec<u8>),
    /// The store failed.
    Failed,
}

/// The name of an entry: what it holds and the installation it belongs to.
pub open spec fn entry(prefix: Seq<char>, dir: Seq<char>) -> Seq<char> {
    prefix + ":"@ + paths::dir_hash(dir)
}

fn entry_name(prefix: &str, app_data_dir: &str) -> (name: String)
    ensures
        name@ == entry(prefix@, app_data_dir@),
{
    let mut name = prefix.to_owned();
    name.append(":");
    name.append(paths::app_data_dir_hash(app_data_dir).as_str());
    name
}

/// The entry of the private key of the service's certificate.
pub fn tls_key_entry(app_data_dir: &str) -> (name: String)
    ensures
        name@ == entry("doh-tls-private-key"@, app_data_dir@),
{
    entry_name("doh-tls-private-key", app_data_dir)
}

/// The entry of the MaxMind credentials.
pub fn maxmind_credentials_entry(app_data_dir: &str) -> (name: String)
    ensures
        name@ == entry("maxmind-credentials"@, app_data_dir@),
{
    entry_name("maxmind-credentials", app_data_dir)
}

/// The entry of the key that the files on disk are encrypted with.
pub fn persistence_key_entry(app_data_dir: &str) -> (name: String)
    ensures
        name@ == entry("persistence-key"@, app_data_dir@),
{
    entry_name("persistence-key", app_data_dir)
}

/// The entry of the key that the personal zone's file is encrypted with.
pub fn personal_zone_key_entry(app_data_dir: &str) -> (name: String)
    ensures
        name@ == entry("personal-zone-key"@, app_data_dir@),
{
    entry_name("personal-zone-key", app_data_dir)
}

/// The entries of one installation are four different ones.
pub proof fn law_entries_are_distinct(dir: Seq<char>)
    ensures
        entry("doh-tls-private-key"@, dir) != entry("maxmind-credentials"@, dir),
        entry("doh-tls-private-key"@, dir) != entry("persistence-key"@, dir),
        entry("maxmind-credentials"@, dir) != entry("persistence-key"@, dir),
        entry("doh-tls-private-key"@, dir) != entry("personal-zone-key"@, dir),
        entry("maxmind-credentials"@, dir) != entry("personal-zone-key"@, dir),
        entry("persistence-key"@, dir) != entry("personal-zone-key"@, dir),
{
    reveal_strlit("doh-tls-private-key");
    reveal_strlit("maxmind-credentials");
    reveal_strlit("persistence-key");
    reveal_strlit("personal-zone-key");
    assert(entry("doh-tls-private-key"@, dir)[0] == 'd');
    assert(entry("maxmind-credentials"@, dir)[0] == 'm');
    assert(entry("persistence-key"@, dir)[0] == 'p');
    assert(entry("persistence-key"@, dir)[4] == 'i');
    assert(entry("personal-zone-key"@, dir)[0] == 'p');
    assert(entry("personal-zone-key"@, dir)[4] == 'o');
}

/// The key that files on disk are encrypted with, and whether files from
/// before it exist that no key opens any more.
pub struct PersistenceKey {
    /// The key.
    pub key: [u8; 32],
    /// Whether there is a file that was encrypted with a key that is gone.
    pub orphaned_ciphertext: bool,
}

impl PersistenceKey {
    /// What a log may say of the key: nothing of its bytes.
    pub fn log_text(&self) -> (line: &'static str)
        ensures
            line@ == if self.orphaned_ciphertext {
                "PersistenceKey { key: \"<redacted 32 bytes>\", orphaned_ciphertext: true }"@
            } else {
                "PersistenceKey { key: \"<redacted 32 bytes>\", orphaned_ciphertext: false }"@
            },
    {
        if self.orphaned_ciphertext {
            "PersistenceKey { key: \"<redacted 32 bytes>\", orphaned_ciphertext: true }"
        } else {
            "PersistenceKey { key: \"<redacted 32 bytes>\", orphaned_ciphertext: false }"
        }
    }
}

/// The key that stored bytes are, if there are 32 of them.
pub fn key_from_secret(bytes: &[u8]) -> (r: Result<[u8; 32], KeyStoreError>)
    ensures
        match r {
            Ok(key) => bytes@.len() == 32 && key@ == bytes@,
            Err(e) => bytes@.len() != 32 && e == KeyStoreError::MalformedKey,
        },
{
    if bytes.len() != 32 {
        return Err(KeyStoreError::MalformedKey);
    }
    let mut key: [u8; 32] = [0u8; 32];
    let mut i: usize = 0;
    while i < 32
        invariant
            i <= 32,
            bytes@.len() == 32,
            forall|j: int| 0 <= j < i ==> key@[j] == bytes@[j],
        decreases 32 - i,
    {
        key[i] = bytes[i];
        i = i + 1;
    }
    assert(key@ =~= bytes@);
    Ok(key)
}

/// What is to be done for the key.
pub enum KeyStep {
    /// The key, or why there is none.
    Done(Result<PersistenceKey, KeyStoreError>),
    /// Nothing was stored yet: this new key is to be stored.
    Store([u8; 32]),
}

/// The key that a draw of random bytes gives: the bytes as they were drawn.
/// Where the generator failed there is no key, whatever the buffer holds.
pub fn drawn_key(filled: bool, bytes: &[u8]) -> (r: Result<[u8; 32], KeyStoreError>)
    ensures
        match r {
            Ok(key) => filled && bytes@.len() == 32 && key@ == bytes@,
            Err(e) => if filled {
                bytes@.len() != 32 && e == KeyStoreError::MalformedKey
            } else {
                e == KeyStoreError::Rng
            },
        },
{
    if filled {
        key_from_secret(bytes)
    } else {
        Err(KeyStoreError::Rng)
    }
}

/// A new key of random bytes: [`drawn_key`] of 32 bytes that `getrandom::fill`
/// filled in. Which bytes these are, and whether the generator fails, is the
/// system's to decide; the one failure is that of the generator.
fn draw_key() -> (r: Result<[u8; 32], KeyStoreError>)
    ensures
        r matches Err(e) ==> e == KeyStoreError::Rng,
{
    let mut bytes: Vec<u8> = vec![0u8; 32];
    let filled = getrandom::fill(bytes.as_mut_slice()).is_ok();
    drawn_key(filled, &bytes)
}

/// Obtains the key, given what the store holds for it: a stored key is used as
/// it is, and only where there is none a new one is drawn. There is no fixed
/// key to fall back to.
pub fn load_or_create_persistence_key(stored: SecretRead) -> (step: KeyStep)
    ensures
        match (stored, step) {
            (SecretRead::Failed, KeyStep::Done(r)) => r == Err::<PersistenceKey, KeyStoreError>(
                KeyStoreError::Backend,
            ),
            (SecretRead::Present(bytes), KeyStep::Done(Ok(key))) => bytes@.len() == 32 && key.key@
                == bytes@ && !key.orphaned_ciphertext,
            (SecretRead::Present(bytes), KeyStep::Done(Err(e))) => bytes@.len() != 32 && e
                == KeyStoreError::MalformedKey,
            (SecretRead::Absent, KeyStep::Done(r)) => r == Err::<PersistenceKey, KeyStoreError>(
                KeyStoreError::Rng,
            ),
            (SecretRead::Absent, KeyStep::Store(_)) => true,
            _ => false,
        },
{
    match stored {
        SecretRead::Failed => KeyStep::Done(Err(KeyStoreError::Backend)),
        SecretRead::Present(bytes) => match key_from_secret(&bytes) {
            Ok(key) => KeyStep::Done(Ok(PersistenceKey { key, orphaned_ciphertext: false })),
            Err(error) => KeyStep::Done(Err(error)),
        },
        SecretRead::Absent => match draw_key() {
            Ok(key) => KeyStep::Store(key),
            Err(error) => KeyStep::Done(Err(error)),
        },
    }
}

/// Finishes the creation of a key, given whether it was stored. A file that is
/// already there was encrypted with a key that is gone.
pub fn key_stored(key: [u8; 32], stored: bool, ciphertext_present: bool) -> (r: Result<
    PersistenceKey,
    KeyStoreError,
>)
    ensures
        match r {
            Ok(created) => stored && created.key == key && created.orphaned_ciphertext
                == ciphertext_present,
            Err(e) => !stored && e == KeyStoreError::Backend,
        },
{
    if stored {
        Ok(PersistenceKey { key, orphaned_ciphertext: ciphertext_present })
    } else {
        Err(KeyStoreError::Backend)
    }
}

/// How many bytes of a file of `len` bytes are overwritten with zeros before
/// it is removed.
pub fn overwrite_len(len: u64) -> (n: u64)
    ensures
        n == if len <= MAX_ZEROED_BYTES {
            len
        } else {
            MAX_ZEROED_BYTES
        },
{
    if len <= MAX_ZEROED_BYTES {
        len
    } else {
        MAX_ZEROED_BYTES
    }
}

/// An entry is named by what it holds, a colon, and the suffix of the installation's
/// directory.
pub proof fn law_how_an_entry_is_named(prefix: Seq<char>, dir: Seq<char>)
    ensures
        entry(prefix, dir).take(prefix.len() as int) == prefix,
        entry(prefix, dir)[prefix.len() as int] == ':',
        entry(prefix, dir).skip(prefix.len() as int + 1) == paths::dir_hash(dir),
{
    reveal_strlit(":");
    assert(entry(prefix, dir).take(prefix.len() as int) =~= prefix);
    assert(entry(prefix, dir).skip(prefix.len() as int + 1) =~= paths::dir_hash(dir));
}

} // verus!
