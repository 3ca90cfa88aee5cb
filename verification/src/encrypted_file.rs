//! Encrypted containers for what the service keeps on disk.
//!
//! A container is a six-byte header in the clear (four bytes of magic, one of
//! kind, one of version), a nonce of 24 bytes and the `XChaCha20Poly1305`
//! ciphertext of the content, with the header as associated data.
use vstd::prelude::*;
use vstd::slice::slice_subrange;
use vstd::string::*;
use chacha20poly1305::aead::{Aead, KeyInit, Payload};
use chacha20poly1305::{Key, XChaCha20Poly1305, XNonce};
use crate::text;

verus! {

/// The format version that this crate writes and reads.
pub const VERSION: u8 = 1;

/// Length of the header in the clear.
pub const HEADER_LEN: usize = 6;

/// Length of the nonce.
pub const NONCE_LEN: usize = 24;

/// Length of the authentication tag that ends every ciphertext.
pub const TAG_LEN: usize = 16;

/// Length of the container of an empty content: the shortest there is.
pub const MIN_LEN: usize = 46;

/// Length of the longest content that the cipher takes: its counter numbers
/// blocks of 64 bytes with 32 bits, and the first and the last number are not
/// for content.
pub const MAX_CONTENT_LEN: u64 = 274_877_906_816;

/// Which store a container holds.
#[derive(Debug, Clone, Copy, PartialEq, Eq, Structural)]
pub enum FileKind {
    /// The query log.
    QueryLog,
    /// The verdict cache.
    Cache,
    /// The personal zone.
    PersonalZone,
}

impl FileKind {
    /// The header byte for this store.
    pub open spec fn spec_tag(self) -> u8 {
        match self {
            FileKind::QueryLog => 1,
            FileKind::Cache => 2,
            FileKind::PersonalZone => 3,
        }
    }

    /// The header byte for this store.
    pub fn tag(self) -> (byte: u8)
        ensures
            byte == self.spec_tag(),
    {
        match self {
            FileKind::QueryLog => 0x01,
            FileKind::Cache => 0x02,
            FileKind::PersonalZone => 0x03,
        }
    }
}

/// Why a container could not be written or read. No variant carries content
/// or key bytes.
#[derive(Debug, Clone, Copy, PartialEq, Eq, Structural)]
pub enum EncryptedFileError {
    /// The system's random number generator failed. The write is given up:
    /// there is no fallback nonce.
    Rng,
    /// The content is too long for the cipher.
    Encrypt,
    /// The container is too short, or its magic or kind is not the expected one.
    Malformed,
    /// The header names a format version that this crate does not read.
    UnsupportedVersion {
        /// The version byte of the header.
        found: u8,
    },
    /// Authentication failed: another key, or altered bytes.
    Decrypt,
}

impl EncryptedFileError {
    /// The error in words.
    pub open spec fn spec_message(self) -> Seq<char> {
        match self {
            EncryptedFileError::Rng =>
                "the OS random number generator failed while producing a nonce"@,
            EncryptedFileError::Encrypt => "plaintext is too large to encrypt"@,
            EncryptedFileError::Malformed =>
                "persisted file is truncated or has an unrecognized header"@,
            EncryptedFileError::UnsupportedVersion { found } => "persisted file format version "@
                + text::decimal(found as nat) + " is not supported (this build reads 1)"@,
            EncryptedFileError::Decrypt =>
                "persisted file failed authentication (wrong key or corrupted data)"@,
        }
    }

    /// The error in words.
    pub fn message(self) -> (message: String)
        ensures
            message@ == self.spec_message(),
    {
        match self {
            EncryptedFileError::Rng =>
                "the OS random number generator failed while producing a nonce".to_owned(),
            EncryptedFileError::Encrypt => "plaintext is too large to encrypt".to_owned(),
            EncryptedFileError::Malformed =>
                "persisted file is truncated or has an unrecognized header".to_owned(),
            EncryptedFileError::UnsupportedVersion { found } => {
                let mut message = "persisted file format version ".to_owned();
                message.append(text::string_of(&text::decimal_chars(found as u64)).as_str());
                message.append(" is not supported (this build reads 1)");
                message
            },
            EncryptedFileError::Decrypt =>
                "persisted file failed authentication (wrong key or corrupted data)".to_owned(),
        }
    }
}

/// The error of `getrandom`.
#[verifier::external_type_specification]
#[verifier::external_body]
pub struct ExRandomError(getrandom::Error);

/// The error of the AEAD traits.
#[verifier::external_type_specification]
#[verifier::external_body]
pub struct ExAeadError(chacha20poly1305::Error);

/// `getrandom::fill`: overwrites the buffer, whose length stays, with bytes of
/// the system's random number generator. Nothing is said of the bytes.
pub assume_specification[ getrandom::fill ](dest: &mut [u8]) -> (r: Result<(), getrandom::Error>)
    ensures
        final(dest)@.len() == old(dest)@.len(),
;

/// What `XChaCha20Poly1305` makes of `msg` under a key, a nonce and associated
/// data: the ciphertext with its tag.
pub uninterp spec fn aead_sealed(
    key: Seq<u8>,
    nonce: Seq<u8>,
    aad: Seq<u8>,
    msg: Seq<u8>,
) -> Seq<u8>;

/// What `XChaCha20Poly1305` gets back out of `ciphertext`, or nothing where it
/// does not authenticate.
pub uninterp spec fn aead_opened(
    key: Seq<u8>,
    nonce: Seq<u8>,
    aad: Seq<u8>,
    ciphertext: Seq<u8>,
) -> Option<Seq<u8>>;

/// Whether the cipher takes a content of `len` bytes.
pub open spec fn encryptable(len: nat) -> bool {
    len <= MAX_CONTENT_LEN
}

/// `XChaCha20Poly1305::encrypt`: succeeds on every message that has no more
/// blocks than the cipher's counter can number; the result is the message's
/// length and a tag long, and decrypting it with the same key, nonce and
/// associated data gives the message back.
#[verifier::external_body]
fn encrypt(key: &[u8; 32], nonce: &[u8], aad: &[u8], msg: &[u8]) -> (r: Result<
    Vec<u8>,
    chacha20poly1305::Error,
>)
    requires
        nonce@.len() == NONCE_LEN,
        msg@.len() + TAG_LEN <= isize::MAX,
        encryptable(msg@.len()),
    ensures
        r is Ok,
        r matches Ok(c) ==> c@ == aead_sealed(key@, nonce@, aad@, msg@),
        r matches Ok(c) ==> c@.len() == msg@.len() + TAG_LEN,
        r matches Ok(c) ==> aead_opened(key@, nonce@, aad@, c@) == Some(msg@),
{
    let cipher = XChaCha20Poly1305::new(&Key::from(*key));
    let nonce = XNonce::try_from(nonce).map_err(|_| chacha20poly1305::Error)?;
    cipher.encrypt(&nonce, Payload { msg, aad })
}

/// `XChaCha20Poly1305::decrypt`: the content, a tag shorter than the
/// ciphertext, or an error where it does not authenticate. Taken only for as
/// many blocks as the cipher's counter can number.
#[verifier::external_body]
fn decrypt(key: &[u8; 32], nonce: &[u8], aad: &[u8], ciphertext: &[u8]) -> (r: Result<
    Vec<u8>,
    chacha20poly1305::Error,
>)
    requires
        nonce@.len() == NONCE_LEN,
        ciphertext@.len() <= MAX_CONTENT_LEN + TAG_LEN,
    ensures
        match r {
            Ok(p) => aead_opened(key@, nonce@, aad@, ciphertext@) == Some(p@) && p@.len() + TAG_LEN
                == ciphertext@.len(),
            Err(_) => aead_opened(key@, nonce@, aad@, ciphertext@) is None,
        },
{
    let cipher = XChaCha20Poly1305::new(&Key::from(*key));
    let nonce = XNonce::try_from(nonce).map_err(|_| chacha20poly1305::Error)?;
    cipher.decrypt(&nonce, Payload { msg: ciphertext, aad })
}

/// The four bytes that every container begins with.
pub open spec fn magic() -> Seq<u8> {
    seq![0x44u8, 0x51u8, 0x46u8, 0x31u8]
}

/// The header of a container of `kind`.
pub open spec fn header(kind: FileKind) -> Seq<u8> {
    magic() + seq![kind.spec_tag(), VERSION]
}

/// The container of `plaintext` under `key` and `nonce`.
pub open spec fn container(
    key: Seq<u8>,
    kind: FileKind,
    nonce: Seq<u8>,
    plaintext: Seq<u8>,
) -> Seq<u8> {
    header(kind) + nonce + aead_sealed(key, nonce, header(kind), plaintext)
}

/// What reading `bytes` as a container of `kind` under `key` comes to.
pub open spec fn opened(key: Seq<u8>, kind: FileKind, bytes: Seq<u8>) -> Result<
    Seq<u8>,
    EncryptedFileError,
> {
    if bytes.len() < MIN_LEN || bytes.take(4) != magic() || bytes[4] != kind.spec_tag() {
        Err(EncryptedFileError::Malformed)
    } else if bytes[5] != VERSION {
        Err(EncryptedFileError::UnsupportedVersion { found: bytes[5] })
    } else if bytes.len() > MIN_LEN + MAX_CONTENT_LEN {
        Err(EncryptedFileError::Decrypt)
    } else {
        match aead_opened(key, bytes.subrange(6, 30), bytes.take(6), bytes.skip(30)) {
            Some(plaintext) => Ok(plaintext),
            None => Err(EncryptedFileError::Decrypt),
        }
    }
}

/// The header of a container of `kind`.
fn header_bytes(kind: FileKind) -> (h: Vec<u8>)
    ensures
        h@ == header(kind),
{
    let h: Vec<u8> = vec![0x44u8, 0x51u8, 0x46u8, 0x31u8, kind.tag(), VERSION];
    assert(h@ =~= header(kind));
    h
}

/// Encrypts `plaintext` into a container of `kind` under a given nonce.
pub fn seal_with_nonce(key: &[u8; 32], kind: FileKind, nonce: &[u8], plaintext: &[u8]) -> (r:
    Result<Vec<u8>, EncryptedFileError>)
    requires
        nonce@.len() == NONCE_LEN,
        plaintext@.len() + MIN_LEN <= isize::MAX,
    ensures
        match r {
            Ok(out) => encryptable(plaintext@.len()) && out@ == container(
                key@,
                kind,
                nonce@,
                plaintext@,
            ) && out@.len() == MIN_LEN + plaintext@.len() && opened(key@, kind, out@) == Ok::<
                Seq<u8>,
                EncryptedFileError,
            >(plaintext@),
            Err(e) => e == EncryptedFileError::Encrypt && !encryptable(plaintext@.len()),
        },
{
    if plaintext.len() as u64 > MAX_CONTENT_LEN {
        return Err(EncryptedFileError::Encrypt);
    }
    let header = header_bytes(kind);
    match encrypt(key, nonce, &header, plaintext) {
        Ok(ciphertext) => {
            let mut out: Vec<u8> = Vec::with_capacity(HEADER_LEN + NONCE_LEN + ciphertext.len());
            out.extend_from_slice(&header);
            out.extend_from_slice(nonce);
            out.extend_from_slice(&ciphertext);
            proof {
                assert(out@ =~= container(key@, kind, nonce@, plaintext@));
                assert(out@.take(4) =~= magic());
                assert(out@.take(6) =~= header@);
                assert(out@.subrange(6, 30) =~= nonce@);
                assert(out@.skip(30) =~= ciphertext@);
            }
            Ok(out)
        },
        Err(_) => Err(EncryptedFileError::Encrypt),
    }
}

/// Encrypts `plaintext` into a container of `kind` under a fresh nonce.
///
/// What was sealed opens again under the same key and kind, whatever the nonce
/// was. Which nonce is drawn, and whether drawing one fails, is up to the
/// system's random number generator.
pub fn seal(key: &[u8; 32], kind: FileKind, plaintext: &[u8]) -> (r: Result<
    Vec<u8>,
    EncryptedFileError,
>)
    requires
        plaintext@.len() + MIN_LEN <= isize::MAX,
    ensures
        match r {
            Ok(out) => {
                &&& encryptable(plaintext@.len())
                &&& out@.len() == MIN_LEN + plaintext@.len()
                &&& out@ == container(key@, kind, out@.subrange(6, 30), plaintext@)
                &&& opened(key@, kind, out@) == Ok::<Seq<u8>, EncryptedFileError>(plaintext@)
            },
            Err(e) => e == EncryptedFileError::Rng || (e == EncryptedFileError::Encrypt
                && !encryptable(plaintext@.len())),
        },
{
    let mut nonce: Vec<u8> = vec![0u8; NONCE_LEN];
    match getrandom::fill(nonce.as_mut_slice()) {
        Ok(()) => {},
        Err(_) => {
            return Err(EncryptedFileError::Rng);
        },
    }
    let sealed = seal_with_nonce(key, kind, &nonce, plaintext);
    proof {
        if sealed is Ok {
            assert(sealed->Ok_0@.subrange(6, 30) =~= nonce@);
        }
    }
    sealed
}

/// Reads a container of `expected_kind`: checks its length, magic and kind,
/// then its version, then decrypts it.
pub fn open(key: &[u8; 32], expected_kind: FileKind, bytes: &[u8]) -> (r: Result<
    Vec<u8>,
    EncryptedFileError,
>)
    ensures
        match r {
            Ok(plaintext) => opened(key@, expected_kind, bytes@) == Ok::<
                Seq<u8>,
                EncryptedFileError,
            >(plaintext@) && plaintext@.len() + MIN_LEN == bytes@.len(),
            Err(e) => opened(key@, expected_kind, bytes@) == Err::<Seq<u8>, EncryptedFileError>(e),
        },
{
    if bytes.len() < MIN_LEN {
        return Err(EncryptedFileError::Malformed);
    }
    let header = slice_subrange(bytes, 0, HEADER_LEN);
    assert(header@ =~= bytes@.take(6));
    if header[0] != 0x44 || header[1] != 0x51 || header[2] != 0x46 || header[3] != 0x31 || header[4]
        != expected_kind.tag() {
        proof {
            if bytes@.take(4) == magic() {
                assert(bytes@.take(4)[0] == 0x44);
                assert(bytes@.take(4)[1] == 0x51);
                assert(bytes@.take(4)[2] == 0x46);
                assert(bytes@.take(4)[3] == 0x31);
            }
        }
        return Err(EncryptedFileError::Malformed);
    }
    assert(bytes@.take(4) =~= magic());
    if header[5] != VERSION {
        return Err(EncryptedFileError::UnsupportedVersion { found: header[5] });
    }
    if (bytes.len() - MIN_LEN) as u64 > MAX_CONTENT_LEN {
        return Err(EncryptedFileError::Decrypt);
    }
    let nonce = slice_subrange(bytes, HEADER_LEN, HEADER_LEN + NONCE_LEN);
    let ciphertext = slice_subrange(bytes, HEADER_LEN + NONCE_LEN, bytes.len());
    assert(ciphertext@ =~= bytes@.skip(30));
    match decrypt(key, nonce, header, ciphertext) {
        Ok(plaintext) => Ok(plaintext),
        Err(_) => Err(EncryptedFileError::Decrypt),
    }
}

/// A container sealed for one store is malformed as another's, whatever the
/// keys.
pub proof fn law_kinds_do_not_mix(
    key: Seq<u8>,
    other_key: Seq<u8>,
    kind: FileKind,
    other: FileKind,
    nonce: Seq<u8>,
    plaintext: Seq<u8>,
)
    requires
        kind != other,
        nonce.len() == NONCE_LEN,
    ensures
        opened(other_key, other, container(key, kind, nonce, plaintext)) == Err::<
            Seq<u8>,
            EncryptedFileError,
        >(EncryptedFileError::Malformed),
{
    let bytes = container(key, kind, nonce, plaintext);
    assert(bytes[4] == kind.spec_tag());
}

/// Rewriting the version byte of a container to another version is reported as
/// that version, never as altered content, and never opens.
pub proof fn law_other_versions_are_named(key: Seq<u8>, kind: FileKind, bytes: Seq<u8>, found: u8)
    requires
        bytes.len() >= MIN_LEN,
        header(kind).is_prefix_of(bytes),
        found != VERSION,
    ensures
        opened(key, kind, bytes.update(5, found)) == Err::<Seq<u8>, EncryptedFileError>(
            EncryptedFileError::UnsupportedVersion { found },
        ),
{
    let changed = bytes.update(5, found);
    assert(bytes.take(6) =~= header(kind));
    assert(changed[4] == bytes.take(6)[4]);
    assert(changed.take(4) =~= bytes.take(6).take(4));
    assert(header(kind).take(4) =~= magic());
}

/// How a container is laid out: `DQF1`, a byte for the store, the version 1, the
/// nonce, and the ciphertext under that key and that nonce, bound to the six bytes
/// before them.
pub proof fn law_how_a_container_is_laid_out(
    key: Seq<u8>,
    kind: FileKind,
    nonce: Seq<u8>,
    plaintext: Seq<u8>,
)
    requires
        nonce.len() == 24,
    ensures
        ({
            let bytes = container(key, kind, nonce, plaintext);
            &&& bytes[0] == 0x44 && bytes[1] == 0x51 && bytes[2] == 0x46 && bytes[3] == 0x31
            &&& bytes[4] == 1 <==> kind == FileKind::QueryLog
            &&& bytes[4] == 2 <==> kind == FileKind::Cache
            &&& bytes[4] == 3 <==> kind == FileKind::PersonalZone
            &&& bytes[5] == 1
            &&& bytes.subrange(6, 30) == nonce
            &&& bytes.skip(30) == aead_sealed(key, nonce, bytes.take(6), plaintext)
        }),
{
    let bytes = container(key, kind, nonce, plaintext);
    assert(bytes.take(6) =~= header(kind));
    assert(bytes.subrange(6, 30) =~= nonce);
    assert(bytes.skip(30) =~= aead_sealed(key, nonce, header(kind), plaintext));
}

/// What reading a container comes to. It gives a content if and only if it is long
/// enough, begins as a container of that store and of version 1 does, and its
/// ciphertext authenticates under the key, its own nonce and its own first six
/// bytes. Another length, start or store is malformed, before the version is
/// looked at; another version is named, before anything is decrypted.
pub proof fn law_what_reading_a_container_comes_to(
    key: Seq<u8>,
    kind: FileKind,
    bytes: Seq<u8>,
    plaintext: Seq<u8>,
)
    ensures
        ({
            let begins = bytes.len() >= 46 && bytes[0] == 0x44 && bytes[1] == 0x51 && bytes[2]
                == 0x46 && bytes[3] == 0x31 && (kind == FileKind::QueryLog ==> bytes[4] == 1) && (
            kind == FileKind::Cache ==> bytes[4] == 2) && (kind == FileKind::PersonalZone
                ==> bytes[4] == 3);
            let fits = bytes.len() <= 46 + 274_877_906_816;
            &&& opened(key, kind, bytes) == Ok::<Seq<u8>, EncryptedFileError>(plaintext) <==> begins
                && fits && bytes[5] == 1 && aead_opened(
                key,
                bytes.subrange(6, 30),
                bytes.take(6),
                bytes.skip(30),
            ) == Some(plaintext)
            &&& opened(key, kind, bytes) == Err::<Seq<u8>, EncryptedFileError>(
                EncryptedFileError::Malformed,
            ) <==> !begins
            &&& begins && bytes[5] != 1 ==> opened(key, kind, bytes) == Err::<
                Seq<u8>,
                EncryptedFileError,
            >(EncryptedFileError::UnsupportedVersion { found: bytes[5] })
            &&& opened(key, kind, bytes) == Err::<Seq<u8>, EncryptedFileError>(
                EncryptedFileError::Decrypt,
            ) <==> begins && bytes[5] == 1 && (!fits || aead_opened(
                key,
                bytes.subrange(6, 30),
                bytes.take(6),
                bytes.skip(30),
            ) is None)
        }),
{
    if bytes.len() >= 46 {
        let start = bytes.take(4);
        assert(start[0] == bytes[0] && start[1] == bytes[1] && start[2] == bytes[2] && start[3]
            == bytes[3]);
        if start[0] == 0x44 && start[1] == 0x51 && start[2] == 0x46 && start[3] == 0x31 {
            assert(start =~= magic());
        }
    }
}

/// The cipher takes as many bytes as 32 bits can number blocks of 64, without the
/// first and the last of these numbers.
pub proof fn law_how_much_can_be_encrypted(len: nat)
    ensures
        encryptable(len) <==> len <= (0x1_0000_0000 - 2) * 64,
{
}

/// The words for an error name the version that was found where that is what is
/// wrong, and quote nothing else.
pub proof fn law_errors_in_words(error: EncryptedFileError)
    ensures
        error is Rng ==> error.spec_message()
            == "the OS random number generator failed while producing a nonce"@,
        error is Encrypt ==> error.spec_message() == "plaintext is too large to encrypt"@,
        error is Malformed ==> error.spec_message()
            == "persisted file is truncated or has an unrecognized header"@,
        error is Decrypt ==> error.spec_message()
            == "persisted file failed authentication (wrong key or corrupted data)"@,
        error matches EncryptedFileError::UnsupportedVersion { found } ==> error.spec_message()
            == "persisted file format version "@ + text::decimal(found as nat)
            + " is not supported (this build reads 1)"@,
{
}

/// Each store has a byte of its own.
pub proof fn law_stores_have_bytes_of_their_own(kind: FileKind)
    ensures
        kind.spec_tag() == 1 <==> kind == FileKind::QueryLog,
        kind.spec_tag() == 2 <==> kind == FileKind::Cache,
        kind.spec_tag() == 3 <==> kind == FileKind::PersonalZone,
{
}

} // verus!
