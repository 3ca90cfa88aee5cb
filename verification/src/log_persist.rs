//! Keeping the query log in its encrypted file.
//!
//! The file is rewritten as a whole from the log, at intervals and when the
//! service stops. Reading it back at the start goes step by step: each step
//! says what is to be looked up next, and is handed what that gave.
use vstd::prelude::*;
use vstd::string::*;
use crate::encrypted_file;
use crate::encrypted_file::{EncryptedFileError, FileKind};
use crate::key_store::{KeyStoreError, PersistenceKey};
use crate::paths::{file_in, FilePath};
use crate::persist_dto;
use crate::persist_dto::PersistedFileV1;
use crate::query_log;
use crate::query_log::QueryLog;
use crate::text;

verus! {

/// Seconds between two rewrites of the file.
pub const FLUSH_INTERVAL_SECONDS: u64 = 60;

/// The file's name.
pub const FILE_NAME: &'static str = "query-log.enc";

/// Why the log could not be written. No variant carries a part of the log.
#[derive(Debug, Clone, Copy, PartialEq, Eq, Structural)]
pub enum PersistError {
    /// It could not be put into its stored form.
    Serialize,
    /// It could not be encrypted.
    Seal(EncryptedFileError),
    /// The file could not be written.
    Write,
}

/// Whether a sealed snapshot, or the reason that there is none, is right for
/// the stored form of what it was made of.
pub open spec fn snapshot_of(
    key: Seq<u8>,
    kind: FileKind,
    plaintext: Option<Vec<u8>>,
    r: Result<Vec<u8>, PersistError>,
) -> bool {
    match (plaintext, r) {
        (None, Err(e)) => e == PersistError::Serialize,
        (Some(p), Ok(sealed)) => encrypted_file::opened(key, kind, sealed@) == Ok::<
            Seq<u8>,
            EncryptedFileError,
        >(p@) && sealed@ == encrypted_file::container(key, kind, sealed@.subrange(6, 30), p@),
        (Some(p), Err(PersistError::Seal(e))) => e == EncryptedFileError::Rng || (e
            == EncryptedFileError::Encrypt && !encrypted_file::encryptable(p@.len())),
        _ => false,
    }
}

/// Seals a stored form for a file of a given kind.
pub fn seal_snapshot(key: &[u8; 32], kind: FileKind, plaintext: Option<Vec<u8>>) -> (r: Result<
    Vec<u8>,
    PersistError,
>)
    requires
        plaintext matches Some(p) ==> p@.len() + encrypted_file::MIN_LEN <= isize::MAX,
    ensures
        snapshot_of(key@, kind, plaintext, r),
{
    match plaintext {
        None => Err(PersistError::Serialize),
        Some(plaintext) => match encrypted_file::seal(key, kind, plaintext.as_slice()) {
            Ok(sealed) => Ok(sealed),
            Err(error) => Err(PersistError::Seal(error)),
        },
    }
}

/// The content of the log's file, given the stored form of the log.
pub fn persist_snapshot(plaintext: Option<Vec<u8>>, key: &[u8; 32]) -> (r: Result<
    Vec<u8>,
    PersistError,
>)
    requires
        plaintext matches Some(p) ==> p@.len() + encrypted_file::MIN_LEN <= isize::MAX,
    ensures
        snapshot_of(key@, FileKind::QueryLog, plaintext, r),
{
    seal_snapshot(key, FileKind::QueryLog, plaintext)
}

/// Why a file could not be read back.
#[derive(Debug, Clone, Copy, PartialEq, Eq, Structural)]
pub enum LoadError {
    /// It could not be read.
    Read,
    /// It could not be decrypted.
    Decrypt(EncryptedFileError),
    /// What it holds is not of the stored form.
    Parse,
}

/// The name that a file is moved aside to, so that what it holds is not
/// overwritten: a key might be found again.
pub fn orphan_path(path: &FilePath, unix_seconds: u64) -> (orphan: FilePath)
    ensures
        orphan.parent == path.parent,
        orphan.name@ == path.name@ + ".orphaned-"@ + text::decimal(unix_seconds as nat),
{
    let mut name = path.name.clone();
    name.append(".orphaned-");
    name.append(text::string_of(&text::decimal_chars(unix_seconds)).as_str());
    FilePath { parent: text::copy_opt(&path.parent), name }
}

/// What became of the file at the start.
#[derive(Debug, Clone, Copy, PartialEq, Eq, Structural)]
pub enum LoadNote {
    /// Keeping the log is switched off.
    Off,
    /// There is no directory to keep it in.
    NoDirectory,
    /// There is no key for it this time.
    NoKey(KeyStoreError),
    /// There was no file.
    Fresh,
    /// There was a file, but its key is gone.
    Orphaned,
    /// There was a file, but it could not be read back.
    NotRestored(LoadError),
    /// This many entries were read back.
    Restored(usize),
}

/// Where the log is written to, and the key for it.
pub struct Flusher {
    /// The file.
    pub path: FilePath,
    /// The key.
    pub key: [u8; 32],
}

/// What the service starts with.
pub struct QueryLogInit {
    /// The log.
    pub log: QueryLog,
    /// Where it is written to, if it is.
    pub flusher: Option<Flusher>,
}

/// What was just learnt.
#[allow(inconsistent_fields)]
pub enum LoadEvent {
    /// The service starts.
    Start {
        /// Its directory.
        app_data: Option<String>,
        /// Whether the log is to be kept.
        persist_query_log: bool,
    },
    /// The key was looked up.
    Key {
        /// The file.
        path: FilePath,
        /// Whether it is there.
        ciphertext_present: bool,
        /// The key.
        key: Result<PersistenceKey, KeyStoreError>,
    },
    /// The file was read.
    Read {
        /// The file.
        path: FilePath,
        /// The key.
        key: [u8; 32],
        /// Its content.
        raw: Option<Vec<u8>>,
    },
    /// What it holds was parsed.
    Parsed {
        /// The file.
        path: FilePath,
        /// The key.
        key: [u8; 32],
        /// The entries, if it is of the stored form.
        file: Option<PersistedFileV1>,
        /// The time, in nanoseconds since the Unix epoch.
        now: i128,
    },
}

/// What is to be done next.
pub enum LoadStep {
    /// Look up the key for this file.
    ObtainKey(FilePath),
    /// Read the file.
    ReadFile {
        /// The file.
        path: FilePath,
        /// The key.
        key: [u8; 32],
    },
    /// Parse this.
    Parse {
        /// The file.
        path: FilePath,
        /// The key.
        key: [u8; 32],
        /// What the file holds.
        plaintext: Vec<u8>,
    },
    /// Start with this. Where `move_aside` holds, the file is moved aside
    /// first.
    Done {
        /// What to start with.
        init: QueryLogInit,
        /// Whether the file is to be moved aside.
        move_aside: bool,
        /// What became of it.
        note: LoadNote,
    },
}

/// Whether a step starts with an empty log that is not kept.
pub open spec fn not_kept(step: LoadStep, why: LoadNote) -> bool {
    step matches LoadStep::Done { init, move_aside, note } && init.log@ == Seq::<
        query_log::LogRecord,
    >::empty() && init.flusher is None && !move_aside && note == why
}

/// Whether a step starts with these entries and keeps the log in this file.
pub open spec fn kept(
    step: LoadStep,
    path: FilePath,
    key: [u8; 32],
    log: Seq<query_log::LogRecord>,
    aside: bool,
    why: LoadNote,
) -> bool {
    step matches LoadStep::Done { init, move_aside, note } && init.log@ == log
        && init.flusher == Some(Flusher { path, key }) && move_aside == aside && note == why
}

fn start_without(note: LoadNote) -> (step: LoadStep)
    ensures
        not_kept(step, note),
        step matches LoadStep::Done { init, .. } && init.log.wf(),
{
    LoadStep::Done {
        init: QueryLogInit { log: QueryLog::default(), flusher: None },
        move_aside: false,
        note,
    }
}

fn start_empty(path: FilePath, key: [u8; 32], move_aside: bool, note: LoadNote) -> (step: LoadStep)
    ensures
        kept(step, path, key, Seq::empty(), move_aside, note),
        step matches LoadStep::Done { init, .. } && init.log.wf(),
{
    LoadStep::Done {
        init: QueryLogInit { log: QueryLog::default(), flusher: Some(Flusher { path, key }) },
        move_aside,
        note,
    }
}

/// Reading the log back. Nothing is looked up where the log is not to be kept.
/// A file that cannot be read back is moved aside and the log starts empty:
/// it can be made anew, so the service starts all the same.
pub fn load_persisted_query_log(event: LoadEvent) -> (step: LoadStep)
    ensures
        step matches LoadStep::Done { init, .. } ==> init.log.wf(),
        match event {
            LoadEvent::Start { app_data, persist_query_log } => if !persist_query_log {
                not_kept(step, LoadNote::Off)
            } else {
                match app_data {
                    None => not_kept(step, LoadNote::NoDirectory),
                    Some(dir) => step matches LoadStep::ObtainKey(path) && text::opt_text(
                        path.parent,
                    ) == Some(dir@) && path.name@ == FILE_NAME@,
                }
            },
            LoadEvent::Key { path, ciphertext_present, key } => match key {
                Err(e) => not_kept(step, LoadNote::NoKey(e)),
                Ok(k) => if k.orphaned_ciphertext {
                    kept(step, path, k.key, Seq::empty(), true, LoadNote::Orphaned)
                } else if ciphertext_present {
                    step == (LoadStep::ReadFile { path, key: k.key })
                } else {
                    kept(step, path, k.key, Seq::empty(), false, LoadNote::Fresh)
                },
            },
            LoadEvent::Read { path, key, raw } => match raw {
                None => kept(
                    step,
                    path,
                    key,
                    Seq::empty(),
                    true,
                    LoadNote::NotRestored(LoadError::Read),
                ),
                Some(bytes) => match encrypted_file::opened(key@, FileKind::QueryLog, bytes@) {
                    Err(e) => kept(
                        step,
                        path,
                        key,
                        Seq::empty(),
                        true,
                        LoadNote::NotRestored(LoadError::Decrypt(e)),
                    ),
                    Ok(content) => step matches LoadStep::Parse { path: p, key: k, plaintext } && p
                        == path && k == key && plaintext@ == content,
                },
            },
            LoadEvent::Parsed { path, key, file, now } => match file {
                None => kept(
                    step,
                    path,
                    key,
                    Seq::empty(),
                    true,
                    LoadNote::NotRestored(LoadError::Parse),
                ),
                Some(f) => kept(
                    step,
                    path,
                    key,
                    query_log::newest(
                        persist_dto::stored_records(f.entries@).map_values(
                            |r: persist_dto::StoredRecord| persist_dto::restored(r),
                        ).filter(query_log::recent(now as int)),
                        query_log::DEFAULT_MAX_ENTRIES as nat,
                    ),
                    false,
                    LoadNote::Restored(f.entries@.len() as usize),
                ),
            },
        },
{
    match event {
        LoadEvent::Start { app_data, persist_query_log } => {
            if !persist_query_log {
                return start_without(LoadNote::Off);
            }
            match app_data {
                None => start_without(LoadNote::NoDirectory),
                Some(dir) => LoadStep::ObtainKey(file_in(dir.as_str(), FILE_NAME)),
            }
        },
        LoadEvent::Key { path, ciphertext_present, key } => match key {
            Err(error) => start_without(LoadNote::NoKey(error)),
            Ok(key) => {
                if key.orphaned_ciphertext {
                    start_empty(path, key.key, true, LoadNote::Orphaned)
                } else if ciphertext_present {
                    LoadStep::ReadFile { path, key: key.key }
                } else {
                    start_empty(path, key.key, false, LoadNote::Fresh)
                }
            },
        },
        LoadEvent::Read { path, key, raw } => match raw {
            None => start_empty(path, key, true, LoadNote::NotRestored(LoadError::Read)),
            Some(raw) => match encrypted_file::open(&key, FileKind::QueryLog, raw.as_slice()) {
                Ok(plaintext) => LoadStep::Parse { path, key, plaintext },
                Err(error) => start_empty(
                    path,
                    key,
                    true,
                    LoadNote::NotRestored(LoadError::Decrypt(error)),
                ),
            },
        },
        LoadEvent::Parsed { path, key, file, now } => match file {
            None => start_empty(path, key, true, LoadNote::NotRestored(LoadError::Parse)),
            Some(file) => {
                let count: usize = file.entries.len();
                let entries = file.into_entries();
                let mut log = QueryLog::default();
                log.restore(entries, now);
                LoadStep::Done {
                    init: QueryLogInit { log, flusher: Some(Flusher { path, key }) },
                    move_aside: false,
                    note: LoadNote::Restored(count),
                }
            },
        },
    }
}

/// What the task that rewrites the file was woken by.
#[derive(Debug, Clone, Copy, PartialEq, Eq, Structural)]
pub enum PersisterEvent {
    /// The interval is over, or a rewrite was asked for.
    Tick,
    /// The stop signal was set, or can no longer be set.
    Shutdown {
        /// Whether nobody is left who could set it.
        sender_gone: bool,
        /// Whether it is set.
        stopping: bool,
    },
}

/// Whether the task is done after an event.
pub open spec fn stops(event: PersisterEvent) -> bool {
    event matches PersisterEvent::Shutdown { sender_gone, stopping } && (sender_gone || stopping)
}

/// What the task does: whether it rewrites the file, and whether it then ends.
/// It never ends without a last rewrite.
pub fn run_query_log_persister(event: PersisterEvent) -> (r: (bool, bool))
    ensures
        r.0 == (event is Tick || stops(event)),
        r.1 == stops(event),
{
    match event {
        PersisterEvent::Tick => (true, false),
        PersisterEvent::Shutdown { sender_gone, stopping } => {
            let stop = sender_gone || stopping;
            (stop, stop)
        },
    }
}

/// A log that was written is read back as it was, where its entries say
/// nothing that the file cannot hold: what is left out is only what the log
/// itself would no longer show.
pub proof fn law_a_written_log_is_read_back(log: Seq<query_log::LogRecord>, now: int)
    requires
        forall|i: int| 0 <= i < log.len() ==> persist_dto::storable(#[trigger] log[i]),
    ensures
        query_log::newest(
            log.map_values(|r: query_log::LogRecord| persist_dto::stored(r)).map_values(
                |r: persist_dto::StoredRecord| persist_dto::restored(r),
            ).filter(query_log::recent(now)),
            query_log::DEFAULT_MAX_ENTRIES as nat,
        ) == query_log::newest(
            log.filter(query_log::recent(now)),
            query_log::DEFAULT_MAX_ENTRIES as nat,
        ),
{
    let back = log.map_values(|r: query_log::LogRecord| persist_dto::stored(r)).map_values(
        |r: persist_dto::StoredRecord| persist_dto::restored(r),
    );
    assert forall|i: int| 0 <= i < log.len() implies back[i] == log[i] by {
        assert(persist_dto::storable(log[i]));
        persist_dto::law_records_come_back(log[i]);
    }
    assert(back =~= log);
}

/// What a sealed snapshot is: a container for that store, under that key, that
/// opens to the stored form. There is none where there is no stored form, or where
/// encrypting failed.
pub proof fn law_what_a_snapshot_is(
    key: Seq<u8>,
    kind: FileKind,
    plaintext: Option<Vec<u8>>,
    r: Result<Vec<u8>, PersistError>,
)
    requires
        snapshot_of(key, kind, plaintext, r),
    ensures
        plaintext is None ==> (r matches Err(e) && e is Serialize),
        r matches Ok(sealed) ==> plaintext is Some && encrypted_file::opened(key, kind, sealed@)
            == Ok::<Seq<u8>, EncryptedFileError>((plaintext->0)@),
        r matches Ok(sealed) ==> sealed@.skip(30) == encrypted_file::aead_sealed(
            key,
            sealed@.subrange(6, 30),
            sealed@.take(6),
            (plaintext->0)@,
        ),
        r matches Err(e) ==> !(e is Write) && (e is Serialize <==> plaintext is None),
        r matches Err(PersistError::Seal(e)) ==> e is Rng || (e is Encrypt
            && !encrypted_file::encryptable((plaintext->0)@.len())),
{
    if let Ok(sealed) = r {
        let nonce = sealed@.subrange(6, 30);
        encrypted_file::law_what_reading_a_container_comes_to(
            key,
            kind,
            sealed@,
            (plaintext->0)@,
        );
        encrypted_file::law_how_a_container_is_laid_out(key, kind, nonce, (plaintext->0)@);
    }
}

/// A start without a file has an empty log that is written nowhere, and moves
/// nothing aside.
pub proof fn law_a_start_without_a_file(step: LoadStep, why: LoadNote)
    ensures
        not_kept(step, why) <==> (step matches LoadStep::Done { init, move_aside, note }
            && init.log@.len() == 0 && init.flusher is None && !move_aside && note == why),
{
    if let LoadStep::Done { init, move_aside, note } = step {
        if init.log@.len() == 0 {
            assert(init.log@ =~= Seq::<query_log::LogRecord>::empty());
        }
    }
}

/// A start with a file has the given entries, writes to that file with that key,
/// and moves what stands there aside only where that is asked for.
pub proof fn law_a_start_with_a_file(
    step: LoadStep,
    path: FilePath,
    key: [u8; 32],
    log: Seq<query_log::LogRecord>,
    aside: bool,
    why: LoadNote,
)
    ensures
        kept(step, path, key, log, aside, why) <==> (step matches LoadStep::Done {
            init,
            move_aside,
            note,
        } && init.log@ == log && (init.flusher matches Some(flusher) && flusher.path == path
            && flusher.key == key) && move_aside == aside && note == why),
{
}

/// The task ends where it is asked to stop or nobody can ask it any more, and at no
/// other time.
pub proof fn law_when_the_task_ends(sender_gone: bool, stopping: bool)
    ensures
        stops(PersisterEvent::Shutdown { sender_gone, stopping }) <==> sender_gone || stopping,
        !stops(PersisterEvent::Tick),
{
}

} // verus!
