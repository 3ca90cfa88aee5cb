//! Where the service keeps its files, and the name by which an installation is
//! told from another.
use vstd::prelude::*;
use vstd::string::*;
use crate::{digest, text};

verus! {

/// The name of the service's directory.
pub const APP_DIR_NAME: &'static str = "dns-quorum-filter";

/// Why the directory could not be told.
#[derive(Debug, Clone, Copy, PartialEq, Eq, Structural)]
pub enum PathsError {
    /// The system does not say where local application data belongs.
    LocalAppDataNotSet,
}

impl PathsError {
    /// The error in words.
    pub fn message(self) -> (message: &'static str)
        ensures
            message@ == "%LOCALAPPDATA% environment variable is not set"@,
    {
        match self {
            PathsError::LocalAppDataNotSet => "%LOCALAPPDATA% environment variable is not set",
        }
    }
}

/// A directory: the one that it is in, and its own name.
#[derive(Debug, PartialEq, Eq)]
pub struct AppDataDir {
    /// The directory that it is in.
    pub parent: String,
    /// Its own name.
    pub name: &'static str,
}

/// A file: the directory that it is in, if it is in one, and its own name.
#[derive(Debug)]
pub struct FilePath {
    /// The directory that it is in.
    pub parent: Option<String>,
    /// Its own name.
    pub name: String,
}

impl Clone for FilePath {
    fn clone(&self) -> (copy: Self)
        ensures
            copy == *self,
    {
        FilePath { parent: text::copy_opt(&self.parent), name: self.name.clone() }
    }
}

/// A file of the service's directory.
pub fn file_in(dir: &str, name: &str) -> (path: FilePath)
    ensures
        text::opt_text(path.parent) == Some(dir@),
        path.name@ == name@,
{
    FilePath { parent: Some(dir.to_owned()), name: name.to_owned() }
}

/// The service's directory, given where local application data belongs. There
/// is no other place where that is not known.
pub fn resolve_app_data_dir(local_app_data: Option<String>) -> (r: Result<AppDataDir, PathsError>)
    ensures
        match (local_app_data, r) {
            (Some(parent), Ok(dir)) => dir.parent == parent && dir.name@ == APP_DIR_NAME@,
            (None, Err(e)) => e == PathsError::LocalAppDataNotSet,
            _ => false,
        },
{
    match local_app_data {
        Some(parent) => Ok(AppDataDir { parent, name: APP_DIR_NAME }),
        None => Err(PathsError::LocalAppDataNotSet),
    }
}

/// The lower-case form of a text by the rules of Unicode.
pub uninterp spec fn unicode_lowercase(s: Seq<char>) -> Seq<char>;

/// `str::to_lowercase` of the standard library: the lower-case form of the
/// text.
#[verifier::external_body]
fn lowercase(s: &str) -> (lower: String)
    ensures
        lower@ == unicode_lowercase(s@),
{
    s.to_lowercase()
}

/// The text of a directory that is hashed: without the separators at its end.
pub open spec fn hashed_text(lower: Seq<char>) -> Seq<char> {
    text::trim_end_of(lower, seq!['/', '\\'])
}

/// The first eight bytes of the SHA-1 digest of a directory in its normal
/// spelling, in hexadecimal.
pub open spec fn dir_hash(dir: Seq<char>) -> Seq<char> {
    text::hex_text(
        digest::sha1_digest(vstd::utf8::encode_utf8(hashed_text(unicode_lowercase(dir)))).take(8),
    )
}

/// The suffix of an installation, given its directory in lower case: 16
/// hexadecimal digits.
pub fn hash_of_lowercase(lower: &str) -> (hash: String)
    ensures
        hash@ == text::hex_text(
            digest::sha1_digest(vstd::utf8::encode_utf8(hashed_text(lower@))).take(8),
        ),
        hash@.len() == 16,
{
    let chars = text::chars_of(lower);
    let separators: Vec<char> = vec!['/', '\\'];
    assert(separators@ =~= seq!['/', '\\']);
    let normal = text::string_of(text::trim_end_chars(&chars, &separators));
    digest::sha1_hex_prefix(normal.as_str().as_bytes(), 8)
}

/// The suffix that tells one installation from another: two spellings of a
/// directory that differ only in case, or in separators at the end, share it.
pub fn app_data_dir_hash(app_data_dir: &str) -> (hash: String)
    ensures
        hash@ == dir_hash(app_data_dir@),
        hash@.len() == 16,
{
    hash_of_lowercase(lowercase(app_data_dir).as_str())
}

/// Two spellings of a directory that differ only in case share a suffix.
pub proof fn law_case_does_not_count(dir: Seq<char>, other: Seq<char>)
    requires
        unicode_lowercase(dir) == unicode_lowercase(other),
    ensures
        dir_hash(dir) == dir_hash(other),
{
}

/// Separators at the end of a directory do not change what is hashed.
pub proof fn law_trailing_separators_do_not_count(lower: Seq<char>, separator: char)
    requires
        separator == '/' || separator == '\\',
    ensures
        hashed_text(lower.push(separator)) == hashed_text(lower),
{
    let longer = lower.push(separator);
    assert(longer.drop_last() =~= lower);
    assert(seq!['/', '\\'][0] == '/' && seq!['/', '\\'][1] == '\\');
    assert(seq!['/', '\\'].contains(separator));
}

/// What tells an installation from another: the first eight bytes of the digest of
/// its directory in lower case, in hexadecimal, where the separators at the end of
/// the directory do not count and those within it do.
pub proof fn law_what_tells_installations_apart(
    dir: Seq<char>,
    kept: Seq<char>,
    end: Seq<char>,
)
    requires
        unicode_lowercase(dir) == kept + end,
        forall|i: int| 0 <= i < end.len() ==> (#[trigger] end[i]) == '/' || end[i] == '\\',
        kept.len() > 0 ==> kept.last() != '/' && kept.last() != '\\',
    ensures
        hashed_text(kept + end) == kept,
        dir_hash(dir) == text::hex_text(
            digest::sha1_digest(vstd::utf8::encode_utf8(kept)).take(8),
        ),
{
    let dropped = seq!['/', '\\'];
    assert(dropped[0] == '/' && dropped[1] == '\\');
    assert forall|i: int| 0 <= i < end.len() implies dropped.contains(#[trigger] end[i]) by {
        if end[i] == '/' {
            assert(dropped[0] == end[i]);
        } else {
            assert(dropped[1] == end[i]);
        }
    }
    text::law_only_the_end_is_taken_off(kept, end, dropped);
}

} // verus!
