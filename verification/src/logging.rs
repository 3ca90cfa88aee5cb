//! The names and the rotation of the log files.
use vstd::prelude::*;
use vstd::string::*;

verus! {

/// The length past which a log file is moved aside when the process starts.
pub const MAX_LOG_BYTES: u64 = 5_242_880;

/// The name of a role's log file.
pub fn log_file_name(role: &str) -> (name: String)
    ensures
        name@ == role@ + ".log"@,
{
    let mut name = role.to_owned();
    name.append(".log");
    name
}

/// The name that a role's log file is moved aside to.
pub fn old_log_file_name(role: &str) -> (name: String)
    ensures
        name@ == role@ + ".log.old"@,
{
    let mut name = role.to_owned();
    name.append(".log.old");
    name
}

/// Whether a log file is moved aside, given its length. One that is not there
/// is not.
pub fn prepare_log_file(len: Option<u64>) -> (rotate: bool)
    ensures
        rotate == (len is Some && len->0 > MAX_LOG_BYTES),
{
    match len {
        Some(len) => len > MAX_LOG_BYTES,
        None => false,
    }
}

} // verus!
