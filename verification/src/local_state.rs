//! Removing what the service has left on the machine outside its own
//! directory: its certificate and its entries in the credential store.
use vstd::prelude::*;

verus! {

/// What became of one thing.
#[derive(Debug, Clone, Copy, PartialEq, Eq)]
pub enum ArtifactOutcome {
    /// It was there and is gone.
    Removed,
    /// It was found not to be there.
    NotPresent,
    /// It could not be removed, and why.
    Failed(&'static str),
}

/// What became of everything.
#[derive(Debug, Clone, Copy, PartialEq, Eq)]
pub struct UninstallReport {
    /// The certificate.
    pub cert: ArtifactOutcome,
    /// The certificate's private key.
    pub tls_key: ArtifactOutcome,
    /// The key of the files on disk.
    pub persistence_key: ArtifactOutcome,
    /// The MaxMind credentials.
    pub maxmind_creds: ArtifactOutcome,
}

/// What reading an entry said of it.
#[derive(Debug, Clone, Copy, PartialEq, Eq, Structural)]
pub enum Presence {
    /// The entry is there.
    Present,
    /// There is no such entry.
    Absent,
    /// The entry could not be read, so it may be there or not.
    Unknown,
}

/// What the credential store said of one entry.
#[derive(Debug, Clone, Copy, PartialEq, Eq, Structural)]
pub struct SecretRemoval {
    /// What reading the entry said before it was deleted.
    pub found: Presence,
    /// Whether deleting it, or finding it gone, went well.
    pub deleted: bool,
}

/// What the credential store said of the service's entries.
#[derive(Debug, Clone, Copy, PartialEq, Eq, Structural)]
pub struct SecretRemovals {
    /// The certificate's private key.
    pub tls_key: SecretRemoval,
    /// The key of the files on disk.
    pub persistence_key: SecretRemoval,
    /// The MaxMind credentials.
    pub maxmind_creds: SecretRemoval,
}

/// Whether `outcome` is the report of a removal. An entry counts as not present
/// only where the store said so before it was deleted.
pub open spec fn reports(removal: SecretRemoval, outcome: ArtifactOutcome) -> bool {
    if !removal.deleted || removal.found == Presence::Unknown {
        outcome matches ArtifactOutcome::Failed(why) && why@ == "secret store error"@
    } else if removal.found == Presence::Present {
        outcome is Removed
    } else {
        outcome is NotPresent
    }
}

/// Whether `outcome` says that there is no directory to go by.
pub open spec fn no_directory(outcome: ArtifactOutcome) -> bool {
    outcome matches ArtifactOutcome::Failed(why) && why@ == "no app-data directory"@
}

/// What becomes of an entry. Removing it a second time finds it gone, which is
/// no failure. Where the store could not tell whether there was one, it failed.
pub fn remove_secret(removal: SecretRemoval) -> (outcome: ArtifactOutcome)
    ensures
        reports(removal, outcome),
{
    if !removal.deleted {
        return ArtifactOutcome::Failed("secret store error");
    }
    match removal.found {
        Presence::Present => ArtifactOutcome::Removed,
        Presence::Absent => ArtifactOutcome::NotPresent,
        Presence::Unknown => ArtifactOutcome::Failed("secret store error"),
    }
}

/// What becomes of the certificate.
pub fn remove_cert(uninstalled: bool) -> (outcome: ArtifactOutcome)
    ensures
        if uninstalled {
            outcome is Removed
        } else {
            outcome matches ArtifactOutcome::Failed(why) && why@ == "trust store error"@
        },
{
    if uninstalled {
        ArtifactOutcome::Removed
    } else {
        ArtifactOutcome::Failed("trust store error")
    }
}

/// The report on everything. Without a directory there are no entries to tell;
/// each thing is reported for itself, whatever became of the others.
pub fn remove_all(cert_uninstalled: bool, secrets: Option<SecretRemovals>) -> (report:
    UninstallReport)
    ensures
        if cert_uninstalled {
            report.cert is Removed
        } else {
            report.cert matches ArtifactOutcome::Failed(why) && why@ == "trust store error"@
        },
        match secrets {
            None => no_directory(report.tls_key) && no_directory(report.persistence_key)
                && no_directory(report.maxmind_creds),
            Some(s) => reports(s.tls_key, report.tls_key) && reports(
                s.persistence_key,
                report.persistence_key,
            ) && reports(s.maxmind_creds, report.maxmind_creds),
        },
{
    let cert = remove_cert(cert_uninstalled);
    match secrets {
        None => UninstallReport {
            cert,
            tls_key: ArtifactOutcome::Failed("no app-data directory"),
            persistence_key: ArtifactOutcome::Failed("no app-data directory"),
            maxmind_creds: ArtifactOutcome::Failed("no app-data directory"),
        },
        Some(secrets) => UninstallReport {
            cert,
            tls_key: remove_secret(secrets.tls_key),
            persistence_key: remove_secret(secrets.persistence_key),
            maxmind_creds: remove_secret(secrets.maxmind_creds),
        },
    }
}

/// What is reported of a removal: a failure where the store failed or could not
/// tell whether there was an entry, a removal where there was one, and that there
/// was none only where the store said so.
pub proof fn law_what_a_removal_is_reported_as(removal: SecretRemoval, outcome: ArtifactOutcome)
    requires
        reports(removal, outcome),
    ensures
        outcome is Removed <==> removal.deleted && removal.found is Present,
        outcome is NotPresent <==> removal.deleted && removal.found is Absent,
        outcome is Failed <==> !removal.deleted || removal.found is Unknown,
        outcome matches ArtifactOutcome::Failed(why) ==> why@ == "secret store error"@,
{
}

/// Without a directory nothing is removed, and the report says why.
pub proof fn law_what_is_reported_without_a_directory(outcome: ArtifactOutcome)
    ensures
        no_directory(outcome) <==> (outcome matches ArtifactOutcome::Failed(why) && why@
            == "no app-data directory"@),
{
}

} // verus!
