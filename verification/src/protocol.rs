//! The crash-safe file lifecycle, as a verified model and as decision
//! rules. Every destructive rewrite is bracketed: back up the primary
//! first, rewrite, then delete the backup on success or rename the backup
//! over the primary on failure, so an interruption always leaves either
//! the original file or a complete new one — never a half-written one.
//! The model mirrors the primary/backup pair; performing the real file
//! operations is a collaborator's job, sequenced by these rules.

use vstd::prelude::*;

verus! {

/// The primary/backup pair on disk: each file either absent or holding
/// some bytes.
pub struct FileState {
    primary: Option<Vec<u8>>,
    backup: Option<Vec<u8>>,
}

pub enum FileError {
    /// The file to copy or rename from is absent.
    Missing,
}

impl FileState {
    pub closed spec fn spec_primary(&self) -> Option<Seq<u8>> {
        match self.primary {
            Some(ref v) => Some(v@),
            None => None,
        }
    }

    pub closed spec fn spec_backup(&self) -> Option<Seq<u8>> {
        match self.backup {
            Some(ref v) => Some(v@),
            None => None,
        }
    }

    /// A fresh pair with the primary holding `data` and no backup.
    pub fn with_primary(data: Vec<u8>) -> (r: Self)
        ensures
            r.spec_primary() == Some(data@),
            r.spec_backup() is None,
    {
        FileState { primary: Some(data), backup: None }
    }

    /// Copies the primary to the backup. Never destroys the primary, even
    /// on failure.
    pub fn make_backup(&mut self) -> (r: Result<(), FileError>)
        ensures
            r is Ok <==> old(self).spec_primary() is Some,
            r is Ok ==> final(self).spec_backup() == old(self).spec_primary(),
            r is Err ==> final(self).spec_backup() == old(self).spec_backup(),
            final(self).spec_primary() == old(self).spec_primary(),
    {
        match self.primary {
            Some(ref data) => {
                let copy = clone_bytes(data);
                self.backup = Some(copy);
                Ok(())
            },
            None => Err(FileError::Missing),
        }
    }

    /// Whether a backup exists.
    pub fn is_backed_up(&self) -> (r: bool)
        ensures
            r == (self.spec_backup() is Some),
    {
        match self.backup {
            Some(_) => true,
            None => false,
        }
    }

    /// Renames the backup over the primary: whatever half-written state
    /// the primary is in, it becomes the backed-up bytes again, and the
    /// backup is gone.
    pub fn recover(&mut self) -> (r: Result<(), FileError>)
        ensures
            r is Ok <==> old(self).spec_backup() is Some,
            r is Ok ==> final(self).spec_primary() == old(self).spec_backup()
                && final(self).spec_backup() is None,
            r is Err ==> *final(self) == *old(self),
    {
        match self.backup.take() {
            Some(data) => {
                self.primary = Some(data);
                Ok(())
            },
            None => Err(FileError::Missing),
        }
    }

    /// Deletes the backup.
    pub fn remove_backup(&mut self) -> (r: Result<(), FileError>)
        ensures
            r is Ok <==> old(self).spec_backup() is Some,
            final(self).spec_backup() is None,
            final(self).spec_primary() == old(self).spec_primary(),
    {
        match self.backup {
            Some(_) => {
                self.backup = None;
                Ok(())
            },
            None => Err(FileError::Missing),
        }
    }

    /// Deletes the primary.
    pub fn remove(&mut self) -> (r: Result<(), FileError>)
        ensures
            r is Ok <==> old(self).spec_primary() is Some,
            final(self).spec_primary() is None,
            final(self).spec_backup() == old(self).spec_backup(),
    {
        match self.primary {
            Some(_) => {
                self.primary = None;
                Ok(())
            },
            None => Err(FileError::Missing),
        }
    }

    /// Replaces the primary's contents wholesale — or, handed a prefix of
    /// the intended bytes, models a rewrite interrupted partway.
    pub fn write_primary(&mut self, data: Vec<u8>)
        ensures
            final(self).spec_primary() == Some(data@),
            final(self).spec_backup() == old(self).spec_backup(),
    {
        self.primary = Some(data);
    }

    /// The primary's bytes, if the file exists.
    pub fn read_primary(&self) -> (r: Option<&Vec<u8>>)
        ensures
            match r {
                Some(v) => self.spec_primary() == Some(v@),
                None => self.spec_primary() is None,
            },
    {
        match self.primary {
            Some(ref v) => Some(v),
            None => None,
        }
    }
}

/// The rewrite protocol restores the original bytes after any
/// interruption: once a backup of the primary is made, whatever garbage a
/// failed rewrite leaves in the primary, recovering yields the original
/// contents byte for byte.
pub proof fn lemma_rewrite_recovers(
    orig: FileState,
    backed: FileState,
    corrupted: FileState,
    recovered: FileState,
)
    requires
        orig.spec_primary() is Some,
        // after make_backup succeeded on orig:
        backed.spec_backup() == orig.spec_primary(),
        // after an interrupted rewrite scribbled over the primary:
        corrupted.spec_backup() == backed.spec_backup(),
        // after recover succeeded on the corrupted state:
        recovered.spec_primary() == corrupted.spec_backup(),
    ensures
        recovered.spec_primary() == orig.spec_primary(),
{
}

/// What to do about a backup found on startup, given whether one exists
/// and the operator's two answers: recover it, or else discard it, or
/// else refuse to proceed while a stale backup is present.
pub enum RecoverAction {
    /// No backup exists: proceed normally.
    Proceed,
    /// Rename the backup over the primary.
    Recover,
    /// Delete the backup and proceed.
    RemoveBackup,
    /// Neither recovered nor discarded: refuse to run.
    Refuse,
}

/// The startup decision on a found backup.
pub fn maybe_recover(backed_up: bool, recover_backup: bool, remove_backup: bool) -> (r:
    RecoverAction)
    ensures
        !backed_up ==> r is Proceed,
        backed_up && recover_backup ==> r is Recover,
        backed_up && !recover_backup && remove_backup ==> r is RemoveBackup,
        backed_up && !recover_backup && !remove_backup ==> r is Refuse,
{
    if !backed_up {
        RecoverAction::Proceed
    } else if recover_backup {
        RecoverAction::Recover
    } else if remove_backup {
        RecoverAction::RemoveBackup
    } else {
        RecoverAction::Refuse
    }
}

/// How a bracketed rewrite ended.
pub enum RewriteOutcome {
    /// The new contents were written in full.
    Succeeded,
    /// This process went on to hold the clipboard: the backup must be
    /// left untouched, since the parent still owns the file.
    Clipped,
    /// The rewrite failed partway.
    Failed,
}

/// What to do with the backup once the rewrite ended.
pub enum BackupAction {
    /// Delete the backup: the new file is complete.
    RemoveBackup,
    /// Leave both files as they stand.
    LeaveAlone,
    /// Rename the backup over the primary: the rewrite must be undone.
    Recover,
}

/// The backup's disposition after a rewrite: deleted on success, left for
/// the parent process after a clipboard hold, restored on failure.
pub fn backup_disposition(outcome: &RewriteOutcome) -> (r: BackupAction)
    ensures
        outcome is Succeeded ==> r is RemoveBackup,
        outcome is Clipped ==> r is LeaveAlone,
        outcome is Failed ==> r is Recover,
{
    match outcome {
        RewriteOutcome::Succeeded => BackupAction::RemoveBackup,
        RewriteOutcome::Clipped => BackupAction::LeaveAlone,
        RewriteOutcome::Failed => BackupAction::Recover,
    }
}

/// An exact copy of a byte buffer.
fn clone_bytes(v: &Vec<u8>) -> (r: Vec<u8>)
    ensures
        r@ == v@,
{
    let n: usize = v.len();
    let mut out: Vec<u8> = Vec::new();
    let mut i: usize = 0;
    while i < n
        invariant
            n == v@.len(),
            i <= n,
            out@ == v@.take(i as int),
        decreases n - i,
    {
        out.push(v[i]);
        proof {
            assert(out@ =~= v@.take(i + 1));
        }
        i = i + 1;
    }
    proof {
        assert(v@.take(n as int) =~= v@);
    }
    out
}

} // verus!
