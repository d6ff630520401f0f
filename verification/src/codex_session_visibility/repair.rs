//! The repair: the decisions that bring session files, the thread table and
//! the workspace roots in line with the target provider, and that undo what
//! was done when a step fails.
//!
//! The repair alternates file and database work with decisions, so it is a
//! machine: each call of `RepairMachine::step` takes what the last action
//! gave (an event) and says what to do next (an action), until `Finish`.
use vstd::prelude::*;

use crate::codex_session_visibility::session_files::SessionScan;
use crate::codex_session_visibility::{
    count_total, encrypted_content_warning, encrypted_warning, ensure_codex_home,
    read_target_provider, target_provider_of, SqliteUpdateResult,
};
use crate::error::{AQBotError, Failure};
use crate::types::CodexSessionVisibilityRepairResult;

verus! {

/// What a repair reports, from the target provider, the scan, the thread
/// table's update, the number of workspace roots updated and the backup's
/// directory (when one was made).
pub fn build_result(
    target_provider: String,
    scan: SessionScan,
    sqlite: SqliteUpdateResult,
    updated_workspace_roots: usize,
    backup_dir: Option<String>,
) -> (r: CodexSessionVisibilityRepairResult)
    requires
        count_total(scan@.encrypted_content_by_provider) <= usize::MAX,
        sqlite.provider_rows + sqlite.user_event_rows + sqlite.cwd_rows <= usize::MAX,
    ensures
        r.target_provider@ == target_provider@,
        r.changed_session_files == scan@.changes.len(),
        r.skipped_locked_session_files == 0,
        r.sqlite_rows_updated == sqlite.provider_rows + sqlite.user_event_rows + sqlite.cwd_rows,
        r.sqlite_provider_rows_updated == sqlite.provider_rows,
        r.sqlite_user_event_rows_updated == sqlite.user_event_rows,
        r.sqlite_cwd_rows_updated == sqlite.cwd_rows,
        r.sqlite_present == sqlite.present,
        r.updated_workspace_roots == updated_workspace_roots,
        r.backup_dir == backup_dir,
        match r.encrypted_content_warning {
            Some(w) => encrypted_warning(scan@.encrypted_content_by_provider, target_provider@)
                == Some(w@),
            None => encrypted_warning(scan@.encrypted_content_by_provider, target_provider@) is None,
        },
{
    let warning = encrypted_content_warning(
        &scan.encrypted_content_by_provider,
        target_provider.as_str(),
    );
    CodexSessionVisibilityRepairResult {
        target_provider,
        changed_session_files: scan.changes.len(),
        skipped_locked_session_files: 0,
        sqlite_rows_updated: sqlite.total_rows(),
        sqlite_provider_rows_updated: sqlite.provider_rows,
        sqlite_user_event_rows_updated: sqlite.user_event_rows,
        sqlite_cwd_rows_updated: sqlite.cwd_rows,
        sqlite_present: sqlite.present,
        updated_workspace_roots,
        backup_dir,
        encrypted_content_warning: warning,
    }
}

/// How the global state is put back after a failed repair.
pub enum GlobalStateRestore {
    /// It was not rewritten: nothing to do.
    Keep,
    /// Copy the backup's copy back.
    FromBackup,
    /// Write back the text it had (remove the file when it had none).
    FromText(Option<String>),
}

/// The way back for the global state: nothing unless it was rewritten; then
/// from the backup when one was made, else from the text read before.
pub open spec fn global_state_restore_of(
    updated: bool,
    backup_dir: Option<String>,
    original: Option<String>,
) -> GlobalStateRestore {
    if !updated {
        GlobalStateRestore::Keep
    } else if backup_dir is Some {
        GlobalStateRestore::FromBackup
    } else {
        GlobalStateRestore::FromText(original)
    }
}

pub fn restore_global_state(updated: bool, backup_dir: &Option<String>, original: &Option<String>) -> (r:
    GlobalStateRestore)
    ensures
        r == global_state_restore_of(updated, *backup_dir, *original),
{
    if !updated {
        GlobalStateRestore::Keep
    } else if backup_dir.is_some() {
        GlobalStateRestore::FromBackup
    } else {
        GlobalStateRestore::FromText(original.clone())
    }
}

/// Where a repair stands.
#[derive(PartialEq, Eq, Structural, Clone, Copy)]
pub enum RepairPhase {
    Start,
    CheckingHome,
    ReadingConfig,
    Scanning,
    CheckingSqlite,
    BackingUp,
    ReadingGlobalState,
    CheckingDatabase,
    OpeningTransaction,
    UpdatingThreads,
    ApplyingChanges,
    SyncingRoots,
    Committing,
    RollingBack,
    Restoring,
    Done,
}

/// What the last action gave.
pub enum RepairEvent {
    Started,
    /// Whether the Codex home exists, and how its path reads.
    HomeChecked { exists: bool, display: String },
    /// The text of `config.toml` (`None` when there is none), or why it
    /// could not be read.
    ConfigRead(Result<Option<String>, AQBotError>),
    /// The scan of the session files.
    Scanned(Result<SessionScan, AQBotError>),
    /// Whether the thread table (when present) takes a write lock.
    SqliteChecked(Result<(), AQBotError>),
    /// The backup's directory, as it reads.
    BackupCreated(Result<String, AQBotError>),
    /// The global state's text (`None` when there is none).
    GlobalStateRead(Result<Option<String>, AQBotError>),
    /// Whether `state_5.sqlite` exists.
    DatabaseChecked { exists: bool },
    /// The database opened and an immediate transaction began.
    TransactionOpened(Result<(), AQBotError>),
    /// What updating the thread table changed.
    ThreadsUpdated(Result<SqliteUpdateResult, AQBotError>),
    /// The changes (positions in the scan's list) that were written, in
    /// order, and whether all went through.
    ChangesApplied { applied: Vec<usize>, outcome: Result<(), AQBotError> },
    /// The number of saved workspace roots that changed.
    RootsSynced(Result<usize, AQBotError>),
    Committed(Result<(), AQBotError>),
    RolledBack,
    Restored,
}

/// What to do next.
pub enum RepairAction {
    CheckHome,
    ReadConfig,
    /// Scan the session files against this provider.
    ScanSessions { target: String },
    /// When `state_5.sqlite` exists: open it, begin an immediate transaction
    /// and roll it back.
    CheckSqliteWritable,
    /// Back up these listed changes' files, the database and the global state.
    CreateBackup { changes: Vec<usize> },
    ReadGlobalState,
    CheckDatabase,
    /// Open `state_5.sqlite` and begin an immediate transaction.
    OpenTransaction,
    /// Update the thread table (the machine's scan and target tell how).
    UpdateThreads,
    /// Write the scan's changes that still apply.
    ApplySessionChanges,
    /// Synchronize the global state with the scan's working directories.
    SyncWorkspaceRoots,
    Commit,
    Rollback,
    /// Put back the first lines of these changes, and the global state.
    Restore { changes: Vec<usize>, global_state: GlobalStateRestore },
    /// The repair is over.
    Finish(Result<CodexSessionVisibilityRepairResult, AQBotError>),
}

/// A repair in progress.
pub struct RepairMachine {
    pub phase: RepairPhase,
    pub create_backup: bool,
    pub target_provider: String,
    pub scan: SessionScan,
    pub backup_dir: Option<String>,
    pub global_state_original: Option<String>,
    pub with_sqlite: bool,
    pub pending_sqlite: SqliteUpdateResult,
    pub applied: Vec<usize>,
    pub global_state_updated: bool,
    pub updated_roots: usize,
    pub error: Option<AQBotError>,
}

/// The event that each phase waits for.
pub open spec fn event_fits(phase: RepairPhase, event: RepairEvent) -> bool {
    match phase {
        RepairPhase::Start => event is Started,
        RepairPhase::CheckingHome => event is HomeChecked,
        RepairPhase::ReadingConfig => event is ConfigRead,
        RepairPhase::Scanning => event is Scanned,
        RepairPhase::CheckingSqlite => event is SqliteChecked,
        RepairPhase::BackingUp => event is BackupCreated,
        RepairPhase::ReadingGlobalState => event is GlobalStateRead,
        RepairPhase::CheckingDatabase => event is DatabaseChecked,
        RepairPhase::OpeningTransaction => event is TransactionOpened,
        RepairPhase::UpdatingThreads => event is ThreadsUpdated,
        RepairPhase::ApplyingChanges => event is ChangesApplied,
        RepairPhase::SyncingRoots => event is RootsSynced,
        RepairPhase::Committing => event is Committed,
        RepairPhase::RollingBack => event is RolledBack,
        RepairPhase::Restoring => event is Restored,
        RepairPhase::Done => false,
    }
}

/// What the machine keeps: counts that add up within `usize` (for the
/// report), and the error being undone while it rolls back or restores.
pub open spec fn machine_wf(m: RepairMachine) -> bool {
    &&& count_total(m.scan@.encrypted_content_by_provider) <= usize::MAX
    &&& m.pending_sqlite.provider_rows + m.pending_sqlite.user_event_rows
        + m.pending_sqlite.cwd_rows <= usize::MAX
    &&& (m.phase == RepairPhase::RollingBack || m.phase == RepairPhase::Restoring) ==> m.error
        is Some
}

/// What an event brings that the report will need to add up.
pub open spec fn event_fits_report(event: RepairEvent) -> bool {
    match event {
        RepairEvent::Scanned(Ok(scan)) => count_total(scan@.encrypted_content_by_provider)
            <= usize::MAX,
        RepairEvent::ThreadsUpdated(Ok(s)) => s.provider_rows + s.user_event_rows + s.cwd_rows
            <= usize::MAX,
        _ => true,
    }
}

/// The changes listed by a scan, by position.
pub open spec fn all_changes(scan: SessionScan) -> Seq<usize> {
    Seq::new(scan@.changes.len(), |i: int| i as usize)
}

/// The machine moved to `phase`, its data unchanged.
pub open spec fn moved(old: RepairMachine, phase: RepairPhase) -> RepairMachine {
    RepairMachine { phase, ..old }
}

/// The report of a finished repair, from the machine's data and the thread
/// table's update.
pub open spec fn reports(res: CodexSessionVisibilityRepairResult, m: RepairMachine, sqlite: SqliteUpdateResult) -> bool {
    &&& res.target_provider@ == m.target_provider@
    &&& res.changed_session_files == m.scan@.changes.len()
    &&& res.skipped_locked_session_files == 0
    &&& res.sqlite_rows_updated == sqlite.provider_rows + sqlite.user_event_rows + sqlite.cwd_rows
    &&& res.sqlite_provider_rows_updated == sqlite.provider_rows
    &&& res.sqlite_user_event_rows_updated == sqlite.user_event_rows
    &&& res.sqlite_cwd_rows_updated == sqlite.cwd_rows
    &&& res.sqlite_present == sqlite.present
    &&& res.updated_workspace_roots == m.updated_roots
    &&& res.backup_dir == m.backup_dir
    &&& match res.encrypted_content_warning {
        Some(w) => encrypted_warning(m.scan@.encrypted_content_by_provider, m.target_provider@)
            == Some(w@),
        None => encrypted_warning(m.scan@.encrypted_content_by_provider, m.target_provider@) is None,
    }
}

/// The repair stops with `error` (before anything was written).
pub open spec fn stopped(new: RepairMachine, action: RepairAction, error: AQBotError) -> bool {
    new.phase == RepairPhase::Done && action == RepairAction::Finish(Err(error))
}

/// After `error` while writing: with the transaction open, roll it back;
/// else restore the written changes (`applied`) and the global state.
pub open spec fn failing(
    old: RepairMachine,
    applied: Vec<usize>,
    error: AQBotError,
    in_transaction: bool,
    new: RepairMachine,
    action: RepairAction,
) -> bool {
    &&& new == RepairMachine {
        phase: if in_transaction {
            RepairPhase::RollingBack
        } else {
            RepairPhase::Restoring
        },
        applied,
        error: Some(error),
        ..old
    }
    &&& in_transaction ==> action is Rollback
    &&& !in_transaction ==> (action matches RepairAction::Restore { changes, global_state }
        && changes@ == applied@ && global_state == global_state_restore_of(
        old.global_state_updated,
        old.backup_dir,
        old.global_state_original,
    ))
}

/// The views of an optional text.
pub open spec fn text_view(t: Option<String>) -> Option<Seq<char>> {
    match t {
        Some(s) => Some(s@),
        None => None,
    }
}

/// One step of the repair: what the machine becomes and does on each event.
pub open spec fn step_taken(old: RepairMachine, event: RepairEvent, new: RepairMachine, action: RepairAction) -> bool {
    match event {
        RepairEvent::Started => new == moved(old, RepairPhase::CheckingHome) && action
            is CheckHome,
        RepairEvent::HomeChecked { exists, display } => if exists {
            new == moved(old, RepairPhase::ReadingConfig) && action is ReadConfig
        } else {
            new.phase == RepairPhase::Done && (action matches RepairAction::Finish(Err(e)) && e@
                == Failure::NotFound("Codex home not found: "@ + display@))
        },
        RepairEvent::ConfigRead(Err(e)) => stopped(new, action, e),
        RepairEvent::ConfigRead(Ok(content)) => match target_provider_of(text_view(content)) {
            Err(f) => new.phase == RepairPhase::Done && (action matches RepairAction::Finish(
                Err(e),
            ) && e@ == f),
            Ok(p) => new.phase == RepairPhase::Scanning && new.target_provider@ == p
                && new.scan == old.scan && new.create_backup == old.create_backup
                && new.backup_dir == old.backup_dir && new.global_state_original
                == old.global_state_original && new.applied == old.applied
                && new.global_state_updated == old.global_state_updated && new.error == old.error
                && new.pending_sqlite == old.pending_sqlite && (action matches RepairAction::ScanSessions { target }
                && target@ == p),
        },
        RepairEvent::Scanned(Err(e)) => stopped(new, action, e),
        RepairEvent::Scanned(Ok(scan)) => new == RepairMachine {
            phase: RepairPhase::CheckingSqlite,
            scan,
            ..old
        } && action is CheckSqliteWritable,
        RepairEvent::SqliteChecked(Err(e)) => stopped(new, action, e),
        RepairEvent::SqliteChecked(Ok(())) => if old.create_backup {
            new == moved(old, RepairPhase::BackingUp) && (action matches RepairAction::CreateBackup {
                changes,
            } && changes@ == all_changes(old.scan))
        } else {
            new == moved(old, RepairPhase::ReadingGlobalState) && action is ReadGlobalState
        },
        RepairEvent::BackupCreated(Err(e)) => stopped(new, action, e),
        RepairEvent::BackupCreated(Ok(dir)) => new == RepairMachine {
            phase: RepairPhase::CheckingDatabase,
            backup_dir: Some(dir),
            global_state_original: None,
            ..old
        } && action is CheckDatabase,
        RepairEvent::GlobalStateRead(Err(e)) => stopped(new, action, e),
        RepairEvent::GlobalStateRead(Ok(text)) => new == RepairMachine {
            phase: RepairPhase::CheckingDatabase,
            global_state_original: text,
            ..old
        } && action is CheckDatabase,
        RepairEvent::DatabaseChecked { exists } => if exists {
            new == RepairMachine {
                phase: RepairPhase::OpeningTransaction,
                with_sqlite: true,
                ..old
            } && action is OpenTransaction
        } else {
            new == RepairMachine {
                phase: RepairPhase::ApplyingChanges,
                with_sqlite: false,
                ..old
            } && action is ApplySessionChanges
        },
        RepairEvent::TransactionOpened(Err(e)) => failing(old, old.applied, e, false, new, action),
        RepairEvent::TransactionOpened(Ok(())) => new == moved(old, RepairPhase::UpdatingThreads)
            && action is UpdateThreads,
        RepairEvent::ThreadsUpdated(Err(e)) => failing(old, old.applied, e, true, new, action),
        RepairEvent::ThreadsUpdated(Ok(stats)) => new == RepairMachine {
            phase: RepairPhase::ApplyingChanges,
            pending_sqlite: stats,
            ..old
        } && action is ApplySessionChanges,
        RepairEvent::ChangesApplied { applied, outcome } => match outcome {
            Err(e) => failing(old, applied, e, old.with_sqlite, new, action),
            Ok(()) => new == RepairMachine {
                phase: RepairPhase::SyncingRoots,
                applied,
                ..old
            } && action is SyncWorkspaceRoots,
        },
        RepairEvent::RootsSynced(Err(e)) => failing(old, old.applied, e, old.with_sqlite, new, action),
        RepairEvent::RootsSynced(Ok(n)) => {
            let synced = RepairMachine { global_state_updated: n > 0, updated_roots: n, ..old };
            if old.with_sqlite {
                new == moved(synced, RepairPhase::Committing) && action is Commit
            } else {
                new.phase == RepairPhase::Done && (action matches RepairAction::Finish(Ok(res))
                    && reports(res, synced, SqliteUpdateResult { present: false, provider_rows: 0, user_event_rows: 0, cwd_rows: 0 }))
            }
        },
        RepairEvent::Committed(Err(e)) => failing(old, old.applied, e, false, new, action),
        RepairEvent::Committed(Ok(())) => new.phase == RepairPhase::Done && (action matches RepairAction::Finish(Ok(res))
            && reports(res, old, old.pending_sqlite)),
        RepairEvent::RolledBack => new == moved(old, RepairPhase::Restoring) && (action matches RepairAction::Restore { changes, global_state }
            && changes@ == old.applied@ && global_state == global_state_restore_of(
            old.global_state_updated,
            old.backup_dir,
            old.global_state_original,
        )),
        RepairEvent::Restored => new.phase == RepairPhase::Done && action == RepairAction::Finish(
            Err(old.error->Some_0),
        ),
    }
}

/// A finished repair reports, as its updated workspace roots, the count
/// that the workspace-roots sync returned, whether or not the database
/// exists: without it the repair finishes on the sync; with it the count is
/// kept until the commit, whose success finishes the repair with it.
pub proof fn lemma_repair_reports_synced_roots(
    synced: RepairMachine,
    n: usize,
    after_sync: RepairMachine,
    sync_action: RepairAction,
    commit: Result<(), AQBotError>,
    done: RepairMachine,
    commit_action: RepairAction,
)
    requires
        step_taken(synced, RepairEvent::RootsSynced(Ok(n)), after_sync, sync_action),
        after_sync.with_sqlite ==> step_taken(after_sync, RepairEvent::Committed(commit), done, commit_action),
    ensures
        !synced.with_sqlite ==> (sync_action matches RepairAction::Finish(Ok(res)) && res.updated_workspace_roots == n),
        synced.with_sqlite ==> (sync_action is Commit && after_sync.updated_roots == n),
        synced.with_sqlite && commit is Ok ==> (commit_action matches RepairAction::Finish(Ok(res))
            && res.updated_workspace_roots == n),
{
}

impl RepairMachine {
    /// A repair that makes a backup first when `create_backup` holds.
    pub fn new(create_backup: bool) -> (r: RepairMachine)
        ensures
            r.phase == RepairPhase::Start,
            r.create_backup == create_backup,
            r.backup_dir is None,
            r.global_state_original is None,
            !r.with_sqlite,
            r.applied@.len() == 0,
            !r.global_state_updated,
            r.error is None,
            machine_wf(r),
    {
        RepairMachine {
            phase: RepairPhase::Start,
            create_backup,
            target_provider: String::new(),
            scan: SessionScan::new(),
            backup_dir: None,
            global_state_original: None,
            with_sqlite: false,
            pending_sqlite: SqliteUpdateResult::absent(),
            applied: Vec::new(),
            global_state_updated: false,
            updated_roots: 0,
            error: None,
        }
    }

    /// The way back after `error`: roll the transaction back first when one
    /// is open, else restore at once.
    fn fail(&mut self, error: AQBotError, in_transaction: bool) -> (r: RepairAction)
        ensures
            final(self).error == Some(error),
            final(self).applied == old(self).applied,
            final(self).global_state_updated == old(self).global_state_updated,
            final(self).scan == old(self).scan,
            final(self).target_provider == old(self).target_provider,
            final(self).backup_dir == old(self).backup_dir,
            final(self).global_state_original == old(self).global_state_original,
            final(self).with_sqlite == old(self).with_sqlite,
            final(self).pending_sqlite == old(self).pending_sqlite,
            final(self).updated_roots == old(self).updated_roots,
            final(self).create_backup == old(self).create_backup,
            in_transaction ==> final(self).phase == RepairPhase::RollingBack && r is Rollback,
            !in_transaction ==> final(self).phase == RepairPhase::Restoring && (r matches RepairAction::Restore { changes, global_state } && changes@ == old(self).applied@
                && global_state == global_state_restore_of(
                old(self).global_state_updated,
                old(self).backup_dir,
                old(self).global_state_original,
            )),
    {
        self.error = Some(error);
        if in_transaction {
            self.phase = RepairPhase::RollingBack;
            RepairAction::Rollback
        } else {
            self.phase = RepairPhase::Restoring;
            self.restore_action()
        }
    }

    fn restore_action(&self) -> (r: RepairAction)
        ensures
            r matches RepairAction::Restore { changes, global_state } && changes@ == self.applied@
                && global_state == global_state_restore_of(
                self.global_state_updated,
                self.backup_dir,
                self.global_state_original,
            ),
    {
        let mut changes: Vec<usize> = Vec::new();
        let mut i: usize = 0;
        while i < self.applied.len()
            invariant
                i <= self.applied@.len(),
                changes@ == self.applied@.take(i as int),
            decreases self.applied@.len() - i,
        {
            changes.push(self.applied[i]);
            assert(self.applied@.take(i + 1) =~= self.applied@.take(i as int).push(
                self.applied@[i as int],
            ));
            i = i + 1;
        }
        assert(self.applied@.take(self.applied@.len() as int) =~= self.applied@);
        let global_state = restore_global_state(
            self.global_state_updated,
            &self.backup_dir,
            &self.global_state_original,
        );
        RepairAction::Restore { changes, global_state }
    }

    fn finish_err(&mut self, error: AQBotError) -> (r: RepairAction)
        ensures
            final(self).phase == RepairPhase::Done,
            r == RepairAction::Finish(Err(error)),
    {
        self.phase = RepairPhase::Done;
        RepairAction::Finish(Err(error))
    }

    fn finish_ok(&mut self, sqlite: SqliteUpdateResult) -> (r: RepairAction)
        requires
            count_total(old(self).scan@.encrypted_content_by_provider) <= usize::MAX,
            sqlite.provider_rows + sqlite.user_event_rows + sqlite.cwd_rows <= usize::MAX,
        ensures
            final(self).phase == RepairPhase::Done,
            r matches RepairAction::Finish(Ok(res)) && res.target_provider@
                == old(self).target_provider@ && res.changed_session_files
                == old(self).scan@.changes.len() && res.skipped_locked_session_files == 0
                && res.sqlite_rows_updated == sqlite.provider_rows + sqlite.user_event_rows
                + sqlite.cwd_rows && res.sqlite_provider_rows_updated == sqlite.provider_rows
                && res.sqlite_user_event_rows_updated == sqlite.user_event_rows
                && res.sqlite_cwd_rows_updated == sqlite.cwd_rows && res.sqlite_present
                == sqlite.present && res.updated_workspace_roots == old(self).updated_roots
                && res.backup_dir == old(self).backup_dir && match res.encrypted_content_warning {
                Some(w) => encrypted_warning(
                    old(self).scan@.encrypted_content_by_provider,
                    old(self).target_provider@,
                ) == Some(w@),
                None => encrypted_warning(
                    old(self).scan@.encrypted_content_by_provider,
                    old(self).target_provider@,
                ) is None,
            },
    {
        let mut scan = SessionScan::new();
        std::mem::swap(&mut scan, &mut self.scan);
        let mut target = String::new();
        std::mem::swap(&mut target, &mut self.target_provider);
        let mut backup_dir: Option<String> = None;
        std::mem::swap(&mut backup_dir, &mut self.backup_dir);
        self.phase = RepairPhase::Done;
        RepairAction::Finish(Ok(build_result(target, scan, sqlite, self.updated_roots, backup_dir)))
    }

    /// Takes the outcome of the last action and gives the next action.
    pub fn step(&mut self, event: RepairEvent) -> (r: RepairAction)
        requires
            event_fits(old(self).phase, event),
            event_fits_report(event),
            machine_wf(*old(self)),
        ensures
            machine_wf(*final(self)) || final(self).phase == RepairPhase::Done,
            step_taken(*old(self), event, *final(self), r),
    {
        match event {
            RepairEvent::Started => {
                self.phase = RepairPhase::CheckingHome;
                RepairAction::CheckHome
            },
            RepairEvent::HomeChecked { exists, display } => {
                match ensure_codex_home(exists, display.as_str()) {
                    Ok(()) => {
                        self.phase = RepairPhase::ReadingConfig;
                        RepairAction::ReadConfig
                    },
                    Err(e) => self.finish_err(e),
                }
            },
            RepairEvent::ConfigRead(read) => {
                match read {
                    Err(e) => self.finish_err(e),
                    Ok(content) => {
                        let provider = match &content {
                            Some(text) => read_target_provider(Some(text.as_str())),
                            None => read_target_provider(None),
                        };
                        match provider {
                            Err(e) => self.finish_err(e),
                            Ok(p) => {
                                self.target_provider = p.clone();
                                self.phase = RepairPhase::Scanning;
                                RepairAction::ScanSessions { target: p }
                            },
                        }
                    },
                }
            },
            RepairEvent::Scanned(scanned) => {
                match scanned {
                    Err(e) => self.finish_err(e),
                    Ok(scan) => {
                        self.scan = scan;
                        self.phase = RepairPhase::CheckingSqlite;
                        RepairAction::CheckSqliteWritable
                    },
                }
            },
            RepairEvent::SqliteChecked(checked) => {
                match checked {
                    Err(e) => self.finish_err(e),
                    Ok(()) => {
                        if self.create_backup {
                            let mut changes: Vec<usize> = Vec::new();
                            let n = self.scan.changes.len();
                            let mut i: usize = 0;
                            while i < n
                                invariant
                                    i <= n,
                                    n == self.scan@.changes.len(),
                                    changes@ == all_changes(self.scan).take(i as int),
                                decreases n - i,
                            {
                                changes.push(i);
                                assert(all_changes(self.scan).take(i + 1) =~= all_changes(
                                    self.scan,
                                ).take(i as int).push(i));
                                i = i + 1;
                            }
                            assert(all_changes(self.scan).take(n as int) =~= all_changes(
                                self.scan,
                            ));
                            self.phase = RepairPhase::BackingUp;
                            RepairAction::CreateBackup { changes }
                        } else {
                            self.phase = RepairPhase::ReadingGlobalState;
                            RepairAction::ReadGlobalState
                        }
                    },
                }
            },
            RepairEvent::BackupCreated(created) => {
                match created {
                    Err(e) => self.finish_err(e),
                    Ok(dir) => {
                        self.backup_dir = Some(dir);
                        self.global_state_original = None;
                        self.phase = RepairPhase::CheckingDatabase;
                        RepairAction::CheckDatabase
                    },
                }
            },
            RepairEvent::GlobalStateRead(read) => {
                match read {
                    Err(e) => self.finish_err(e),
                    Ok(text) => {
                        self.global_state_original = text;
                        self.phase = RepairPhase::CheckingDatabase;
                        RepairAction::CheckDatabase
                    },
                }
            },
            RepairEvent::DatabaseChecked { exists } => {
                self.with_sqlite = exists;
                if exists {
                    self.phase = RepairPhase::OpeningTransaction;
                    RepairAction::OpenTransaction
                } else {
                    self.phase = RepairPhase::ApplyingChanges;
                    RepairAction::ApplySessionChanges
                }
            },
            RepairEvent::TransactionOpened(opened) => {
                match opened {
                    Err(e) => self.fail(e, false),
                    Ok(()) => {
                        self.phase = RepairPhase::UpdatingThreads;
                        RepairAction::UpdateThreads
                    },
                }
            },
            RepairEvent::ThreadsUpdated(updated) => {
                match updated {
                    Err(e) => self.fail(e, true),
                    Ok(stats) => {
                        self.pending_sqlite = stats;
                        self.phase = RepairPhase::ApplyingChanges;
                        RepairAction::ApplySessionChanges
                    },
                }
            },
            RepairEvent::ChangesApplied { applied, outcome } => {
                self.applied = applied;
                match outcome {
                    Err(e) => {
                        let in_tx = self.with_sqlite;
                        self.fail(e, in_tx)
                    },
                    Ok(()) => {
                        self.phase = RepairPhase::SyncingRoots;
                        RepairAction::SyncWorkspaceRoots
                    },
                }
            },
            RepairEvent::RootsSynced(synced) => {
                match synced {
                    Err(e) => {
                        let in_tx = self.with_sqlite;
                        self.fail(e, in_tx)
                    },
                    Ok(n) => {
                        self.global_state_updated = n > 0;
                        self.updated_roots = n;
                        if self.with_sqlite {
                            self.phase = RepairPhase::Committing;
                            RepairAction::Commit
                        } else {
                            self.finish_ok(SqliteUpdateResult::absent())
                        }
                    },
                }
            },
            RepairEvent::Committed(committed) => {
                match committed {
                    Err(e) => self.fail(e, false),
                    Ok(()) => {
                        let stats = SqliteUpdateResult {
                            present: self.pending_sqlite.present,
                            provider_rows: self.pending_sqlite.provider_rows,
                            user_event_rows: self.pending_sqlite.user_event_rows,
                            cwd_rows: self.pending_sqlite.cwd_rows,
                        };
                        self.finish_ok(stats)
                    },
                }
            },
            RepairEvent::RolledBack => {
                self.phase = RepairPhase::Restoring;
                self.restore_action()
            },
            RepairEvent::Restored => {
                let mut error: Option<AQBotError> = None;
                std::mem::swap(&mut error, &mut self.error);
                match error {
                    Some(e) => self.finish_err(e),
                    None => {
                        proof {
                            assert(false);
                        }
                        self.finish_err(AQBotError::Gateway(String::new()))
                    },
                }
            },
        }
    }
}

} // verus!
