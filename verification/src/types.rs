//! The reports that the session-visibility commands give back.
use vstd::prelude::*;

verus! {

/// One line of the status report: how many records of a scope (a session
/// directory, or the thread table) name a provider, and how many need repair.
#[derive(Debug)]
pub struct CodexSessionVisibilityStatusRow {
    pub scope: String,
    pub provider: Option<String>,
    pub count: usize,
    pub mismatched_count: usize,
    pub status: String,
}

pub struct StatusRowModel {
    pub scope: Seq<char>,
    pub provider: Option<Seq<char>>,
    pub count: usize,
    pub mismatched_count: usize,
    pub status: Seq<char>,
}

impl View for CodexSessionVisibilityStatusRow {
    type V = StatusRowModel;

    open spec fn view(&self) -> StatusRowModel {
        StatusRowModel {
            scope: self.scope@,
            provider: match self.provider {
                Some(p) => Some(p@),
                None => None,
            },
            count: self.count,
            mismatched_count: self.mismatched_count,
            status: self.status@,
        }
    }
}

/// The views of a list of rows.
pub open spec fn row_views(rows: Seq<CodexSessionVisibilityStatusRow>) -> Seq<StatusRowModel> {
    Seq::new(rows.len(), |i: int| rows[i]@)
}

/// What the status command reports, without changing anything.
#[derive(Debug)]
pub struct CodexSessionVisibilityStatus {
    pub target_provider: String,
    pub codex_home: String,
    pub total_session_files: usize,
    pub mismatched_session_files: usize,
    pub sqlite_present: bool,
    pub sqlite_rows: usize,
    pub sqlite_mismatched_rows: usize,
    pub sqlite_user_event_rows_needing_repair: usize,
    pub sqlite_cwd_rows_needing_repair: usize,
    pub workspace_roots_needing_update: usize,
    pub status_rows: Vec<CodexSessionVisibilityStatusRow>,
    pub encrypted_content_warning: Option<String>,
}

/// What a repair changed.
#[derive(Debug)]
pub struct CodexSessionVisibilityRepairResult {
    pub target_provider: String,
    pub changed_session_files: usize,
    pub skipped_locked_session_files: usize,
    pub sqlite_rows_updated: usize,
    pub sqlite_provider_rows_updated: usize,
    pub sqlite_user_event_rows_updated: usize,
    pub sqlite_cwd_rows_updated: usize,
    pub sqlite_present: bool,
    pub updated_workspace_roots: usize,
    pub backup_dir: Option<String>,
    pub encrypted_content_warning: Option<String>,
}

} // verus!
