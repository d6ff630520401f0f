//! The backup taken before a repair: where it goes under the Codex home,
//! which files it holds besides the session files, and its `metadata.json`.
use vstd::prelude::*;

use super::{json_error, json_error_message, global_state_backup_file, global_state_file, state_db_file};
use crate::error::{AQBotError, Failure};
use crate::json::{entries_view, json_number, json_pretty, lemma_object_view, number_from_u64, to_json_text_pretty, Json, JsonValue};
use crate::text::texts;

verus! {

/// The directories, under the Codex home, below which each backup gets a
/// directory of its own named by the time it was taken.
pub open spec fn backup_root() -> Seq<Seq<char>> {
    seq!["backups_state"@, "aqbot-session-visibility"@]
}

/// The path, as its components under the Codex home, of the backup taken at
/// the time written `stamp`.
pub fn backup_dir_components(stamp: &str) -> (r: Vec<String>)
    ensures
        texts(r@) == backup_root().push(stamp@),
{
    let r = vec![
        String::from_str("backups_state"),
        String::from_str("aqbot-session-visibility"),
        String::from_str(stamp),
    ];
    assert(texts(r@) =~= backup_root().push(stamp@));
    r
}

/// The files of the Codex home that a backup copies, where they exist,
/// besides the session files that are to change.
pub open spec fn backed_up_state_files() -> Seq<Seq<char>> {
    seq!["state_5.sqlite"@, ".codex-global-state.json"@, ".codex-global-state.json.bak"@]
}

pub fn state_files_to_back_up() -> (r: Vec<String>)
    ensures
        texts(r@) == backed_up_state_files(),
{
    let r = vec![
        String::from_str(state_db_file()),
        String::from_str(global_state_file()),
        String::from_str(global_state_backup_file()),
    ];
    assert(texts(r@) =~= backed_up_state_files());
    r
}

/// The content of a backup's `metadata.json`, as a value: its format
/// version, its namespace, when it was taken and how many session files were
/// to change. The keys stand in ascending order, as `json!` builds them.
pub open spec fn metadata_json(created_at: Seq<char>, changed_files: u64) -> Json {
    Json::Object(
        seq![
            ("changedSessionFiles"@, Json::Number(json_number(changed_files))),
            ("createdAt"@, Json::Str(created_at)),
            ("namespace"@, Json::Str("aqbot-session-visibility"@)),
            ("version"@, Json::Number(json_number(1))),
        ],
    )
}

pub fn backup_metadata(created_at: &str, changed_files: usize) -> (r: JsonValue)
    ensures
        r@ == metadata_json(created_at@, changed_files as u64),
{
    let entries: Vec<(String, JsonValue)> = vec![
        (String::from_str("changedSessionFiles"), JsonValue::Number(number_from_u64(changed_files as u64))),
        (String::from_str("createdAt"), JsonValue::Str(String::from_str(created_at))),
        (String::from_str("namespace"), JsonValue::Str(String::from_str("aqbot-session-visibility"))),
        (String::from_str("version"), JsonValue::Number(number_from_u64(1))),
    ];
    proof {
        lemma_object_view(entries);
        assert(entries_view(entries@) =~= metadata_json(created_at@, changed_files as u64)->Object_0);
    }
    JsonValue::Object(entries)
}

/// The text of `metadata.json`: the metadata written pretty; a failure to
/// write it is an error about Codex's JSON.
pub open spec fn metadata_text(created_at: Seq<char>, changed_files: u64) -> Result<Seq<char>, Failure> {
    match json_pretty(metadata_json(created_at, changed_files)) {
        Ok(text) => Ok(text),
        Err(e) => Err(Failure::Gateway(json_error_message(e))),
    }
}

pub fn backup_metadata_text(created_at: &str, changed_files: usize) -> (r: Result<String, AQBotError>)
    ensures
        match r {
            Ok(text) => metadata_text(created_at@, changed_files as u64) == Ok::<Seq<char>, Failure>(text@),
            Err(e) => metadata_text(created_at@, changed_files as u64) == Err::<Seq<char>, Failure>(e@),
        },
{
    let value = backup_metadata(created_at, changed_files);
    match to_json_text_pretty(&value) {
        Ok(text) => Ok(text),
        Err(e) => Err(json_error(e)),
    }
}

} // verus!
