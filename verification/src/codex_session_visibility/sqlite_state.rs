//! The thread table of `state_5.sqlite`: the statements that read and update
//! it, and what their results mean.
use vstd::prelude::*;

use crate::codex_session_visibility::count_total;
use crate::error::{AQBotError, Failure};
use crate::codex_session_visibility::session_files::SessionScan;
use crate::strmap::{keyed, kv_insert, kv_lookup, lemma_kv_lookup_absent, lemma_kv_lookup_push, map_put};
use crate::text::{blank, chars_of, is_blank, replace_char, replace_chars, string_of, texts};

verus! {

/// `value` as an SQL identifier: in double quotes, with each double quote
/// doubled.
pub open spec fn quoted_identifier(value: Seq<char>) -> Seq<char> {
    "\""@ + replace_char(value, '"', "\"\""@) + "\""@
}

pub fn quote_sql_identifier(value: &str) -> (r: String)
    ensures
        r@ == quoted_identifier(value@),
{
    let v = chars_of(value);
    let doubled = chars_of("\"\"");
    let inner = string_of(&replace_chars(&v, '"', &doubled));
    String::from_str("\"").concat(inner.as_str()).concat("\"")
}

/// The message of a failed SQLite call: what was being done, and SQLite's own
/// message for the connection (`unknown SQLite error` without a connection).
pub open spec fn sqlite_message(action: Seq<char>, message: Option<Seq<char>>) -> Seq<char> {
    "Failed to "@ + action + ": "@ + match message {
        Some(m) => m,
        None => "unknown SQLite error"@,
    }
}

pub fn sqlite_failure(action: &str, connection_message: Option<&str>) -> (e: AQBotError)
    ensures
        e@ == Failure::Gateway(
            sqlite_message(
                action@,
                match connection_message {
                    Some(m) => Some(m@),
                    None => None,
                },
            ),
        ),
{
    let detail = match connection_message {
        Some(m) => m,
        None => "unknown SQLite error",
    };
    AQBotError::Gateway(String::from_str("Failed to ").concat(action).concat(": ").concat(detail))
}

/// The message of a failed `sqlite3_exec`: the message it handed back, or
/// else that of the connection for `execute`; prefixed with the database's
/// name.
pub open spec fn exec_message(exec_error: Option<Seq<char>>, connection_message: Option<Seq<char>>) -> Seq<char> {
    "state_5.sqlite: "@ + match exec_error {
        Some(m) => m,
        None => sqlite_message("execute"@, connection_message),
    }
}

pub fn sqlite_exec_failure(exec_error: Option<&str>, connection_message: Option<&str>) -> (e:
    AQBotError)
    ensures
        e@ == Failure::Gateway(
            exec_message(
                match exec_error {
                    Some(m) => Some(m@),
                    None => None,
                },
                match connection_message {
                    Some(m) => Some(m@),
                    None => None,
                },
            ),
        ),
{
    let detail = match exec_error {
        Some(m) => String::from_str(m),
        None => match sqlite_failure("execute", connection_message) {
            AQBotError::Gateway(m) => m,
            AQBotError::Io(m) => m,
            AQBotError::NotFound(m) => m,
        },
    };
    AQBotError::Gateway(String::from_str("state_5.sqlite: ").concat(detail.as_str()))
}

/// The statement that lists the columns of the thread table.
pub fn threads_columns_sql() -> (r: String)
    ensures
        r@ == "PRAGMA table_info("@ + quoted_identifier("threads"@) + ")"@,
{
    String::from_str("PRAGMA table_info(").concat(quote_sql_identifier("threads").as_str()).concat(
        ")",
    )
}

/// Sets the provider of every thread whose provider differs; its two
/// parameters are the target provider.
pub fn provider_update_sql() -> (r: &'static str)
    ensures
        r@ == "UPDATE threads SET model_provider = ? WHERE COALESCE(model_provider, '') <> ?"@,
{
    "UPDATE threads SET model_provider = ? WHERE COALESCE(model_provider, '') <> ?"
}

/// Marks a thread (the parameter) as having a user event.
pub fn user_event_update_sql() -> (r: &'static str)
    ensures
        r@
            == "UPDATE threads SET has_user_event = 1 WHERE id = ? AND COALESCE(has_user_event, 0) <> 1"@,
{
    "UPDATE threads SET has_user_event = 1 WHERE id = ? AND COALESCE(has_user_event, 0) <> 1"
}

/// Sets a thread's working directory; the parameters are the directory, the
/// thread id and the directory.
pub fn cwd_update_sql() -> (r: &'static str)
    ensures
        r@ == "UPDATE threads SET cwd = ? WHERE id = ? AND COALESCE(cwd, '') <> ?"@,
{
    "UPDATE threads SET cwd = ? WHERE id = ? AND COALESCE(cwd, '') <> ?"
}

/// Counts the threads per provider.
pub fn provider_counts_sql() -> (r: &'static str)
    ensures
        r@ == "SELECT COALESCE(model_provider, '') AS provider, COUNT(*) FROM threads GROUP BY COALESCE(model_provider, '')"@,
{
    "SELECT COALESCE(model_provider, '') AS provider, COUNT(*) FROM threads GROUP BY COALESCE(model_provider, '')"
}

/// Counts whether a thread (the parameter) still lacks its user-event flag.
pub fn user_event_count_sql() -> (r: &'static str)
    ensures
        r@
            == "SELECT COUNT(*) FROM threads WHERE id = ? AND COALESCE(has_user_event, 0) <> 1"@,
{
    "SELECT COUNT(*) FROM threads WHERE id = ? AND COALESCE(has_user_event, 0) <> 1"
}

/// Counts whether a thread (the first parameter) has another working
/// directory than the second parameter.
pub fn cwd_count_sql() -> (r: &'static str)
    ensures
        r@ == "SELECT COUNT(*) FROM threads WHERE id = ? AND COALESCE(cwd, '') <> ?"@,
{
    "SELECT COUNT(*) FROM threads WHERE id = ? AND COALESCE(cwd, '') <> ?"
}

/// Whether the table has a column of that name.
pub fn has_column(columns: &Vec<String>, name: &str) -> (r: bool)
    ensures
        r == texts(columns@).contains(name@),
{
    let n = String::from_str(name);
    let mut i: usize = 0;
    while i < columns.len()
        invariant
            i <= columns@.len(),
            n@ == name@,
            forall|j: int| 0 <= j < i ==> columns@[j]@ != name@,
        decreases columns@.len() - i,
    {
        if columns[i] == n {
            assert(texts(columns@)[i as int] == name@);
            return true;
        }
        i = i + 1;
    }
    assert forall|j: int| 0 <= j < texts(columns@).len() implies texts(columns@)[j] != name@ by {
        assert(texts(columns@)[j] == columns@[j]@);
    }
    false
}

/// The threads whose user-event flag is to be set or counted: those with a
/// user event in their session files, when the table has the column.
pub open spec fn user_event_targets(columns: Seq<Seq<char>>, ids: Seq<Seq<char>>) -> Seq<Seq<char>> {
    if columns.contains("has_user_event"@) {
        ids
    } else {
        Seq::empty()
    }
}

pub fn user_event_thread_params(columns: &Vec<String>, scan: &SessionScan) -> (r: Vec<String>)
    ensures
        texts(r@) == user_event_targets(texts(columns@), scan@.user_event_thread_ids),
{
    let mut r: Vec<String> = Vec::new();
    if has_column(columns, "has_user_event") {
        let mut i: usize = 0;
        while i < scan.user_event_thread_ids.len()
            invariant
                i <= scan.user_event_thread_ids@.len(),
                texts(r@) == texts(scan.user_event_thread_ids@).take(i as int),
            decreases scan.user_event_thread_ids@.len() - i,
        {
            let ghost before = r@;
            r.push(scan.user_event_thread_ids[i].clone());
            assert(texts(r@) =~= texts(before).push(scan.user_event_thread_ids@[i as int]@));
            assert(texts(scan.user_event_thread_ids@).take(i + 1) =~= texts(
                scan.user_event_thread_ids@,
            ).take(i as int).push(scan.user_event_thread_ids@[i as int]@));
            i = i + 1;
        }
        assert(texts(scan.user_event_thread_ids@).take(scan.user_event_thread_ids@.len() as int)
            =~= texts(scan.user_event_thread_ids@));
    } else {
        assert(texts(r@) =~= Seq::<Seq<char>>::empty());
    }
    r
}

/// The threads whose working directory is to be set or checked, with that
/// directory, when the table has the column.
pub open spec fn cwd_targets(columns: Seq<Seq<char>>, cwds: Seq<(Seq<char>, Seq<char>)>) -> Seq<
    (Seq<char>, Seq<char>),
> {
    if columns.contains("cwd"@) {
        cwds
    } else {
        Seq::empty()
    }
}

pub fn cwd_params(columns: &Vec<String>, scan: &SessionScan) -> (r: Vec<(String, String)>)
    ensures
        crate::codex_session_visibility::session_files::text_pairs(r@) == cwd_targets(
            texts(columns@),
            scan@.thread_cwd_by_id,
        ),
{
    let mut r: Vec<(String, String)> = Vec::new();
    let ghost all = scan@.thread_cwd_by_id;
    if has_column(columns, "cwd") {
        let mut i: usize = 0;
        while i < scan.thread_cwd_by_id.len()
            invariant
                i <= scan.thread_cwd_by_id@.len(),
                all == scan@.thread_cwd_by_id,
                crate::codex_session_visibility::session_files::text_pairs(r@) == all.take(
                    i as int,
                ),
            decreases scan.thread_cwd_by_id@.len() - i,
        {
            let ghost before = r@;
            let id = scan.thread_cwd_by_id[i].0.clone();
            let cwd = scan.thread_cwd_by_id[i].1.clone();
            r.push((id, cwd));
            proof {
                let tp = crate::codex_session_visibility::session_files::text_pairs(r@);
                let prev = crate::codex_session_visibility::session_files::text_pairs(before);
                assert(all[i as int] == (
                    scan.thread_cwd_by_id@[i as int].0@,
                    scan.thread_cwd_by_id@[i as int].1@,
                ));
                assert(all.take(i + 1) =~= all.take(i as int).push(all[i as int]));
                assert(tp =~= prev.push(all[i as int]));
            }
            i = i + 1;
        }
        assert(all.take(scan.thread_cwd_by_id@.len() as int) =~= all);
    } else {
        assert(crate::codex_session_visibility::session_files::text_pairs(r@) =~= Seq::<
            (Seq<char>, Seq<char>),
        >::empty());
    }
    r
}

/// A thread count as read: negative counts read as zero.
pub open spec fn row_count(count: i64) -> usize {
    if count < 0 {
        0
    } else {
        count as usize
    }
}

pub fn count_from_row(count: i64) -> (r: usize)
    ensures
        r == row_count(count),
{
    if count < 0 {
        0
    } else {
        #[verifier::truncate]
        (count as usize)
    }
}

/// The provider of a row of the per-provider count: `(missing)` for none or
/// a blank one.
pub open spec fn row_provider(text: Option<Seq<char>>) -> Seq<char> {
    match text {
        Some(t) => if !is_blank(t) {
            t
        } else {
            "(missing)"@
        },
        None => "(missing)"@,
    }
}

/// The per-provider counts of the thread table, read row by row into a
/// sorted map (a later row for the same provider replaces an earlier one).
pub open spec fn provider_counts_of(rows: Seq<(Option<Seq<char>>, i64)>) -> Seq<(Seq<char>, usize)>
    decreases rows.len(),
{
    if rows.len() == 0 {
        Seq::empty()
    } else {
        kv_insert(
            provider_counts_of(rows.drop_last()),
            row_provider(rows.last().0),
            row_count(rows.last().1),
        )
    }
}

/// The rows of the per-provider count taken by view.
pub open spec fn count_rows_view(rows: Seq<(Option<String>, i64)>) -> Seq<(Option<Seq<char>>, i64)> {
    Seq::new(
        rows.len(),
        |i: int|
            (
                match rows[i].0 {
                    Some(t) => Some(t@),
                    None => None,
                },
                rows[i].1,
            ),
    )
}

pub fn read_provider_counts(rows: &Vec<(Option<String>, i64)>) -> (r: Vec<(String, usize)>)
    ensures
        keyed(r@) == provider_counts_of(count_rows_view(rows@)),
{
    let ghost all = count_rows_view(rows@);
    let mut counts: Vec<(String, usize)> = Vec::new();
    let mut i: usize = 0;
    proof {
        assert(keyed(counts@) =~= Seq::<(Seq<char>, usize)>::empty());
    }
    while i < rows.len()
        invariant
            i <= rows@.len(),
            all == count_rows_view(rows@),
            keyed(counts@) == provider_counts_of(all.take(i as int)),
        decreases rows@.len() - i,
    {
        proof {
            assert(all.take(i + 1).drop_last() =~= all.take(i as int));
            assert(all.take(i + 1).last() == all[i as int]);
        }
        let provider = match &rows[i].0 {
            Some(t) => {
                if !blank(t.as_str()) {
                    t.clone()
                } else {
                    String::from_str("(missing)")
                }
            },
            None => String::from_str("(missing)"),
        };
        let n = count_from_row(rows[i].1);
        map_put(&mut counts, provider, n);
        i = i + 1;
    }
    assert(all.take(rows@.len() as int) =~= all);
    counts
}

/// The thread table as the status sees it: whether it is there, its rows
/// (in all and with another provider than the target), the rows that lack a
/// user-event flag or have another working directory than their sessions
/// record, and the count per provider.
pub struct SqliteStatus {
    pub present: bool,
    pub rows: usize,
    pub mismatched_rows: usize,
    pub user_event_rows: usize,
    pub cwd_rows: usize,
    pub provider_counts: Vec<(String, usize)>,
}

/// The sum of the counts of providers other than the target.
pub open spec fn mismatched_total(counts: Seq<(Seq<char>, usize)>, target: Seq<char>) -> nat
    decreases counts.len(),
{
    if counts.len() == 0 {
        0
    } else {
        mismatched_total(counts.drop_last(), target) + if counts.last().0 != target {
            counts.last().1 as nat
        } else {
            0nat
        }
    }
}

/// The rows that name another provider than the target are all the rows
/// but the target's own (none when the target has no entry), for counts that
/// name each provider once.
pub proof fn lemma_mismatched_rows_exclude_target(counts: Seq<(Seq<char>, usize)>, target: Seq<char>)
    requires
        forall|i: int, j: int| 0 <= i < j < counts.len() ==> #[trigger] counts[i].0 != #[trigger] counts[j].0,
    ensures
        mismatched_total(counts, target) + match kv_lookup(counts, target) {
            Some(n) => n as nat,
            None => 0nat,
        } == count_total(counts),
    decreases counts.len(),
{
    if counts.len() > 0 {
        let init = counts.drop_last();
        let x = counts.last();
        assert forall|i: int, j: int| 0 <= i < j < init.len() implies #[trigger] init[i].0 != #[trigger] init[j].0 by {
            assert(init[i] == counts[i] && init[j] == counts[j]);
        }
        lemma_mismatched_rows_exclude_target(init, target);
        assert(init.push(x) =~= counts);
        lemma_kv_lookup_push(init, x, target);
        if x.0 == target {
            assert forall|i: int| 0 <= i < init.len() implies #[trigger] init[i].0 != target by {
                assert(init[i] == counts[i]);
            }
            lemma_kv_lookup_absent(init, target);
        }
    }
}

proof fn lemma_mismatched_below(counts: Seq<(Seq<char>, usize)>, target: Seq<char>)
    ensures
        mismatched_total(counts, target) <= count_total(counts),
    decreases counts.len(),
{
    if counts.len() > 0 {
        lemma_mismatched_below(counts.drop_last(), target);
    }
}

proof fn lemma_count_total_prefix(counts: Seq<(Seq<char>, usize)>, n: int)
    requires
        0 <= n <= counts.len(),
    ensures
        count_total(counts.take(n)) <= count_total(counts),
    decreases counts.len() - n,
{
    if n < counts.len() {
        lemma_count_total_prefix(counts, n + 1);
        assert(counts.take(n + 1).drop_last() =~= counts.take(n));
    } else {
        assert(counts.take(n) =~= counts);
    }
}

impl SqliteStatus {
    /// No database.
    pub fn absent() -> (r: SqliteStatus)
        ensures
            !r.present,
            r.rows == 0,
            r.mismatched_rows == 0,
            r.user_event_rows == 0,
            r.cwd_rows == 0,
            r.provider_counts@.len() == 0,
    {
        SqliteStatus {
            present: false,
            rows: 0,
            mismatched_rows: 0,
            user_event_rows: 0,
            cwd_rows: 0,
            provider_counts: Vec::new(),
        }
    }

    /// The status of a present table from its per-provider counts and the
    /// numbers of rows that need their user-event flag or directory set.
    pub fn from_counts(
        provider_counts: Vec<(String, usize)>,
        target_provider: &str,
        user_event_rows: usize,
        cwd_rows: usize,
    ) -> (r: SqliteStatus)
        requires
            count_total(keyed(provider_counts@)) <= usize::MAX,
        ensures
            r.present,
            r.rows == count_total(keyed(provider_counts@)),
            r.mismatched_rows == mismatched_total(keyed(provider_counts@), target_provider@),
            r.mismatched_rows <= r.rows,
            r.user_event_rows == user_event_rows,
            r.cwd_rows == cwd_rows,
            r.provider_counts@ == provider_counts@,
    {
        let ghost all = keyed(provider_counts@);
        let target = String::from_str(target_provider);
        let mut rows: usize = 0;
        let mut mismatched: usize = 0;
        let mut i: usize = 0;
        while i < provider_counts.len()
            invariant
                i <= provider_counts@.len(),
                all == keyed(provider_counts@),
                count_total(all) <= usize::MAX,
                target@ == target_provider@,
                rows == count_total(all.take(i as int)),
                mismatched == mismatched_total(all.take(i as int), target_provider@),
            decreases provider_counts@.len() - i,
        {
            proof {
                assert(all.take(i + 1).drop_last() =~= all.take(i as int));
                assert(all.take(i + 1).last() == all[i as int]);
                lemma_count_total_prefix(all, i + 1);
                lemma_mismatched_below(all.take(i + 1), target_provider@);
            }
            rows = rows + provider_counts[i].1;
            if provider_counts[i].0 != target {
                mismatched = mismatched + provider_counts[i].1;
            }
            i = i + 1;
        }
        assert(all.take(provider_counts@.len() as int) =~= all);
        proof {
            lemma_mismatched_below(all, target_provider@);
        }
        SqliteStatus {
            present: true,
            rows,
            mismatched_rows: mismatched,
            user_event_rows,
            cwd_rows,
            provider_counts,
        }
    }
}

} // verus!
