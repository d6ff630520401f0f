//! The status report: which providers the session files and the thread
//! table name, and what a repair would change.
use vstd::prelude::*;

use crate::codex_session_visibility::session_files::{byte_index_from, invalid_utf8_message, is_text, slice_bytes, SessionScan};
use crate::codex_session_visibility::sqlite_state::SqliteStatus;
use crate::codex_session_visibility::{
    count_total, encrypted_content_warning, encrypted_warning, json_error, json_error_message,
};
use crate::error::{AQBotError, Failure};
use crate::json::{json_get, json_parse, json_str, parse_json, Json};
use crate::strmap::{keyed, kv_upsert, lemma_upsert_values};
use crate::text::{
    blank, chars_lt, chars_of, decode_utf8_bytes, is_blank, seq_lt, string_of, trim_end_by,
    trim_end_chars, texts, CharSet,
};
use crate::types::{row_views, CodexSessionVisibilityStatus, CodexSessionVisibilityStatusRow, StatusRowModel};

verus! {

/// The row for `count` records of `scope` that name `provider`: they need
/// repair unless the provider is the target.
pub open spec fn provider_row_of(scope: Seq<char>, provider: Seq<char>, count: usize, target: Seq<char>) -> StatusRowModel {
    let mismatched: usize = if provider == target {
        0
    } else {
        count
    };
    StatusRowModel {
        scope,
        provider: Some(provider),
        count,
        mismatched_count: mismatched,
        status: if mismatched == 0 {
            "ok"@
        } else {
            "needs_repair"@
        },
    }
}

pub fn provider_row(scope: &str, provider: &str, count: usize, target_provider: &str) -> (r:
    CodexSessionVisibilityStatusRow)
    ensures
        r@ == provider_row_of(scope@, provider@, count, target_provider@),
{
    let p = String::from_str(provider);
    let t = String::from_str(target_provider);
    let mismatched_count = if p == t {
        0
    } else {
        count
    };
    CodexSessionVisibilityStatusRow {
        scope: String::from_str(scope),
        provider: Some(p),
        count,
        mismatched_count,
        status: if mismatched_count == 0 {
            String::from_str("ok")
        } else {
            String::from_str("needs_repair")
        },
    }
}

/// One row per provider of a count map, in the map's order.
pub open spec fn provider_rows_of(scope: Seq<char>, counts: Seq<(Seq<char>, usize)>, target: Seq<char>) -> Seq<StatusRowModel> {
    Seq::new(counts.len(), |i: int| provider_row_of(scope, counts[i].0, counts[i].1, target))
}

pub fn build_provider_rows(scope: &str, counts: &Vec<(String, usize)>, target_provider: &str) -> (r:
    Vec<CodexSessionVisibilityStatusRow>)
    ensures
        row_views(r@) == provider_rows_of(scope@, keyed(counts@), target_provider@),
{
    let mut rows: Vec<CodexSessionVisibilityStatusRow> = Vec::new();
    let mut i: usize = 0;
    while i < counts.len()
        invariant
            i <= counts@.len(),
            rows@.len() == i,
            forall|k: int|
                0 <= k < i ==> (#[trigger] rows@[k])@ == provider_row_of(
                    scope@,
                    counts@[k].0@,
                    counts@[k].1,
                    target_provider@,
                ),
        decreases counts@.len() - i,
    {
        rows.push(provider_row(scope, counts[i].0.as_str(), counts[i].1, target_provider));
        i = i + 1;
    }
    assert(row_views(rows@) =~= provider_rows_of(scope@, keyed(counts@), target_provider@));
    rows
}

/// Session files per session directory and provider (ordered by directory,
/// then provider, as a map keyed by the pair), and their total.
pub struct SessionProviderCounts {
    pub counts: Vec<(String, Vec<(String, usize)>)>,
    pub total: usize,
}

pub struct ProviderCountsModel {
    pub counts: Seq<(Seq<char>, Seq<(Seq<char>, usize)>)>,
    pub total: usize,
}

/// The nested counts taken by view.
pub open spec fn nested_view(c: Seq<(String, Vec<(String, usize)>)>) -> Seq<
    (Seq<char>, Seq<(Seq<char>, usize)>),
> {
    Seq::new(c.len(), |i: int| (c[i].0@, keyed(c[i].1@)))
}

impl View for SessionProviderCounts {
    type V = ProviderCountsModel;

    open spec fn view(&self) -> ProviderCountsModel {
        ProviderCountsModel { counts: nested_view(self.counts@), total: self.total }
    }
}

impl SessionProviderCounts {
    pub fn new() -> (r: SessionProviderCounts)
        ensures
            r@.counts.len() == 0,
            r@.total == 0,
    {
        SessionProviderCounts { counts: Vec::new(), total: 0 }
    }
}

/// The rows of the session directories: one per directory and provider.
pub open spec fn session_rows_of(counts: Seq<(Seq<char>, Seq<(Seq<char>, usize)>)>, target: Seq<char>) -> Seq<StatusRowModel>
    decreases counts.len(),
{
    if counts.len() == 0 {
        Seq::empty()
    } else {
        session_rows_of(counts.drop_last(), target) + provider_rows_of(
            counts.last().0,
            counts.last().1,
            target,
        )
    }
}

pub fn build_session_rows(counts: &SessionProviderCounts, target_provider: &str) -> (r: Vec<
    CodexSessionVisibilityStatusRow,
>)
    ensures
        row_views(r@) == session_rows_of(counts@.counts, target_provider@),
{
    let ghost all = counts@.counts;
    let mut rows: Vec<CodexSessionVisibilityStatusRow> = Vec::new();
    let mut i: usize = 0;
    proof {
        assert(row_views(rows@) =~= Seq::<StatusRowModel>::empty());
    }
    while i < counts.counts.len()
        invariant
            i <= counts.counts@.len(),
            all == counts@.counts,
            row_views(rows@) == session_rows_of(all.take(i as int), target_provider@),
        decreases counts.counts@.len() - i,
    {
        let mut more = build_provider_rows(
            counts.counts[i].0.as_str(),
            &counts.counts[i].1,
            target_provider,
        );
        let ghost before = rows@;
        let ghost added = more@;
        rows.append(&mut more);
        proof {
            assert(row_views(rows@) =~= row_views(before) + row_views(added));
            assert(all.take(i + 1).drop_last() =~= all.take(i as int));
            assert(all.take(i + 1).last() == all[i as int]);
        }
        i = i + 1;
    }
    assert(all.take(counts.counts@.len() as int) =~= all);
    rows
}

/// The first line of a file as `BufRead::read_line` reads it: up to and
/// with the first `\n`; nothing for an empty file; an error when those
/// bytes are not valid UTF-8; the line without trailing `\r` and `\n`.
pub open spec fn first_line_read(bytes: Seq<u8>) -> Result<Option<Seq<char>>, Failure> {
    let line = match byte_index_from(bytes, 10, 0) {
        Some(i) => bytes.take(i + 1),
        None => bytes,
    };
    if line.len() == 0 {
        Ok(None)
    } else if !vstd::utf8::valid_utf8(line) {
        Err(Failure::Io(invalid_utf8_message()))
    } else {
        Ok(Some(trim_end_by(vstd::utf8::decode_utf8(line), CharSet::LineBreaks)))
    }
}

pub fn read_first_line(bytes: &[u8]) -> (r: Result<Option<String>, AQBotError>)
    ensures
        match (r, first_line_read(bytes@)) {
            (Ok(Some(s)), Ok(Some(t))) => s@ == t,
            (Ok(None), Ok(None)) => true,
            (Err(e), Err(f)) => e@ == f,
            _ => false,
        },
{
    let mut i: usize = 0;
    while i < bytes.len() && bytes[i] != 10
        invariant
            i <= bytes@.len(),
            byte_index_from(bytes@, 10, 0) == byte_index_from(bytes@, 10, i as int),
        decreases bytes@.len() - i,
    {
        i = i + 1;
    }
    proof {
        crate::codex_session_visibility::session_files::lemma_byte_index_bounds(bytes@, 10, 0);
    }
    let end = if i < bytes.len() {
        i + 1
    } else {
        bytes.len()
    };
    let line = slice_bytes(bytes, 0, end);
    assert(line@ =~= match byte_index_from(bytes@, 10, 0) {
        Some(i) => bytes@.take(i + 1),
        None => bytes@,
    });
    if line.len() == 0 {
        return Ok(None);
    }
    match decode_utf8_bytes(&line) {
        Some(text) => {
            let chars = chars_of(text.as_str());
            let trimmed = trim_end_chars(&chars, CharSet::LineBreaks);
            Ok(Some(string_of(&trimmed)))
        },
        None => Err(AQBotError::Io(String::from_str("stream did not contain valid UTF-8"))),
    }
}

/// The provider that a session's first line records for the status count:
/// `(missing)` when it records none or a blank one.
pub open spec fn counted_provider(meta: Json) -> Seq<char> {
    match json_get(meta, "payload"@) {
        Some(p) => match json_str(json_get(p, "model_provider"@)) {
            Some(s) => if !is_blank(s) {
                s
            } else {
                "(missing)"@
            },
            None => "(missing)"@,
        },
        None => "(missing)"@,
    }
}

/// One more file counted for a provider.
pub open spec fn one_more(count: Option<usize>) -> usize {
    match count {
        Some(n) => (n + 1) as usize,
        None => 1usize,
    }
}

/// One more file counted for `provider` in a directory's counts.
pub open spec fn provider_counted(inner: Option<Seq<(Seq<char>, usize)>>, provider: Seq<char>) -> Seq<
    (Seq<char>, usize),
> {
    let m = match inner {
        Some(e) => e,
        None => Seq::empty(),
    };
    kv_upsert(m, provider, |c: Option<usize>| one_more(c))
}

/// What counting one session file of `scope` does to the counts: files
/// with an empty first line, or whose first line is not `session_meta`, are
/// not counted.
pub open spec fn file_provider_counted(m: ProviderCountsModel, scope: Seq<char>, bytes: Seq<u8>) -> Result<ProviderCountsModel, Failure> {
    match first_line_read(bytes) {
        Err(f) => Err(f),
        Ok(None) => Ok(m),
        Ok(Some(line)) => match json_parse(line) {
            Err(e) => Err(Failure::Gateway(json_error_message(e))),
            Ok(v) => if json_str(json_get(v, "type"@)) != Some("session_meta"@) {
                Ok(m)
            } else {
                let provider = counted_provider(v);
                Ok(
                    ProviderCountsModel {
                        counts: kv_upsert(
                            m.counts,
                            scope,
                            |inner: Option<Seq<(Seq<char>, usize)>>| provider_counted(inner, provider),
                        ),
                        total: (m.total + 1) as usize,
                    },
                )
            },
        },
    }
}

/// Every count can grow by one.
pub open spec fn provider_counts_room(m: ProviderCountsModel) -> bool {
    &&& m.total < usize::MAX
    &&& forall|i: int, j: int|
        0 <= i < m.counts.len() && 0 <= j < m.counts[i].1.len() ==> #[trigger] m.counts[i].1[j].1
            < usize::MAX
}

/// Whether the counts can take one more file.
pub fn provider_counts_have_room(counts: &SessionProviderCounts) -> (r: bool)
    ensures
        r == provider_counts_room(counts@),
{
    if counts.total == usize::MAX {
        return false;
    }
    let mut i: usize = 0;
    while i < counts.counts.len()
        invariant
            i <= counts.counts@.len(),
            forall|a: int, b: int|
                0 <= a < i && 0 <= b < counts@.counts[a].1.len() ==> #[trigger] counts@.counts[a].1[b].1
                    < usize::MAX,
        decreases counts.counts@.len() - i,
    {
        let inner = &counts.counts[i].1;
        let mut j: usize = 0;
        while j < inner.len()
            invariant
                i < counts.counts@.len(),
                *inner == counts.counts@[i as int].1,
                j <= inner@.len(),
                forall|a: int, b: int|
                    0 <= a < i && 0 <= b < counts@.counts[a].1.len() ==> #[trigger] counts@.counts[a].1[b].1
                        < usize::MAX,
                forall|b: int| 0 <= b < j ==> #[trigger] counts@.counts[i as int].1[b].1 < usize::MAX,
            decreases inner@.len() - j,
        {
            if inner[j].1 == usize::MAX {
                assert(counts@.counts[i as int].1[j as int].1 == usize::MAX);
                return false;
            }
            j = j + 1;
        }
        i = i + 1;
    }
    true
}

/// `*map.entry(k).or_default() += 1` on a directory's counts.
fn count_upsert(e: &mut Vec<(String, usize)>, k: String)
    requires
        forall|i: int| 0 <= i < old(e)@.len() ==> #[trigger] old(e)@[i].1 < usize::MAX,
    ensures
        keyed(final(e)@) == kv_upsert(keyed(old(e)@), k@, |c: Option<usize>| one_more(c)),
{
    let ghost all = keyed(e@);
    let ghost f = |c: Option<usize>| one_more(c);
    let kc = chars_of(k.as_str());
    let mut i: usize = 0;
    proof {
        assert(all.skip(0) =~= all);
        assert(all.take(0) + all =~= all);
    }
    while i < e.len()
        invariant
            i <= e@.len(),
            e@ == old(e)@,
            all == keyed(e@),
            kc@ == k@,
            kv_upsert(all, k@, f) == all.take(i as int) + kv_upsert(all.skip(i as int), k@, f),
        ensures
            i <= e@.len(),
            e@ == old(e)@,
            all == keyed(e@),
            kv_upsert(all, k@, f) == all.take(i as int) + kv_upsert(all.skip(i as int), k@, f),
            i < e@.len() ==> (e@[i as int].0@ == k@ || seq_lt(k@, e@[i as int].0@)),
        decreases e@.len() - i,
    {
        let ek = chars_of(e[i].0.as_str());
        if e[i].0 == k || chars_lt(&kc, &ek) {
            break;
        }
        proof {
            let rest = all.skip(i as int);
            assert(rest[0] == all[i as int]);
            assert(rest.drop_first() =~= all.skip(i + 1));
            assert(all.take(i + 1) =~= all.take(i as int) + seq![rest[0]]);
        }
        i = i + 1;
    }
    let ghost rest = all.skip(i as int);
    let ghost kv = k@;
    if i < e.len() && e[i].0 == k {
        let n = e[i].1 + 1;
        e.set(i, (k, n));
        proof {
            assert(rest[0] == all[i as int]);
            assert(kv_upsert(rest, kv, f) == rest.update(0, (kv, f(Some(rest[0].1)))));
            assert(keyed(e@) =~= all.take(i as int) + rest.update(0, (kv, f(Some(rest[0].1)))));
        }
    } else {
        e.insert(i, (k, 1));
        proof {
            if i < all.len() {
                assert(rest[0] == all[i as int]);
                assert(kv_upsert(rest, kv, f) == seq![(kv, f(None))] + rest);
            } else {
                assert(rest.len() == 0);
            }
            assert(keyed(e@) =~= all.take(i as int) + kv_upsert(rest, kv, f));
        }
    }
}

/// One more file counted for `(scope, provider)`.
fn nested_count(outer: &mut Vec<(String, Vec<(String, usize)>)>, scope: String, provider: String)
    requires
        forall|i: int, j: int|
            0 <= i < old(outer)@.len() && 0 <= j < old(outer)@[i].1@.len() ==> #[trigger] old(
                outer,
            )@[i].1@[j].1 < usize::MAX,
    ensures
        nested_view(final(outer)@) == kv_upsert(
            nested_view(old(outer)@),
            scope@,
            |inner: Option<Seq<(Seq<char>, usize)>>| provider_counted(inner, provider@),
        ),
{
    let ghost all = nested_view(outer@);
    let ghost f = |inner: Option<Seq<(Seq<char>, usize)>>| provider_counted(inner, provider@);
    let kc = chars_of(scope.as_str());
    let mut i: usize = 0;
    proof {
        assert(all.skip(0) =~= all);
        assert(all.take(0) + all =~= all);
    }
    while i < outer.len()
        invariant
            i <= outer@.len(),
            outer@ == old(outer)@,
            all == nested_view(outer@),
            kc@ == scope@,
            kv_upsert(all, scope@, f) == all.take(i as int) + kv_upsert(all.skip(i as int), scope@, f),
        ensures
            i <= outer@.len(),
            outer@ == old(outer)@,
            all == nested_view(outer@),
            kv_upsert(all, scope@, f) == all.take(i as int) + kv_upsert(all.skip(i as int), scope@, f),
            i < outer@.len() ==> (outer@[i as int].0@ == scope@ || seq_lt(scope@, outer@[i as int].0@)),
        decreases outer@.len() - i,
    {
        let ek = chars_of(outer[i].0.as_str());
        if outer[i].0 == scope || chars_lt(&kc, &ek) {
            break;
        }
        proof {
            let rest = all.skip(i as int);
            assert(rest[0] == all[i as int]);
            assert(rest.drop_first() =~= all.skip(i + 1));
            assert(all.take(i + 1) =~= all.take(i as int) + seq![rest[0]]);
        }
        i = i + 1;
    }
    let ghost rest = all.skip(i as int);
    let ghost kv = scope@;
    if i < outer.len() && outer[i].0 == scope {
        let (key, mut inner) = outer.remove(i);
        let ghost old_inner = keyed(inner@);
        count_upsert(&mut inner, provider);
        outer.insert(i, (key, inner));
        proof {
            assert(rest[0] == all[i as int]);
            assert(rest[0].1 == old_inner);
            assert(kv_upsert(rest, kv, f) == rest.update(0, (kv, f(Some(rest[0].1)))));
            assert(nested_view(outer@) =~= all.take(i as int) + rest.update(0, (kv, f(Some(rest[0].1)))));
        }
    } else {
        let mut inner: Vec<(String, usize)> = Vec::new();
        count_upsert(&mut inner, provider);
        proof {
            assert(keyed(Seq::<(String, usize)>::empty()) =~= Seq::<(Seq<char>, usize)>::empty());
        }
        outer.insert(i, (scope, inner));
        proof {
            if i < all.len() {
                assert(rest[0] == all[i as int]);
                assert(kv_upsert(rest, kv, f) == seq![(kv, f(None))] + rest);
            } else {
                assert(rest.len() == 0);
            }
            assert(nested_view(outer@) =~= all.take(i as int) + kv_upsert(rest, kv, f));
        }
    }
}

/// Counts one session file of `scope` (the name of its session directory),
/// whose content is `bytes`, under the provider its first line records.
pub fn collect_file_provider(scope: &str, bytes: &[u8], counts: &mut SessionProviderCounts) -> (r:
    Result<(), AQBotError>)
    requires
        provider_counts_room(old(counts)@),
    ensures
        match (r, file_provider_counted(old(counts)@, scope@, bytes@)) {
            (Ok(()), Ok(m)) => final(counts)@ == m,
            (Err(e), Err(f)) => e@ == f,
            _ => false,
        },
{
    let first_line = match read_first_line(bytes)? {
        Some(l) => l,
        None => return Ok(()),
    };
    let parsed = match parse_json(first_line.as_str()) {
        Ok(v) => v,
        Err(e) => return Err(json_error(e)),
    };
    let is_meta = match parsed.get_str("type") {
        Some(t) => is_text(t, "session_meta"),
        None => false,
    };
    if !is_meta {
        return Ok(());
    }
    let provider = match parsed.get("payload") {
        Some(p) => match p.get_str("model_provider") {
            Some(s) => if !blank(s.as_str()) {
                s.clone()
            } else {
                String::from_str("(missing)")
            },
            None => String::from_str("(missing)"),
        },
        None => String::from_str("(missing)"),
    };
    proof {
        assert forall|i: int, j: int|
            0 <= i < counts.counts@.len() && 0 <= j < counts.counts@[i].1@.len() implies #[trigger] counts.counts@[i].1@[j].1
                < usize::MAX by {
            assert(counts@.counts[i].1[j].1 == counts.counts@[i].1@[j].1);
        }
    }
    nested_count(&mut counts.counts, String::from_str(scope), provider);
    counts.total = counts.total + 1;
    Ok(())
}

/// The status report from what was read: the target provider, the Codex
/// home as it reads, the scan of the session files, the per-directory
/// counts, the thread table, and the number of workspace roots to update.
pub fn build_status(
    target_provider: String,
    codex_home: String,
    scan: &SessionScan,
    session_counts: &SessionProviderCounts,
    sqlite: SqliteStatus,
    workspace_roots: usize,
) -> (r: CodexSessionVisibilityStatus)
    requires
        count_total(scan@.encrypted_content_by_provider) <= usize::MAX,
    ensures
        r.target_provider@ == target_provider@,
        r.codex_home@ == codex_home@,
        r.total_session_files == session_counts.total,
        r.mismatched_session_files == scan@.changes.len(),
        r.sqlite_present == sqlite.present,
        r.sqlite_rows == sqlite.rows,
        r.sqlite_mismatched_rows == sqlite.mismatched_rows,
        r.sqlite_user_event_rows_needing_repair == sqlite.user_event_rows,
        r.sqlite_cwd_rows_needing_repair == sqlite.cwd_rows,
        r.workspace_roots_needing_update == workspace_roots,
        row_views(r.status_rows@) == session_rows_of(session_counts@.counts, target_provider@)
            + provider_rows_of("state_5.sqlite"@, keyed(sqlite.provider_counts@), target_provider@)
            + if workspace_roots > 0 {
            seq![
                StatusRowModel {
                    scope: ".codex-global-state.json"@,
                    provider: None,
                    count: workspace_roots,
                    mismatched_count: workspace_roots,
                    status: "needs_repair"@,
                },
            ]
        } else {
            Seq::empty()
        },
        match r.encrypted_content_warning {
            Some(w) => encrypted_warning(scan@.encrypted_content_by_provider, target_provider@)
                == Some(w@),
            None => encrypted_warning(scan@.encrypted_content_by_provider, target_provider@) is None,
        },
{
    let mut rows = build_session_rows(session_counts, target_provider.as_str());
    let mut more = build_provider_rows(
        "state_5.sqlite",
        &sqlite.provider_counts,
        target_provider.as_str(),
    );
    let ghost first = rows@;
    let ghost added = more@;
    rows.append(&mut more);
    assert(row_views(rows@) =~= row_views(first) + row_views(added));
    let ghost second = rows@;
    if workspace_roots > 0 {
        rows.push(
            CodexSessionVisibilityStatusRow {
                scope: String::from_str(".codex-global-state.json"),
                provider: None,
                count: workspace_roots,
                mismatched_count: workspace_roots,
                status: String::from_str("needs_repair"),
            },
        );
        assert(row_views(rows@) =~= row_views(second).push(rows@[second.len() as int]@));
    } else {
        assert(row_views(second) + Seq::<StatusRowModel>::empty() =~= row_views(second));
    }
    let warning = encrypted_content_warning(
        &scan.encrypted_content_by_provider,
        target_provider.as_str(),
    );
    CodexSessionVisibilityStatus {
        target_provider,
        codex_home,
        total_session_files: session_counts.total,
        mismatched_session_files: scan.changes.len(),
        sqlite_present: sqlite.present,
        sqlite_rows: sqlite.rows,
        sqlite_mismatched_rows: sqlite.mismatched_rows,
        sqlite_user_event_rows_needing_repair: sqlite.user_event_rows,
        sqlite_cwd_rows_needing_repair: sqlite.cwd_rows,
        workspace_roots_needing_update: workspace_roots,
        status_rows: rows,
        encrypted_content_warning: warning,
    }
}

/// No count, nor the total, exceeds `k`.
pub open spec fn provider_counts_at_most(m: ProviderCountsModel, k: int) -> bool {
    &&& m.total <= k
    &&& forall|i: int, j: int|
        0 <= i < m.counts.len() && 0 <= j < m.counts[i].1.len() ==> #[trigger] m.counts[i].1[j].1
            <= k
}

/// Counting one more file raises each count, and the total, by one at most.
proof fn lemma_counted_bound(m: ProviderCountsModel, scope: Seq<char>, bytes: Seq<u8>, k: int)
    requires
        0 <= k < usize::MAX,
        provider_counts_at_most(m, k),
    ensures
        file_provider_counted(m, scope, bytes) matches Ok(m2) ==> provider_counts_at_most(m2, k + 1),
{
    if let Ok(Some(line)) = first_line_read(bytes) {
        if let Ok(v) = json_parse(line) {
            if json_str(json_get(v, "type"@)) == Some("session_meta"@) {
                let provider = counted_provider(v);
                let inner_q = |c: usize| c <= k;
                let inner_p = |c: usize| c <= k + 1;
                let one = |c: Option<usize>| one_more(c);
                let q = |inner: Seq<(Seq<char>, usize)>|
                    forall|j: int| 0 <= j < inner.len() ==> #[trigger] inner[j].1 <= k;
                let p = |inner: Seq<(Seq<char>, usize)>|
                    forall|j: int| 0 <= j < inner.len() ==> #[trigger] inner[j].1 <= k + 1;
                let f = |inner: Option<Seq<(Seq<char>, usize)>>| provider_counted(inner, provider);
                assert forall|v: Seq<(Seq<char>, usize)>| #[trigger] q(v) implies p(f(Some(v))) by {
                    assert forall|j: int| 0 <= j < v.len() implies inner_q(#[trigger] v[j].1) by {}
                    lemma_upsert_values(v, provider, one, inner_q, inner_p);
                    assert forall|j: int| 0 <= j < f(Some(v)).len() implies #[trigger] f(Some(v))[j].1 <= k + 1 by {
                        assert(inner_p(kv_upsert(v, provider, one)[j].1));
                    }
                }
                assert(p(f(None))) by {
                    assert(f(None) == seq![(provider, 1usize)]);
                }
                assert forall|i: int| 0 <= i < m.counts.len() implies q(#[trigger] m.counts[i].1) by {
                    assert forall|j: int| 0 <= j < m.counts[i].1.len() implies #[trigger] m.counts[i].1[j].1 <= k by {}
                }
                lemma_upsert_values(m.counts, scope, f, q, p);
                let c2 = kv_upsert(m.counts, scope, f);
                assert forall|i: int, j: int|
                    0 <= i < c2.len() && 0 <= j < c2[i].1.len() implies #[trigger] c2[i].1[j].1 <= k + 1 by {
                    assert(p(c2[i].1));
                }
            }
        }
    }
}

/// The counts of a list of session files, given their directories and
/// contents (or the error met reading them) in order: those of the first
/// `n`, or the first error.
pub open spec fn counted_files(
    scopes: Seq<Seq<char>>,
    reads: Seq<Result<Vec<u8>, AQBotError>>,
    n: int,
) -> Result<ProviderCountsModel, Failure>
    decreases n,
{
    if n <= 0 {
        Ok(ProviderCountsModel { counts: Seq::empty(), total: 0 })
    } else {
        match counted_files(scopes, reads, n - 1) {
            Err(f) => Err(f),
            Ok(m) => match reads[n - 1] {
                Err(e) => Err(e@),
                Ok(bytes) => file_provider_counted(m, scopes[n - 1], bytes@),
            },
        }
    }
}

proof fn lemma_counted_prefix(
    scopes: Seq<Seq<char>>,
    s: Seq<Result<Vec<u8>, AQBotError>>,
    t: Seq<Result<Vec<u8>, AQBotError>>,
    n: int,
)
    requires
        0 <= n <= s.len(),
        n <= t.len(),
        forall|j: int| 0 <= j < n ==> s[j] == t[j],
    ensures
        counted_files(scopes, s, n) == counted_files(scopes, t, n),
    decreases n,
{
    if n > 0 {
        lemma_counted_prefix(scopes, s, t, n - 1);
    }
}

/// Counts session files by directory and provider: the `i`-th file is in
/// the directory `scopes[i]` and is read with `read(i)`. It stops at the
/// first error, of reading or of counting; what was read is `reads`, one
/// result per file read, in order.
pub fn collect_session_provider_counts<F: Fn(usize) -> Result<Vec<u8>, AQBotError>>(
    scopes: &Vec<String>,
    read: &F,
) -> (r: Result<SessionProviderCounts, AQBotError>)
    requires
        scopes@.len() < usize::MAX,
        forall|i: usize| i < scopes@.len() ==> read.requires((i,)),
    ensures
        exists|reads: Seq<Result<Vec<u8>, AQBotError>>|
            #![trigger counted_files(texts(scopes@), reads, reads.len() as int)]
            {
                &&& reads.len() <= scopes@.len()
                &&& forall|j: int| 0 <= j < reads.len() ==> read.ensures((j as usize,), #[trigger] reads[j])
                &&& match r {
                    Ok(c) => reads.len() == scopes@.len() && counted_files(texts(scopes@), reads, reads.len() as int)
                        == Ok::<ProviderCountsModel, Failure>(c@),
                    Err(e) => counted_files(texts(scopes@), reads, reads.len() as int) == Err::<
                        ProviderCountsModel,
                        Failure,
                    >(e@),
                }
            },
{
    let ghost names = texts(scopes@);
    let mut counts = SessionProviderCounts::new();
    let ghost mut reads: Seq<Result<Vec<u8>, AQBotError>> = Seq::empty();
    let mut i: usize = 0;
    proof {
        assert(counts@.counts =~= Seq::<(Seq<char>, Seq<(Seq<char>, usize)>)>::empty());
    }
    while i < scopes.len()
        invariant
            i <= scopes@.len() < usize::MAX,
            names == texts(scopes@),
            forall|k: usize| k < scopes@.len() ==> read.requires((k,)),
            reads.len() == i,
            forall|j: int| 0 <= j < reads.len() ==> read.ensures((j as usize,), #[trigger] reads[j]),
            counted_files(names, reads, i as int) == Ok::<ProviderCountsModel, Failure>(counts@),
            provider_counts_at_most(counts@, i as int),
        decreases scopes@.len() - i,
    {
        let content = read(i);
        let ghost before = reads;
        proof {
            reads = reads.push(content);
            lemma_counted_prefix(names, before, reads, i as int);
            assert(reads[i as int] == content);
            assert(names[i as int] == scopes@[i as int]@);
        }
        match content {
            Err(e) => {
                assert(counted_files(names, reads, reads.len() as int) == Err::<
                    ProviderCountsModel,
                    Failure,
                >(e@));
                return Err(e);
            },
            Ok(bytes) => {
                proof {
                    lemma_counted_bound(counts@, scopes@[i as int]@, bytes@, i as int);
                }
                let outcome = collect_file_provider(scopes[i].as_str(), bytes.as_slice(), &mut counts);
                if let Err(e) = outcome {
                    assert(counted_files(names, reads, reads.len() as int) == Err::<
                        ProviderCountsModel,
                        Failure,
                    >(e@));
                    return Err(e);
                }
            },
        }
        i = i + 1;
    }
    assert(counted_files(names, reads, reads.len() as int) == Ok::<ProviderCountsModel, Failure>(
        counts@,
    ));
    Ok(counts)
}

} // verus!
