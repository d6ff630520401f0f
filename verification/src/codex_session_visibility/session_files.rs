//! Session (rollout) files: the first line that holds a session's metadata,
//! what a scan of the files records, and the rewrites that set the provider.
use vstd::prelude::*;
use vstd::utf8::encode_utf8;

use crate::codex_session_visibility::workspace_roots::{desktop_path, to_desktop_workspace_path};
use crate::codex_session_visibility::{json_error, json_error_message};
use crate::error::{AQBotError, Failure};
use crate::json::{
    json_compact, json_get, json_parse, json_set, json_sorted, lemma_json_set, json_set_member, json_str, parse_json,
    to_json_text, Json, JsonValue,
};
use crate::strmap::{
    keyed, kv_insert, kv_lookup, lemma_kv_insert, lemma_kv_lookup_member, map_find, map_put, set_insert,
    set_put,
};
use crate::text::{
    blank, chars_of, contains_chars, contains_seq, decode_utf8_bytes, decode_utf8_lossy,
    ends_with, ends_with_chars, is_blank, starts_with, starts_with_chars, string_of, texts,
    utf8_lossy, seq_lt,
};

verus! {

/// The name of a session file: `rollout-*.jsonl`.
pub open spec fn is_rollout_name(name: Seq<char>) -> bool {
    starts_with(name, "rollout-"@) && ends_with(name, ".jsonl"@)
}

/// Whether a file with this name (its last path component, when it is valid
/// Unicode) is a session file.
pub fn is_rollout_file(file_name: Option<&str>) -> (r: bool)
    ensures
        r == match file_name {
            Some(n) => is_rollout_name(n@),
            None => false,
        },
{
    match file_name {
        Some(name) => {
            let n = chars_of(name);
            let head = chars_of("rollout-");
            let tail = chars_of(".jsonl");
            starts_with_chars(&n, &head) && ends_with_chars(&n, &tail)
        },
        None => false,
    }
}

/// The index of the first byte `b` at or after `i`.
pub open spec fn byte_index_from(bytes: Seq<u8>, b: u8, i: int) -> Option<int>
    decreases bytes.len() - i,
{
    if i < 0 || i >= bytes.len() {
        None
    } else if bytes[i] == b {
        Some(i)
    } else {
        byte_index_from(bytes, b, i + 1)
    }
}

/// The first line of a file: its bytes, the separator that ends it (`\r\n`,
/// `\n`, or nothing at the end of the file) and the offset of what follows.
pub open spec fn first_line_split(bytes: Seq<u8>) -> (Seq<u8>, Seq<char>, int) {
    match byte_index_from(bytes, 10, 0) {
        Some(i) => if i > 0 && bytes[i - 1] == 13 {
            (bytes.take(i - 1), "\r\n"@, i + 1)
        } else {
            (bytes.take(i), "\n"@, i + 1)
        },
        None => (bytes, ""@, bytes.len() as int),
    }
}

/// The first line of a session file, decoded, with its separator and the
/// offset of the rest of the file.
pub struct FirstLineRecord {
    pub first_line: String,
    pub separator: String,
    pub offset: u64,
}

pub open spec fn first_line_text(bytes: Seq<u8>) -> Seq<char> {
    utf8_lossy(first_line_split(bytes).0)
}

pub proof fn lemma_byte_index_bounds(bytes: Seq<u8>, b: u8, i: int)
    ensures
        byte_index_from(bytes, b, i) matches Some(k) ==> i <= k < bytes.len() && bytes[k] == b,
    decreases bytes.len() - i,
{
    if 0 <= i < bytes.len() && bytes[i] != b {
        lemma_byte_index_bounds(bytes, b, i + 1);
    }
}

/// Splits off the first line of a file's content.
pub fn read_first_line_record(bytes: &[u8]) -> (r: FirstLineRecord)
    ensures
        r.first_line@ == first_line_text(bytes@),
        r.separator@ == first_line_split(bytes@).1,
        r.offset == first_line_split(bytes@).2,
{
    let mut i: usize = 0;
    while i < bytes.len() && bytes[i] != 10
        invariant
            i <= bytes@.len(),
            byte_index_from(bytes@, 10, 0) == byte_index_from(bytes@, 10, i as int),
        decreases bytes@.len() - i,
    {
        i = i + 1;
    }
    proof {
        lemma_byte_index_bounds(bytes@, 10, 0);
    }
    if i < bytes.len() {
        if i > 0 && bytes[i - 1] == 13 {
            let line = slice_bytes(bytes, 0, i - 1);
            FirstLineRecord {
                first_line: decode_utf8_lossy(&line),
                separator: String::from_str("\r\n"),
                offset: i as u64 + 1,
            }
        } else {
            let line = slice_bytes(bytes, 0, i);
            FirstLineRecord {
                first_line: decode_utf8_lossy(&line),
                separator: String::from_str("\n"),
                offset: i as u64 + 1,
            }
        }
    } else {
        let line = slice_bytes(bytes, 0, bytes.len());
        assert(line@ =~= bytes@);
        FirstLineRecord {
            first_line: decode_utf8_lossy(&line),
            separator: String::from_str(""),
            offset: bytes.len() as u64,
        }
    }
}

/// `bytes[from..to]` as a new vector.
pub fn slice_bytes(bytes: &[u8], from: usize, to: usize) -> (r: Vec<u8>)
    requires
        from <= to <= bytes@.len(),
    ensures
        r@ == bytes@.subrange(from as int, to as int),
{
    let mut r: Vec<u8> = Vec::new();
    let mut i = from;
    while i < to
        invariant
            from <= i <= to <= bytes@.len(),
            r@ == bytes@.subrange(from as int, i as int),
        decreases to - i,
    {
        r.push(bytes[i]);
        assert(bytes@.subrange(from as int, i + 1) =~= bytes@.subrange(from as int, i as int).push(
            bytes@[i as int],
        ));
        i = i + 1;
    }
    r
}

/// Whether `s` is the text of the literal `lit`.
pub fn is_text(s: &String, lit: &str) -> (r: bool)
    ensures
        r == (s@ == lit@),
{
    let t = String::from_str(lit);
    *s == t
}

/// The session metadata that a first line holds: `null` for a blank line or
/// for a JSON line that is not `session_meta` with a payload.
pub open spec fn session_meta_of(first_line: Seq<char>) -> Result<Json, Failure> {
    if is_blank(first_line) {
        Ok(Json::Null)
    } else {
        match json_parse(first_line) {
            Err(e) => Err(Failure::Gateway(json_error_message(e))),
            Ok(v) => if json_str(json_get(v, "type"@)) == Some("session_meta"@) && json_get(
                v,
                "payload"@,
            ) is Some {
                Ok(v)
            } else {
                Ok(Json::Null)
            },
        }
    }
}

pub fn parse_session_meta(first_line: &str) -> (r: Result<JsonValue, AQBotError>)
    ensures
        match (r, session_meta_of(first_line@)) {
            (Ok(v), Ok(j)) => v@ == j,
            (Err(e), Err(f)) => e@ == f,
            _ => false,
        },
{
    if blank(first_line) {
        return Ok(JsonValue::Null);
    }
    let parsed = match parse_json(first_line) {
        Ok(v) => v,
        Err(e) => return Err(json_error(e)),
    };
    let is_meta = match parsed.get_str("type") {
        Some(t) => is_text(t, "session_meta"),
        None => false,
    };
    if is_meta && parsed.get("payload").is_some() {
        Ok(parsed)
    } else {
        Ok(JsonValue::Null)
    }
}

/// Whether `v[key]` is a message from the user.
pub open spec fn user_message_at(v: Json, key: Seq<char>) -> bool {
    match json_get(v, key) {
        Some(m) => json_str(json_get(m, "type"@)) == Some("message"@) && json_str(
            json_get(m, "role"@),
        ) == Some("user"@),
        None => false,
    }
}

/// Whether a JSON record is a user event: an `event_msg` whose payload is a
/// `user_message`, or a user message under `payload`, `item` or `msg`.
pub open spec fn is_user_event(v: Json) -> bool {
    ||| (json_str(json_get(v, "type"@)) == Some("event_msg"@) && match json_get(v, "payload"@) {
        Some(p) => json_str(json_get(p, "type"@)) == Some("user_message"@),
        None => false,
    })
    ||| user_message_at(v, "payload"@)
    ||| user_message_at(v, "item"@)
    ||| user_message_at(v, "msg"@)
}

/// A line that parses as JSON and records a user event.
pub open spec fn user_event_line(line: Seq<char>) -> bool {
    match json_parse(line) {
        Ok(v) => is_user_event(v),
        Err(_) => false,
    }
}

fn str_member_is(v: &JsonValue, key: &str, lit: &str) -> (r: bool)
    ensures
        r == (json_str(json_get(v@, key@)) == Some(lit@)),
{
    match v.get_str(key) {
        Some(s) => is_text(s, lit),
        None => false,
    }
}

fn user_message_at_exec(v: &JsonValue, key: &str) -> (r: bool)
    ensures
        r == user_message_at(v@, key@),
{
    match v.get(key) {
        Some(m) => str_member_is(m, "type", "message") && str_member_is(m, "role", "user"),
        None => false,
    }
}

pub fn line_has_user_event(line: &str) -> (r: bool)
    ensures
        r == user_event_line(line@),
{
    let value = match parse_json(line) {
        Ok(v) => v,
        Err(_) => return false,
    };
    let event_msg = str_member_is(&value, "type", "event_msg") && match value.get("payload") {
        Some(p) => str_member_is(p, "type", "user_message"),
        None => false,
    };
    event_msg || user_message_at_exec(&value, "payload") || user_message_at_exec(&value, "item")
        || user_message_at_exec(&value, "msg")
}

/// `l` without one trailing `\r`.
pub open spec fn strip_cr(l: Seq<char>) -> Seq<char> {
    if l.len() > 0 && l.last() == '\r' {
        l.drop_last()
    } else {
        l
    }
}

/// The lines of `s` after a line already begun with `cur` (`str::lines`: a
/// line ends at `\n`, one `\r` before it is dropped, and a final line
/// ending adds no empty line).
pub open spec fn lines_after(s: Seq<char>, cur: Seq<char>) -> Seq<Seq<char>>
    decreases s.len(),
{
    if s.len() == 0 {
        if cur.len() == 0 {
            Seq::empty()
        } else {
            seq![cur]
        }
    } else if s[0] == '\n' {
        seq![strip_cr(cur)] + lines_after(s.drop_first(), Seq::empty())
    } else {
        lines_after(s.drop_first(), cur.push(s[0]))
    }
}

/// `str::lines`.
pub open spec fn lines_of(s: Seq<char>) -> Seq<Seq<char>> {
    lines_after(s, Seq::empty())
}

pub open spec fn any_user_event_line(lines: Seq<Seq<char>>) -> bool {
    exists|k: int| 0 <= k < lines.len() && user_event_line(#[trigger] lines[k])
}

proof fn lemma_any_cons(x: Seq<char>, rest: Seq<Seq<char>>)
    ensures
        any_user_event_line(seq![x] + rest) == (user_event_line(x) || any_user_event_line(rest)),
{
    let all = seq![x] + rest;
    if any_user_event_line(all) {
        let k = choose|k: int| 0 <= k < all.len() && user_event_line(#[trigger] all[k]);
        if k > 0 {
            assert(rest[k - 1] == all[k]);
        }
    }
    if any_user_event_line(rest) {
        let k = choose|k: int| 0 <= k < rest.len() && user_event_line(#[trigger] rest[k]);
        assert(all[k + 1] == rest[k]);
    }
    if user_event_line(x) {
        assert(all[0] == x);
    }
}

/// Whether some line of `s` records a user event.
pub fn text_has_user_event(s: &[char]) -> (r: bool)
    ensures
        r == any_user_event_line(lines_of(s@)),
{
    let mut cur: Vec<char> = Vec::new();
    let mut i: usize = 0;
    proof {
        assert(s@.skip(0) =~= s@);
    }
    while i < s.len()
        invariant
            i <= s@.len(),
            any_user_event_line(lines_of(s@)) == any_user_event_line(
                lines_after(s@.skip(i as int), cur@),
            ),
        decreases s@.len() - i,
    {
        let ghost rest = s@.skip(i as int);
        proof {
            assert(rest[0] == s@[i as int]);
            assert(rest.drop_first() =~= s@.skip(i + 1));
        }
        if s[i] == '\n' {
            let line = if cur.len() > 0 && cur[cur.len() - 1] == '\r' {
                let mut c = cur;
                c.pop();
                c
            } else {
                cur
            };
            let ghost stripped = line@;
            assert(stripped =~= strip_cr(cur@));
            let text = string_of(&line);
            proof {
                lemma_any_cons(stripped, lines_after(s@.skip(i + 1), Seq::empty()));
            }
            if line_has_user_event(text.as_str()) {
                return true;
            }
            cur = Vec::new();
            assert(cur@ =~= Seq::<char>::empty());
        } else {
            cur.push(s[i]);
        }
        i = i + 1;
    }
    proof {
        let rest = s@.skip(i as int);
        assert(rest.len() == 0);
        if cur@.len() > 0 {
            lemma_any_cons(cur@, Seq::empty());
            assert(seq![cur@] + Seq::<Seq<char>>::empty() =~= seq![cur@]);
        }
    }
    if cur.len() > 0 {
        let text = string_of(&cur);
        line_has_user_event(text.as_str())
    } else {
        false
    }
}

/// The message of the error for a file whose rest is not valid UTF-8.
pub open spec fn invalid_utf8_message() -> Seq<char> {
    "stream did not contain valid UTF-8"@
}

/// The rest of a file after `offset`, decoded as UTF-8 (reading it as a
/// string fails when it is not valid UTF-8).
pub open spec fn rest_text(bytes: Seq<u8>, offset: int) -> Result<Seq<char>, Failure> {
    let rest = bytes.skip(offset);
    if vstd::utf8::valid_utf8(rest) {
        Ok(vstd::utf8::decode_utf8(rest))
    } else {
        Err(Failure::Io(invalid_utf8_message()))
    }
}

fn read_rest(bytes: &[u8], offset: u64) -> (r: Result<Vec<char>, AQBotError>)
    requires
        offset <= bytes@.len(),
    ensures
        match (r, rest_text(bytes@, offset as int)) {
            (Ok(v), Ok(t)) => v@ == t,
            (Err(e), Err(f)) => e@ == f,
            _ => false,
        },
{
    let rest = slice_bytes(bytes, offset as usize, bytes.len());
    assert(rest@ =~= bytes@.skip(offset as int));
    match decode_utf8_bytes(&rest) {
        Some(text) => Ok(chars_of(text.as_str())),
        None => Err(AQBotError::Io(String::from_str("stream did not contain valid UTF-8"))),
    }
}

/// Whether a session file records a user event: in its first line, or else
/// in a line of the rest of the file.
pub open spec fn file_user_event(first_line: Seq<char>, bytes: Seq<u8>, offset: int) -> Result<
    bool,
    Failure,
> {
    if user_event_line(first_line) {
        Ok(true)
    } else {
        match rest_text(bytes, offset) {
            Ok(t) => Ok(any_user_event_line(lines_of(t))),
            Err(f) => Err(f),
        }
    }
}

pub fn file_has_user_event(first_line: &String, bytes: &[u8], offset: u64) -> (r: Result<
    bool,
    AQBotError,
>)
    requires
        offset <= bytes@.len(),
    ensures
        match (r, file_user_event(first_line@, bytes@, offset as int)) {
            (Ok(b), Ok(c)) => b == c,
            (Err(e), Err(f)) => e@ == f,
            _ => false,
        },
{
    if line_has_user_event(first_line.as_str()) {
        return Ok(true);
    }
    match read_rest(bytes, offset) {
        Ok(t) => Ok(text_has_user_event(&t)),
        Err(e) => Err(e),
    }
}

/// Whether a session file mentions `encrypted_content`: in its first line,
/// or else in the rest of the file.
pub open spec fn file_encrypted_content(first_line: Seq<char>, bytes: Seq<u8>, offset: int) -> Result<
    bool,
    Failure,
> {
    if contains_seq(first_line, "encrypted_content"@) {
        Ok(true)
    } else {
        match rest_text(bytes, offset) {
            Ok(t) => Ok(contains_seq(t, "encrypted_content"@)),
            Err(f) => Err(f),
        }
    }
}

pub fn file_has_encrypted_content(first_line: &String, bytes: &[u8], offset: u64) -> (r: Result<
    bool,
    AQBotError,
>)
    requires
        offset <= bytes@.len(),
    ensures
        match (r, file_encrypted_content(first_line@, bytes@, offset as int)) {
            (Ok(b), Ok(c)) => b == c,
            (Err(e), Err(f)) => e@ == f,
            _ => false,
        },
{
    let needle = chars_of("encrypted_content");
    let line = chars_of(first_line.as_str());
    if contains_chars(&line, &needle) {
        return Ok(true);
    }
    match read_rest(bytes, offset) {
        Ok(t) => Ok(contains_chars(&t, &needle)),
        Err(e) => Err(e),
    }
}

/// A session file whose first line is to be rewritten: which file (its
/// position in the list that was scanned), its first line before and after,
/// the separator that ends it and the offset of the rest of the file.
pub struct SessionChange {
    pub file_index: usize,
    pub original_first_line: String,
    pub updated_first_line: String,
    pub separator: String,
    pub offset: u64,
}

pub struct ChangeModel {
    pub file_index: usize,
    pub original_first_line: Seq<char>,
    pub updated_first_line: Seq<char>,
    pub separator: Seq<char>,
    pub offset: u64,
}

impl View for SessionChange {
    type V = ChangeModel;

    open spec fn view(&self) -> ChangeModel {
        ChangeModel {
            file_index: self.file_index,
            original_first_line: self.original_first_line@,
            updated_first_line: self.updated_first_line@,
            separator: self.separator@,
            offset: self.offset,
        }
    }
}

/// What a scan of the session files records: the files to rewrite, the
/// threads with a user event, each thread's working directory, and per
/// provider the number of files that mention encrypted content. The three
/// collections are sorted by key, as `BTreeSet`/`BTreeMap` keep them.
pub struct SessionScan {
    pub changes: Vec<SessionChange>,
    pub user_event_thread_ids: Vec<String>,
    pub thread_cwd_by_id: Vec<(String, String)>,
    pub encrypted_content_by_provider: Vec<(String, usize)>,
}

pub struct ScanModel {
    pub changes: Seq<ChangeModel>,
    pub user_event_thread_ids: Seq<Seq<char>>,
    pub thread_cwd_by_id: Seq<(Seq<char>, Seq<char>)>,
    pub encrypted_content_by_provider: Seq<(Seq<char>, usize)>,
}

/// Pairs of strings taken by view.
pub open spec fn text_pairs(e: Seq<(String, String)>) -> Seq<(Seq<char>, Seq<char>)> {
    Seq::new(e.len(), |i: int| (e[i].0@, e[i].1@))
}

impl View for SessionScan {
    type V = ScanModel;

    open spec fn view(&self) -> ScanModel {
        ScanModel {
            changes: Seq::new(self.changes@.len(), |i: int| self.changes@[i]@),
            user_event_thread_ids: texts(self.user_event_thread_ids@),
            thread_cwd_by_id: text_pairs(self.thread_cwd_by_id@),
            encrypted_content_by_provider: keyed(self.encrypted_content_by_provider@),
        }
    }
}

/// The scan before any file.
pub open spec fn empty_scan() -> ScanModel {
    ScanModel {
        changes: Seq::empty(),
        user_event_thread_ids: Seq::empty(),
        thread_cwd_by_id: Seq::empty(),
        encrypted_content_by_provider: Seq::empty(),
    }
}

impl SessionScan {
    pub fn new() -> (r: SessionScan)
        ensures
            r@ == empty_scan(),
    {
        let r = SessionScan {
            changes: Vec::new(),
            user_event_thread_ids: Vec::new(),
            thread_cwd_by_id: Vec::new(),
            encrypted_content_by_provider: Vec::new(),
        };
        assert(r@.changes =~= Seq::<ChangeModel>::empty());
        assert(r@.user_event_thread_ids =~= Seq::<Seq<char>>::empty());
        assert(r@.thread_cwd_by_id =~= Seq::<(Seq<char>, Seq<char>)>::empty());
        assert(r@.encrypted_content_by_provider =~= Seq::<(Seq<char>, usize)>::empty());
        r
    }
}

/// Every count can still grow by one.
pub open spec fn counts_have_room(m: ScanModel) -> bool {
    forall|i: int|
        0 <= i < m.encrypted_content_by_provider.len()
            ==> #[trigger] m.encrypted_content_by_provider[i].1 < usize::MAX
}

/// Whether the scan can record one more file.
pub fn scan_has_room(scan: &SessionScan) -> (r: bool)
    ensures
        r == counts_have_room(scan@),
{
    let mut i: usize = 0;
    while i < scan.encrypted_content_by_provider.len()
        invariant
            i <= scan.encrypted_content_by_provider@.len(),
            forall|k: int|
                0 <= k < i ==> #[trigger] scan@.encrypted_content_by_provider[k].1 < usize::MAX,
        decreases scan.encrypted_content_by_provider@.len() - i,
    {
        if scan.encrypted_content_by_provider[i].1 == usize::MAX {
            assert(scan@.encrypted_content_by_provider[i as int].1 == usize::MAX);
            return false;
        }
        i = i + 1;
    }
    true
}

pub open spec fn with_cwds(m: ScanModel, cwds: Seq<(Seq<char>, Seq<char>)>) -> ScanModel {
    ScanModel {
        changes: m.changes,
        user_event_thread_ids: m.user_event_thread_ids,
        thread_cwd_by_id: cwds,
        encrypted_content_by_provider: m.encrypted_content_by_provider,
    }
}

pub open spec fn with_user_events(m: ScanModel, ids: Seq<Seq<char>>) -> ScanModel {
    ScanModel {
        changes: m.changes,
        user_event_thread_ids: ids,
        thread_cwd_by_id: m.thread_cwd_by_id,
        encrypted_content_by_provider: m.encrypted_content_by_provider,
    }
}

pub open spec fn with_encrypted(m: ScanModel, counts: Seq<(Seq<char>, usize)>) -> ScanModel {
    ScanModel {
        changes: m.changes,
        user_event_thread_ids: m.user_event_thread_ids,
        thread_cwd_by_id: m.thread_cwd_by_id,
        encrypted_content_by_provider: counts,
    }
}

pub open spec fn with_change(m: ScanModel, c: ChangeModel) -> ScanModel {
    ScanModel {
        changes: m.changes.push(c),
        user_event_thread_ids: m.user_event_thread_ids,
        thread_cwd_by_id: m.thread_cwd_by_id,
        encrypted_content_by_provider: m.encrypted_content_by_provider,
    }
}

/// The thread's working directory recorded (in its desktop form), when the
/// payload names a non-blank one.
pub open spec fn cwd_recorded(m: ScanModel, payload: Json, id: Seq<char>) -> ScanModel {
    match json_str(json_get(payload, "cwd"@)) {
        Some(cwd) => if !is_blank(cwd) {
            with_cwds(m, kv_insert(m.thread_cwd_by_id, id, desktop_path(cwd)))
        } else {
            m
        },
        None => m,
    }
}

/// The count for `provider` raised by one.
pub open spec fn count_raised(counts: Seq<(Seq<char>, usize)>, provider: Seq<char>) -> Seq<
    (Seq<char>, usize),
> {
    kv_insert(
        counts,
        provider,
        match kv_lookup(counts, provider) {
            Some(n) => (n + 1) as usize,
            None => 1usize,
        },
    )
}

/// The thread id that a payload names (empty when it names none).
pub open spec fn payload_thread_id(payload: Json) -> Seq<char> {
    match json_str(json_get(payload, "id"@)) {
        Some(id) => id,
        None => Seq::empty(),
    }
}

/// The facts a session file adds to the scan: its thread's working directory
/// and user event (when the payload names a thread), and whether it mentions
/// encrypted content, counted under `provider`.
pub open spec fn facts_recorded(
    m: ScanModel,
    bytes: Seq<u8>,
    payload: Json,
    provider: Seq<char>,
) -> Result<ScanModel, Failure> {
    let first_line = first_line_text(bytes);
    let offset = first_line_split(bytes).2;
    let id = payload_thread_id(payload);
    let m1 = if id.len() > 0 {
        cwd_recorded(m, payload, id)
    } else {
        m
    };
    let user_event = if id.len() > 0 {
        file_user_event(first_line, bytes, offset)
    } else {
        Ok(false)
    };
    match user_event {
        Err(f) => Err(f),
        Ok(has) => {
            let m2 = if has {
                with_user_events(m1, set_insert(m1.user_event_thread_ids, id))
            } else {
                m1
            };
            match file_encrypted_content(first_line, bytes, offset) {
                Err(f) => Err(f),
                Ok(enc) => Ok(
                    if enc {
                        with_encrypted(m2, count_raised(m2.encrypted_content_by_provider, provider))
                    } else {
                        m2
                    },
                ),
            }
        },
    }
}

/// The provider that a payload records (`(missing)` when it records none).
pub open spec fn payload_provider(payload: Json) -> Seq<char> {
    match json_str(json_get(payload, "model_provider"@)) {
        Some(p) => p,
        None => "(missing)"@,
    }
}

/// Session metadata whose payload names `target` as its provider.
pub open spec fn retargeted(meta: Json, payload: Json, target: Seq<char>) -> Json {
    json_set(meta, "payload"@, json_set(payload, "model_provider"@, Json::Str(target)))
}

/// Retargeting session metadata makes its payload name the target provider
/// and changes nothing else: every other member of the metadata and of the
/// payload reads as before, and sorted keys stay sorted.
pub proof fn lemma_retargeted(meta: Json, target: Seq<char>)
    requires
        json_get(meta, "payload"@) matches Some(Json::Object(_)),
    ensures
        ({
            let payload = json_get(meta, "payload"@)->Some_0;
            let updated = retargeted(meta, payload, target);
            &&& json_get(updated, "payload"@) matches Some(p) && payload_provider(p) == target
                && forall|k: Seq<char>|
                k != "model_provider"@ ==> json_get(p, k) == json_get(payload, k)
            &&& forall|k: Seq<char>| k != "payload"@ ==> json_get(updated, k) == json_get(meta, k)
            &&& json_sorted(meta) ==> json_sorted(updated)
        }),
{
    let payload = json_get(meta, "payload"@)->Some_0;
    let p = json_set(payload, "model_provider"@, Json::Str(target));
    lemma_json_set(payload, "model_provider"@, Json::Str(target));
    lemma_json_set(meta, "payload"@, p);
    if json_sorted(meta) {
        let e = meta->Object_0;
        lemma_kv_lookup_member(e, "payload"@);
        assert(json_sorted(payload));
        assert(json_sorted(Json::Str(target)));
    }
}

/// What scanning one session file (the `file_index`-th, with content
/// `bytes`) does to the scan: files without session metadata, or whose
/// payload is not an object, are skipped; otherwise their facts are
/// recorded, and when their provider is not the target the file is listed
/// with its first line rewritten to name the target.
pub open spec fn rollout_scanned(
    m: ScanModel,
    file_index: usize,
    bytes: Seq<u8>,
    target: Seq<char>,
) -> Result<ScanModel, Failure> {
    match session_meta_of(first_line_text(bytes)) {
        Err(f) => Err(f),
        Ok(meta) => match json_get(meta, "payload"@) {
            Some(Json::Object(e)) => {
                let payload = Json::Object(e);
                let provider = payload_provider(payload);
                match facts_recorded(m, bytes, payload, provider) {
                    Err(f) => Err(f),
                    Ok(m2) => if provider != target {
                        let updated = retargeted(meta, payload, target);
                        match json_compact(updated) {
                            Err(e) => Err(Failure::Gateway(json_error_message(e))),
                            Ok(text) => Ok(
                                with_change(
                                    m2,
                                    ChangeModel {
                                        file_index,
                                        original_first_line: first_line_text(bytes),
                                        updated_first_line: text,
                                        separator: first_line_split(bytes).1,
                                        offset: first_line_split(bytes).2 as u64,
                                    },
                                ),
                            ),
                        }
                    } else {
                        Ok(m2)
                    },
                }
            },
            _ => Ok(m),
        },
    }
}

proof fn lemma_first_line_offset(bytes: Seq<u8>)
    ensures
        0 <= first_line_split(bytes).2 <= bytes.len(),
{
    lemma_byte_index_bounds(bytes, 10, 0);
}

proof fn lemma_lookup_below(e: Seq<(Seq<char>, usize)>, k: Seq<char>)
    requires
        forall|i: int| 0 <= i < e.len() ==> #[trigger] e[i].1 < usize::MAX,
    ensures
        kv_lookup(e, k) matches Some(v) ==> v < usize::MAX,
    decreases e.len(),
{
    if e.len() > 0 && e[0].0 != k {
        assert forall|i: int| 0 <= i < e.drop_first().len() implies #[trigger] e.drop_first()[i].1
            < usize::MAX by {
            assert(e.drop_first()[i] == e[i + 1]);
        }
        lemma_lookup_below(e.drop_first(), k);
    }
}

/// Views of the values of a map from strings to strings.
pub open spec fn value_views(e: Seq<(Seq<char>, String)>) -> Seq<(Seq<char>, Seq<char>)> {
    Seq::new(e.len(), |i: int| (e[i].0, e[i].1@))
}

proof fn lemma_value_views_insert(e: Seq<(Seq<char>, String)>, k: Seq<char>, v: String)
    ensures
        value_views(kv_insert(e, k, v)) == kv_insert(value_views(e), k, v@),
    decreases e.len(),
{
    let ve = value_views(e);
    if e.len() == 0 {
        assert(value_views(kv_insert(e, k, v)) =~= seq![(k, v@)]);
    } else if e[0].0 == k {
        assert(value_views(kv_insert(e, k, v)) =~= ve.update(0, (k, v@)));
    } else if seq_lt(k, e[0].0) {
        assert(value_views(kv_insert(e, k, v)) =~= seq![(k, v@)] + ve);
    } else {
        lemma_value_views_insert(e.drop_first(), k, v);
        assert(value_views(e.drop_first()) =~= ve.drop_first());
        assert(value_views(kv_insert(e, k, v)) =~= seq![ve[0]] + kv_insert(ve.drop_first(), k, v@));
    }
}

/// Scans one session file, the `file_index`-th of the list, whose content is
/// `bytes`, against the target provider.
pub fn collect_rollout_change(
    file_index: usize,
    bytes: &[u8],
    target_provider: &str,
    scan: &mut SessionScan,
) -> (r: Result<(), AQBotError>)
    requires
        counts_have_room(old(scan)@),
    ensures
        match (r, rollout_scanned(old(scan)@, file_index, bytes@, target_provider@)) {
            (Ok(()), Ok(m)) => final(scan)@ == m,
            (Err(e), Err(f)) => e@ == f,
            _ => false,
        },
{
    let ghost m0 = scan@;
    let record = read_first_line_record(bytes);
    proof {
        lemma_first_line_offset(bytes@);
    }
    let mut meta = parse_session_meta(record.first_line.as_str())?;
    let payload = match meta.get("payload") {
        Some(p) => {
            if p.is_object() {
                p.deep_clone()
            } else {
                return Ok(());
            }
        },
        None => return Ok(()),
    };
    let provider = match payload.get_str("model_provider") {
        Some(p) => p.clone(),
        None => String::from_str("(missing)"),
    };
    // the facts of the file
    let id = match payload.get_str("id") {
        Some(i) => i.clone(),
        None => String::new(),
    };
    if !id.as_str().is_empty() {
        match payload.get_str("cwd") {
            Some(cwd) => {
                if !blank(cwd.as_str()) {
                    let d = to_desktop_workspace_path(cwd.as_str());
                    let ghost before = scan.thread_cwd_by_id@;
                    map_put(&mut scan.thread_cwd_by_id, id.clone(), d);
                    proof {
                        assert(value_views(keyed(before)) =~= text_pairs(before));
                        assert(value_views(keyed(scan.thread_cwd_by_id@)) =~= text_pairs(
                            scan.thread_cwd_by_id@,
                        ));
                        lemma_value_views_insert(keyed(before), id@, d);
                    }
                }
            },
            None => {},
        }
        let has = file_has_user_event(&record.first_line, bytes, record.offset)?;
        if has {
            set_put(&mut scan.user_event_thread_ids, id.clone());
        }
    }
    let enc = file_has_encrypted_content(&record.first_line, bytes, record.offset)?;
    if enc {
        proof {
            lemma_lookup_below(keyed(scan.encrypted_content_by_provider@), provider@);
        }
        crate::strmap::map_increment(&mut scan.encrypted_content_by_provider, provider.clone());
    }
    let target = String::from_str(target_provider);
    if provider != target {
        let mut updated_payload = payload;
        json_set_member(
            &mut updated_payload,
            String::from_str("model_provider"),
            JsonValue::Str(target),
        );
        json_set_member(&mut meta, String::from_str("payload"), updated_payload);
        let updated = match to_json_text(&meta) {
            Ok(t) => t,
            Err(e) => return Err(json_error(e)),
        };
        let change = SessionChange {
            file_index,
            original_first_line: record.first_line,
            updated_first_line: updated,
            separator: record.separator,
            offset: record.offset,
        };
        let ghost before = scan.changes@;
        scan.changes.push(change);
        proof {
            assert(Seq::new(scan.changes@.len(), |i: int| scan.changes@[i]@) =~= Seq::new(
                before.len(),
                |i: int| before[i]@,
            ).push(change@));
        }
    }
    Ok(())
}

/// Scanning a session file whose metadata has an object payload lists a
/// change for it exactly when the payload does not name the target as its
/// provider (a missing or non-text provider included, for any target but the
/// placeholder `(missing)`); the change is the file's, keeps its first line
/// and separator, and its new first line is the text of metadata whose
/// payload names the target.
pub proof fn lemma_scan_lists_files_of_other_providers(
    m: ScanModel,
    file_index: usize,
    bytes: Seq<u8>,
    target: Seq<char>,
    meta: Json,
)
    requires
        session_meta_of(first_line_text(bytes)) == Ok::<Json, Failure>(meta),
        json_get(meta, "payload"@) matches Some(Json::Object(_)),
        target != "(missing)"@,
    ensures
        rollout_scanned(m, file_index, bytes, target) matches Ok(m2) ==> {
            let payload = json_get(meta, "payload"@)->Some_0;
            let names_target = json_get(payload, "model_provider"@) == Some(Json::Str(target));
            &&& names_target ==> m2.changes == m.changes
            &&& !names_target ==> {
                &&& m2.changes.len() == m.changes.len() + 1
                &&& m2.changes.drop_last() == m.changes
                &&& m2.changes.last().file_index == file_index
                &&& m2.changes.last().original_first_line == first_line_text(bytes)
                &&& m2.changes.last().separator == first_line_split(bytes).1
                &&& exists|v: Json|
                    #[trigger] json_compact(v) == Ok::<Seq<char>, Seq<char>>(
                        m2.changes.last().updated_first_line,
                    ) && (json_get(v, "payload"@) matches Some(p) && json_get(p, "model_provider"@)
                        == Some(Json::Str(target)))
            }
        },
{
    let payload = json_get(meta, "payload"@)->Some_0;
    let e = payload->Object_0;
    let p2 = json_set(payload, "model_provider"@, Json::Str(target));
    lemma_json_set(payload, "model_provider"@, Json::Str(target));
    lemma_json_set(meta, "payload"@, p2);
    let v = retargeted(meta, payload, target);
    assert(json_get(v, "payload"@) == Some(p2));
    if let Ok(m2) = rollout_scanned(m, file_index, bytes, target) {
        let provider = payload_provider(payload);
        if json_get(payload, "model_provider"@) == Some(Json::Str(target)) {
            assert(provider == target);
        } else {
            reveal_strlit("(missing)");
            assert(provider != target);
            assert(m2.changes.drop_last() =~= m.changes);
            assert(json_compact(v) == Ok::<Seq<char>, Seq<char>>(m2.changes.last().updated_first_line));
        }
    }
}

/// A rewritten file needs no further change: scanning a file whose first
/// line reads back as the retargeted metadata of an earlier scan lists no
/// change for it.
pub proof fn lemma_retargeted_file_needs_no_change(
    m: ScanModel,
    file_index: usize,
    meta: Json,
    rewritten: Seq<u8>,
    target: Seq<char>,
)
    requires
        json_get(meta, "payload"@) matches Some(Json::Object(_)),
        session_meta_of(first_line_text(rewritten)) == Ok::<Json, Failure>(
            retargeted(meta, json_get(meta, "payload"@)->Some_0, target),
        ),
    ensures
        rollout_scanned(m, file_index, rewritten, target) matches Ok(m2) ==> m2.changes == m.changes,
{
    lemma_retargeted(meta, target);
    let payload = json_get(meta, "payload"@)->Some_0;
    let e = payload->Object_0;
    lemma_kv_insert(e, "model_provider"@, Json::Str(target));
}

/// No file of the scan's providers has been counted more than `k` times.
pub open spec fn counts_at_most(m: ScanModel, k: int) -> bool {
    forall|i: int|
        0 <= i < m.encrypted_content_by_provider.len()
            ==> #[trigger] m.encrypted_content_by_provider[i].1 <= k
}

proof fn lemma_count_raised_bound(counts: Seq<(Seq<char>, usize)>, provider: Seq<char>, k: int)
    requires
        0 <= k < usize::MAX,
        forall|i: int| 0 <= i < counts.len() ==> #[trigger] counts[i].1 <= k,
    ensures
        forall|i: int|
            0 <= i < count_raised(counts, provider).len() ==> #[trigger] count_raised(
                counts,
                provider,
            )[i].1 <= k + 1,
{
    lemma_kv_lookup_member(counts, provider);
    let v: usize = match kv_lookup(counts, provider) {
        Some(n) => (n + 1) as usize,
        None => 1usize,
    };
    if kv_lookup(counts, provider) is Some {
        let n = kv_lookup(counts, provider)->Some_0;
        let j = choose|j: int| 0 <= j < counts.len() && #[trigger] counts[j].1 == n;
        assert(n <= k);
    }
    lemma_kv_insert(counts, provider, v);
    let r = count_raised(counts, provider);
    assert forall|i: int| 0 <= i < r.len() implies #[trigger] r[i].1 <= k + 1 by {
        if r[i] != (provider, v) {
            let j = choose|j: int| 0 <= j < counts.len() && counts[j] == r[i];
            assert(counts[j].1 <= k);
        }
    }
}

/// Scanning one more file raises a count by one at most.
proof fn lemma_scanned_counts(m: ScanModel, file_index: usize, bytes: Seq<u8>, target: Seq<char>, k: int)
    requires
        0 <= k < usize::MAX,
        counts_at_most(m, k),
    ensures
        rollout_scanned(m, file_index, bytes, target) matches Ok(m2) ==> counts_at_most(m2, k + 1),
{
    if let Ok(meta) = session_meta_of(first_line_text(bytes)) {
        if let Some(Json::Object(e)) = json_get(meta, "payload"@) {
            let payload = Json::Object(e);
            lemma_count_raised_bound(m.encrypted_content_by_provider, payload_provider(payload), k);
        }
    }
}

/// The scan of a list of files, by their contents (or the error met reading
/// them), in order: the scan of the first `n`, or the first error.
pub open spec fn scanned_files(
    contents: Seq<Result<Vec<u8>, AQBotError>>,
    n: int,
    target: Seq<char>,
) -> Result<ScanModel, Failure>
    decreases n,
{
    if n <= 0 {
        Ok(empty_scan())
    } else {
        match scanned_files(contents, n - 1, target) {
            Err(f) => Err(f),
            Ok(m) => match contents[n - 1] {
                Err(e) => Err(e@),
                Ok(bytes) => rollout_scanned(m, (n - 1) as usize, bytes@, target),
            },
        }
    }
}

proof fn lemma_scanned_prefix(
    s: Seq<Result<Vec<u8>, AQBotError>>,
    t: Seq<Result<Vec<u8>, AQBotError>>,
    n: int,
    target: Seq<char>,
)
    requires
        0 <= n <= s.len(),
        n <= t.len(),
        forall|j: int| 0 <= j < n ==> s[j] == t[j],
    ensures
        scanned_files(s, n, target) == scanned_files(t, n, target),
    decreases n,
{
    if n > 0 {
        lemma_scanned_prefix(s, t, n - 1, target);
    }
}

/// Scans `count` session files in order, reading the `i`-th with
/// `read(i)`; a file's position is its index in the changes listed. It stops
/// at the first error, of reading or of scanning; what was read is
/// `reads`, one result per file read, in order.
pub fn collect_session_changes<F: Fn(usize) -> Result<Vec<u8>, AQBotError>>(
    count: usize,
    read: &F,
    target_provider: &str,
) -> (r: Result<SessionScan, AQBotError>)
    requires
        count < usize::MAX,
        forall|i: usize| i < count ==> read.requires((i,)),
    ensures
        exists|reads: Seq<Result<Vec<u8>, AQBotError>>|
            {
                &&& reads.len() <= count
                &&& forall|j: int| 0 <= j < reads.len() ==> read.ensures((j as usize,), #[trigger] reads[j])
                &&& match r {
                    Ok(s) => reads.len() == count && scanned_files(reads, count as int, target_provider@)
                        == Ok::<ScanModel, Failure>(s@),
                    Err(e) => scanned_files(reads, reads.len() as int, target_provider@) == Err::<
                        ScanModel,
                        Failure,
                    >(e@),
                }
            },
{
    let mut scan = SessionScan::new();
    let ghost mut reads: Seq<Result<Vec<u8>, AQBotError>> = Seq::empty();
    let mut i: usize = 0;
    while i < count
        invariant
            i <= count < usize::MAX,
            forall|k: usize| k < count ==> read.requires((k,)),
            reads.len() == i,
            forall|j: int| 0 <= j < reads.len() ==> read.ensures((j as usize,), #[trigger] reads[j]),
            scanned_files(reads, i as int, target_provider@) == Ok::<ScanModel, Failure>(scan@),
            counts_at_most(scan@, i as int),
        decreases count - i,
    {
        let content = read(i);
        let ghost before = reads;
        proof {
            reads = reads.push(content);
            lemma_scanned_prefix(before, reads, i as int, target_provider@);
            assert(reads[i as int] == content);
        }
        match content {
            Err(e) => {
                return Err(e);
            },
            Ok(bytes) => {
                proof {
                    lemma_scanned_counts(scan@, i, bytes@, target_provider@, i as int);
                }
                let outcome = collect_rollout_change(i, bytes.as_slice(), target_provider, &mut scan);
                if let Err(e) = outcome {
                    return Err(e);
                }
            },
        }
        i = i + 1;
    }
    Ok(scan)
}

/// The content of a file whose first line is replaced: the new line, its
/// separator, then the file from `offset` on.
pub open spec fn first_line_replaced(line: Seq<char>, separator: Seq<char>, bytes: Seq<u8>, offset: int) -> Seq<u8> {
    vstd::utf8::encode_utf8(line) + vstd::utf8::encode_utf8(separator) + bytes.skip(offset)
}

fn push_all(out: &mut Vec<u8>, bytes: &[u8])
    ensures
        final(out)@ == old(out)@ + bytes@,
{
    let mut i: usize = 0;
    while i < bytes.len()
        invariant
            i <= bytes@.len(),
            out@ == old(out)@ + bytes@.take(i as int),
        decreases bytes@.len() - i,
    {
        out.push(bytes[i]);
        assert(bytes@.take(i + 1) =~= bytes@.take(i as int).push(bytes@[i as int]));
        i = i + 1;
    }
    assert(bytes@.take(bytes@.len() as int) =~= bytes@);
}

fn replaced_content(line: &String, separator: &String, bytes: &[u8], offset: u64) -> (r: Vec<u8>)
    requires
        offset <= bytes@.len(),
    ensures
        r@ == first_line_replaced(line@, separator@, bytes@, offset as int),
{
    let mut out: Vec<u8> = Vec::new();
    push_all(&mut out, line.as_str().as_bytes());
    push_all(&mut out, separator.as_str().as_bytes());
    let rest = slice_bytes(bytes, offset as usize, bytes.len());
    push_all(&mut out, &rest);
    assert(out@ =~= first_line_replaced(line@, separator@, bytes@, offset as int));
    out
}

/// Whether a listed change still applies to the file as it is now: its first
/// line and the offset after it are as they were when it was scanned.
pub open spec fn change_applies(change: ChangeModel, current: Seq<u8>) -> bool {
    first_line_text(current) == change.original_first_line && first_line_split(current).2
        == change.offset
}

/// The new content of a listed file, when the change still applies to its
/// current content.
pub fn plan_first_line_rewrite(change: &SessionChange, current: &[u8]) -> (r: Option<Vec<u8>>)
    ensures
        r is Some <==> change_applies(change@, current@),
        r matches Some(b) ==> b@ == first_line_replaced(
            change.updated_first_line@,
            change.separator@,
            current@,
            change.offset as int,
        ),
{
    let now = read_first_line_record(current);
    proof {
        lemma_first_line_offset(current@);
    }
    if now.first_line != change.original_first_line || now.offset != change.offset {
        return None;
    }
    Some(replaced_content(&change.updated_first_line, &change.separator, current, now.offset))
}

/// The content that puts an original first line back in front of a file's
/// current rest.
pub fn restored_content(first_line: &String, separator: &String, current: &[u8]) -> (r: Vec<u8>)
    ensures
        r@ == first_line_replaced(first_line@, separator@, current@, first_line_split(current@).2),
{
    let now = read_first_line_record(current);
    proof {
        lemma_first_line_offset(current@);
    }
    replaced_content(first_line, separator, current, now.offset)
}

/// The bytes of the three separators a first line can end with.
proof fn lemma_separator_bytes()
    ensures
        encode_utf8("\n"@) == seq![10u8],
        encode_utf8("\r\n"@) == seq![13u8, 10u8],
        encode_utf8(""@) == Seq::<u8>::empty(),
{
    reveal_strlit("\n");
    reveal_strlit("\r\n");
    reveal_strlit("");
    assert((10u32 & 0x7F) as u8 == 10u8) by (bit_vector);
    assert((13u32 & 0x7F) as u8 == 13u8) by (bit_vector);
    let a = "\n"@;
    assert(a[0] as u32 == 10);
    assert(a.drop_first() =~= Seq::<char>::empty());
    assert(encode_utf8(a.drop_first()) == Seq::<u8>::empty());
    assert(vstd::utf8::encode_scalar(10) == seq![10u8]);
    assert(encode_utf8("\n"@) =~= seq![10u8]);
    let b = "\r\n"@;
    assert(b[0] as u32 == 13);
    assert(b.drop_first() =~= a);
    assert(vstd::utf8::encode_scalar(13) == seq![13u8]);
    assert(encode_utf8("\r\n"@) =~= seq![13u8, 10u8]);
}

/// Searching `a + b` from inside `a`, where `a` holds no such byte from
/// there on, finds what searching `b` finds, shifted by `a`'s length.
proof fn lemma_byte_index_concat(a: Seq<u8>, b: Seq<u8>, x: u8, i: int)
    requires
        0 <= i <= a.len(),
        byte_index_from(a, x, i) is None,
    ensures
        byte_index_from(a + b, x, i) == match byte_index_from(b, x, 0) {
            Some(k) => Some(k + a.len()),
            None => None::<int>,
        },
    decreases a.len() + b.len() - i,
{
    let ab = a + b;
    if i < a.len() {
        assert(ab[i] == a[i]);
        lemma_byte_index_concat(a, b, x, i + 1);
    } else {
        lemma_byte_index_shift(a, b, x, 0);
    }
}

proof fn lemma_byte_index_shift(a: Seq<u8>, b: Seq<u8>, x: u8, j: int)
    requires
        0 <= j <= b.len(),
    ensures
        byte_index_from(a + b, x, a.len() + j) == match byte_index_from(b, x, j) {
            Some(k) => Some(k + a.len()),
            None => None::<int>,
        },
    decreases b.len() - j,
{
    if j < b.len() {
        assert((a + b)[a.len() + j] == b[j]);
        lemma_byte_index_shift(a, b, x, j + 1);
    }
}

/// Putting the original first line back undoes a rewrite: the file comes
/// back byte for byte, for a change that applied to it, whose separator is
/// the file's, whose original line is the text of the file's first line
/// (valid UTF-8) and whose new line holds no line feed.
pub proof fn lemma_restore_undoes_rewrite(change: ChangeModel, original: Seq<u8>)
    requires
        change_applies(change, original),
        change.separator == first_line_split(original).1,
        encode_utf8(change.original_first_line) == first_line_split(original).0,
        byte_index_from(encode_utf8(change.updated_first_line), 10, 0) is None,
    ensures
        ({
            let rewritten = first_line_replaced(
                change.updated_first_line,
                change.separator,
                original,
                change.offset as int,
            );
            first_line_replaced(
                change.original_first_line,
                change.separator,
                rewritten,
                first_line_split(rewritten).2,
            ) == original
        }),
{
    lemma_separator_bytes();
    lemma_byte_index_bounds(original, 10, 0);
    let u = encode_utf8(change.updated_first_line);
    let sep = encode_utf8(change.separator);
    let offset = change.offset as int;
    let rest = original.skip(offset);
    let rewritten = first_line_replaced(change.updated_first_line, change.separator, original, offset);
    assert(rewritten == u + (sep + rest));
    lemma_byte_index_concat(u, sep + rest, 10, 0);
    match byte_index_from(original, 10, 0) {
        Some(i) => {
            if i > 0 && original[i - 1] == 13 {
                assert(sep + rest == seq![13u8, 10u8] + rest);
                let t = seq![13u8, 10u8] + rest;
                assert(t[0] == 13u8 && t[1] == 10u8);
                assert(byte_index_from(t, 10, 1) == Some(1int));
                assert(byte_index_from(t, 10, 0) == Some(1int));
                assert(first_line_split(rewritten).2 == u.len() + 2);
                assert(rewritten.skip(u.len() + 2int) =~= rest);
                assert(original =~= original.take(i - 1) + seq![13u8, 10u8] + original.skip(i + 1));
            } else {
                assert(sep + rest == seq![10u8] + rest);
                assert(byte_index_from(seq![10u8] + rest, 10, 0) == Some(0int));
                assert(first_line_split(rewritten).2 == u.len() + 1);
                assert(rewritten.skip(u.len() + 1int) =~= rest);
                assert(original =~= original.take(i) + seq![10u8] + original.skip(i + 1));
            }
        },
        None => {
            assert(rest.len() == 0);
            assert(sep + rest =~= Seq::<u8>::empty());
            assert(rewritten =~= u);
            assert(first_line_split(rewritten).2 == u.len());
            assert(rewritten.skip(u.len() as int) =~= Seq::<u8>::empty());
            assert(encode_utf8(change.original_first_line) + Seq::<u8>::empty() + Seq::<u8>::empty() =~= original);
        },
    }
}

} // verus!
