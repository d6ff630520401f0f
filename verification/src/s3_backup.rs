//! Backups kept in an S3 bucket: the configuration, object keys under the
//! configured prefix, which objects are backups, their order, and the
//! messages given for failed requests.
use vstd::prelude::*;

use crate::error::AQBotError;
use crate::text::{
    blank, chars_lt, chars_of, ends_with, ends_with_chars, is_blank, seq_lt, slice_chars,
    starts_with, starts_with_chars, string_of, trim, trim_by, trim_chars, trim_start_by,
    trim_start_chars, trim_str, texts, joined, join_strings, CharSet, lemma_seq_lt_irreflexive,
    lemma_seq_lt_transitive, lemma_trim_end_all, lemma_trim_start_all, trim_end_by,
};

verus! {

/// Seconds allowed to open a connection.
pub const S3_CONNECT_TIMEOUT_SECS: u64 = 10;

/// Seconds allowed between reads of a response.
pub const S3_READ_TIMEOUT_SECS: u64 = 30;

/// Seconds allowed for one attempt of an operation.
pub const S3_OPERATION_ATTEMPT_TIMEOUT_SECS: u64 = 300;

/// Seconds allowed for an operation, retries included.
pub const S3_OPERATION_TIMEOUT_SECS: u64 = 900;

/// Attempts made of each request.
pub const S3_MAX_ATTEMPTS: u32 = 5;

/// Where and how backups are kept.
#[derive(Clone, Debug)]
pub struct S3Config {
    pub bucket: String,
    pub region: String,
    pub prefix: String,
    pub endpoint_url: Option<String>,
    pub force_path_style: bool,
    pub use_default_credentials: bool,
    pub access_key_id: String,
    pub secret_access_key: String,
    pub session_token: Option<String>,
}

impl Default for S3Config {
    fn default() -> (r: Self)
        ensures
            r.bucket@.len() == 0,
            r.region@.len() == 0,
            r.prefix@.len() == 0,
            r.endpoint_url is None,
            !r.force_path_style,
            !r.use_default_credentials,
            r.access_key_id@.len() == 0,
            r.secret_access_key@.len() == 0,
            r.session_token is None,
    {
        S3Config {
            bucket: String::new(),
            region: String::new(),
            prefix: String::new(),
            endpoint_url: None,
            force_path_style: false,
            use_default_credentials: false,
            access_key_id: String::new(),
            secret_access_key: String::new(),
            session_token: None,
        }
    }
}

/// A backup found in the bucket.
#[derive(Clone, Debug)]
pub struct S3FileInfo {
    pub file_name: String,
    pub size: i64,
    pub last_modified: String,
    pub hostname: String,
}

/// The message of the first requirement that `config` misses, if any.
pub open spec fn config_problem(config: S3Config) -> Option<Seq<char>> {
    if is_blank(config.bucket@) {
        Some("S3 bucket is required"@)
    } else if is_blank(config.region@) {
        Some("S3 region is required"@)
    } else if !config.use_default_credentials && is_blank(config.access_key_id@) {
        Some("S3 access key ID is required"@)
    } else if !config.use_default_credentials && is_blank(config.secret_access_key@) {
        Some("S3 secret access key is required"@)
    } else {
        None
    }
}

/// Checks that the configuration names a bucket and a region and, unless the
/// default credentials are used, an access key and its secret.
pub fn validate_config(config: &S3Config) -> (r: Result<(), AQBotError>)
    ensures
        r is Ok <==> config_problem(*config) is None,
        r matches Err(e) ==> e matches AQBotError::Gateway(m) && Some(m@) == config_problem(
            *config,
        ),
{
    if blank(config.bucket.as_str()) {
        return Err(AQBotError::Gateway(String::from_str("S3 bucket is required")));
    }
    if blank(config.region.as_str()) {
        return Err(AQBotError::Gateway(String::from_str("S3 region is required")));
    }
    if !config.use_default_credentials {
        if blank(config.access_key_id.as_str()) {
            return Err(AQBotError::Gateway(String::from_str("S3 access key ID is required")));
        }
        if blank(config.secret_access_key.as_str()) {
            return Err(AQBotError::Gateway(String::from_str("S3 secret access key is required")));
        }
    }
    Ok(())
}

/// The bucket's name: the configured one without surrounding whitespace.
pub fn bucket_name(config: &S3Config) -> (r: String)
    ensures
        r@ == trim(config.bucket@),
{
    let t = trim_str(config.bucket.as_str(), CharSet::Whitespace);
    string_of(&t)
}

/// The value of an optional text setting: trimmed, and absent when blank.
pub open spec fn optional_setting(value: Option<String>) -> Option<Seq<char>> {
    match value {
        Some(v) => if trim(v@).len() == 0 {
            None
        } else {
            Some(trim(v@))
        },
        None => None,
    }
}

fn trimmed_nonempty(value: &Option<String>) -> (r: Option<String>)
    ensures
        r is Some <==> optional_setting(*value) is Some,
        r matches Some(s) ==> Some(s@) == optional_setting(*value),
{
    match value {
        Some(v) => {
            let t = trim_str(v.as_str(), CharSet::Whitespace);
            if t.len() == 0 {
                None
            } else {
                Some(string_of(&t))
            }
        },
        None => None,
    }
}

/// The endpoint to use in place of AWS's, when one is configured.
pub fn normalized_endpoint(config: &S3Config) -> (r: Option<String>)
    ensures
        r is Some <==> optional_setting(config.endpoint_url) is Some,
        r matches Some(s) ==> Some(s@) == optional_setting(config.endpoint_url),
{
    trimmed_nonempty(&config.endpoint_url)
}

/// The session token that goes with explicit credentials, when one is configured.
pub fn normalized_session_token(config: &S3Config) -> (r: Option<String>)
    ensures
        r is Some <==> optional_setting(config.session_token) is Some,
        r matches Some(s) ==> Some(s@) == optional_setting(config.session_token),
{
    trimmed_nonempty(&config.session_token)
}

/// The region's name: the configured one without surrounding whitespace.
pub fn region_name(config: &S3Config) -> (r: String)
    ensures
        r@ == trim(config.region@),
{
    string_of(&trim_str(config.region.as_str(), CharSet::Whitespace))
}

/// Explicit credentials, as they are handed to the SDK.
pub struct S3Credentials {
    pub access_key_id: String,
    pub secret_access_key: String,
    pub session_token: Option<String>,
}

/// The credentials to sign requests with, unless the SDK's default chain is
/// used: the access key and secret trimmed, and the session token when one
/// is configured.
pub fn explicit_credentials(config: &S3Config) -> (r: Option<S3Credentials>)
    ensures
        r is Some <==> !config.use_default_credentials,
        r matches Some(c) ==> {
            &&& c.access_key_id@ == trim(config.access_key_id@)
            &&& c.secret_access_key@ == trim(config.secret_access_key@)
            &&& (c.session_token is Some <==> optional_setting(config.session_token) is Some)
            &&& (c.session_token matches Some(t) ==> Some(t@) == optional_setting(config.session_token))
        },
{
    if config.use_default_credentials {
        return None;
    }
    Some(S3Credentials {
        access_key_id: string_of(&trim_str(config.access_key_id.as_str(), CharSet::Whitespace)),
        secret_access_key: string_of(&trim_str(config.secret_access_key.as_str(), CharSet::Whitespace)),
        session_token: normalized_session_token(config),
    })
}

/// The prefix under which backups are kept: trimmed, without slashes at
/// either end, and followed by one slash unless it is empty.
pub open spec fn normalized_prefix(prefix: Seq<char>) -> Seq<char> {
    let t = trim_by(trim(prefix), CharSet::One('/'));
    if t.len() == 0 {
        Seq::empty()
    } else {
        t.push('/')
    }
}

pub fn normalize_prefix(prefix: &str) -> (r: String)
    ensures
        r@ == normalized_prefix(prefix@),
{
    let t = trim_str(prefix, CharSet::Whitespace);
    let t = trim_chars(&t, CharSet::One('/'));
    if t.len() == 0 {
        String::new()
    } else {
        let mut v = t;
        v.push('/');
        string_of(&v)
    }
}

/// The key of a backup file: the normalized prefix, then the file name
/// without leading slashes.
pub open spec fn object_key_of(prefix: Seq<char>, filename: Seq<char>) -> Seq<char> {
    normalized_prefix(prefix) + trim_start_by(filename, CharSet::One('/'))
}

pub fn object_key(prefix: &str, filename: &str) -> (r: String)
    ensures
        r@ == object_key_of(prefix@, filename@),
{
    let p = normalize_prefix(prefix);
    let f = chars_of(filename);
    let f = trim_start_chars(&f, CharSet::One('/'));
    let f = string_of(&f);
    p.concat(f.as_str())
}

pub open spec fn has_char(s: Seq<char>, c: char) -> bool {
    exists|i: int| 0 <= i < s.len() && s[i] == c
}

pub fn contains_char(s: &[char], c: char) -> (r: bool)
    ensures
        r == has_char(s@, c),
{
    let mut i: usize = 0;
    while i < s.len()
        invariant
            i <= s@.len(),
            forall|k: int| 0 <= k < i ==> s@[k] != c,
        decreases s@.len() - i,
    {
        if s[i] == c {
            return true;
        }
        i = i + 1;
    }
    false
}

/// A name that the application gives its backups: no directory part,
/// `aqbot-backup-` in front and `.zip` at the end.
pub open spec fn is_backup_file_name(name: Seq<char>) -> bool {
    &&& !has_char(name, '/')
    &&& starts_with(name, "aqbot-backup-"@)
    &&& ends_with(name, ".zip"@)
}

/// `s` without the prefix `p` when it has it, else `s` (`strip_prefix(..).unwrap_or(..)`).
pub open spec fn without_prefix(s: Seq<char>, p: Seq<char>) -> Seq<char> {
    if starts_with(s, p) {
        s.skip(p.len() as int)
    } else {
        s
    }
}

/// The file name of the object with the given key, when it is a backup that
/// lies directly under the prefix.
pub open spec fn backup_name_of_key(prefix: Seq<char>, key: Seq<char>) -> Option<Seq<char>> {
    let name = without_prefix(key, prefix);
    if is_backup_file_name(name) {
        Some(name)
    } else {
        None
    }
}

pub fn backup_file_name_from_key(prefix: &str, key: &str) -> (r: Option<String>)
    ensures
        r is Some <==> backup_name_of_key(prefix@, key@) is Some,
        r matches Some(s) ==> Some(s@) == backup_name_of_key(prefix@, key@),
{
    let p = chars_of(prefix);
    let k = chars_of(key);
    let name = if starts_with_chars(&k, &p) {
        slice_chars(&k, p.len(), k.len())
    } else {
        k
    };
    assert(name@ == without_prefix(key@, prefix@)) by {
        if starts_with(key@, prefix@) {
            assert(name@ =~= key@.skip(prefix@.len() as int));
        }
    }
    let head = chars_of("aqbot-backup-");
    let tail = chars_of(".zip");
    if contains_char(&name, '/') || !starts_with_chars(&name, &head) || !ends_with_chars(
        &name,
        &tail,
    ) {
        return None;
    }
    Some(string_of(&name))
}

/// `sorted` with `x` placed before its first element whose name sorts
/// strictly below `x`'s: one step of a stable sort, newest name first.
pub open spec fn insert_newest_first(sorted: Seq<S3FileInfo>, x: S3FileInfo) -> Seq<S3FileInfo>
    decreases sorted.len(),
{
    if sorted.len() == 0 {
        seq![x]
    } else if seq_lt(sorted[0].file_name@, x.file_name@) {
        seq![x] + sorted
    } else {
        seq![sorted[0]] + insert_newest_first(sorted.drop_first(), x)
    }
}

/// The files in descending order of name; files with equal names keep their
/// order (a stable sort, as `sort_by` is).
pub open spec fn newest_first(files: Seq<S3FileInfo>) -> Seq<S3FileInfo>
    decreases files.len(),
{
    if files.len() == 0 {
        Seq::empty()
    } else {
        insert_newest_first(newest_first(files.drop_last()), files.last())
    }
}

fn insert_by_name(sorted: &mut Vec<S3FileInfo>, x: S3FileInfo)
    ensures
        final(sorted)@ == insert_newest_first(old(sorted)@, x),
{
    let xn = chars_of(x.file_name.as_str());
    let mut i: usize = 0;
    proof {
        assert(sorted@.skip(0) =~= sorted@);
        assert(sorted@.take(0) + sorted@ =~= sorted@);
    }
    while i < sorted.len()
        invariant
            i <= sorted@.len(),
            sorted@ == old(sorted)@,
            xn@ == x.file_name@,
            insert_newest_first(sorted@, x) == sorted@.take(i as int) + insert_newest_first(
                sorted@.skip(i as int),
                x,
            ),
        ensures
            i <= sorted@.len(),
            sorted@ == old(sorted)@,
            insert_newest_first(sorted@, x) == sorted@.take(i as int) + insert_newest_first(
                sorted@.skip(i as int),
                x,
            ),
            i < sorted@.len() ==> seq_lt(sorted@[i as int].file_name@, x.file_name@),
        decreases sorted@.len() - i,
    {
        let name = chars_of(sorted[i].file_name.as_str());
        if chars_lt(&name, &xn) {
            break;
        }
        proof {
            let rest = sorted@.skip(i as int);
            assert(rest[0] == sorted@[i as int]);
            assert(rest.drop_first() =~= sorted@.skip(i + 1));
            assert(sorted@.take(i + 1) =~= sorted@.take(i as int) + seq![rest[0]]);
        }
        i = i + 1;
    }
    proof {
        let rest = sorted@.skip(i as int);
        if i < sorted@.len() {
            assert(rest[0] == sorted@[i as int]);
            assert(insert_newest_first(rest, x) == seq![x] + rest);
        } else {
            assert(rest.len() == 0);
            assert(insert_newest_first(rest, x) == seq![x]);
        }
        assert(sorted@.insert(i as int, x) =~= sorted@.take(i as int) + insert_newest_first(
            rest,
            x,
        ));
    }
    sorted.insert(i, x);
}

/// Orders backups newest first by file name (the names carry the time of the
/// backup).
pub fn sort_backup_files(files: &mut Vec<S3FileInfo>)
    ensures
        final(files)@ == newest_first(old(files)@),
{
    let mut input: Vec<S3FileInfo> = Vec::new();
    std::mem::swap(files, &mut input);
    let ghost all = input@;
    let total = input.len();
    assert(all.len() == total);
    let mut sorted: Vec<S3FileInfo> = Vec::new();
    let mut done: usize = 0;
    while input.len() > 0
        invariant
            done + input@.len() == all.len(),
            all.len() <= usize::MAX,
            input@ == all.skip(done as int),
            sorted@ == newest_first(all.take(done as int)),
        decreases input@.len(),
    {
        let x = input.remove(0);
        proof {
            assert(all.take(done + 1).drop_last() =~= all.take(done as int));
            assert(all.take(done + 1).last() == all[done as int]);
            assert(input@ =~= all.skip(done + 1));
        }
        insert_by_name(&mut sorted, x);
        done = done + 1;
    }
    proof {
        assert(all.take(all.len() as int) =~= all);
    }
    *files = sorted;
}

/// The message of an error and of each error that caused it, outermost
/// first, joined with `": "`.
pub open spec fn chain_text(parts: Seq<String>) -> Seq<char> {
    joined(texts(parts), ": "@)
}

pub fn error_chain(parts: &Vec<String>) -> (r: String)
    ensures
        r@ == chain_text(parts@),
{
    join_strings(parts, ": ")
}

/// What the S3 client reported about a failed request, as text.
pub enum S3FailureKind {
    /// The request ran out of time.
    Timeout,
    /// The request could not be sent or its answer not received.
    Dispatch {
        is_timeout: bool,
        is_io: bool,
        is_user: bool,
        /// The messages of the connector's error and its causes, when there is one.
        connector_chain: Option<Vec<String>>,
    },
    /// The service answered with an error.
    Service { code: Option<String>, message: Option<String>, display: String },
    /// Any other failure.
    Other,
}

/// A failed S3 request: its kind, the messages of the errors that caused it
/// (when it has a cause) and its own message.
pub struct S3RequestFailure {
    pub kind: S3FailureKind,
    pub source_chain: Option<Vec<String>>,
    pub display: String,
}

/// The failure's causes as text, or its own message when it has none.
pub open spec fn failure_details(err: S3RequestFailure) -> Seq<char> {
    match err.source_chain {
        Some(parts) => chain_text(parts@),
        None => err.display@,
    }
}

fn sdk_error_chain(err: &S3RequestFailure) -> (r: String)
    ensures
        r@ == failure_details(*err),
{
    match &err.source_chain {
        Some(parts) => error_chain(parts),
        None => err.display.clone(),
    }
}

/// What a service error says of itself: its code and message, or whichever
/// of them it has, or its display text; nothing when all are blank.
pub open spec fn service_details(
    code: Option<String>,
    message: Option<String>,
    display: Seq<char>,
) -> Option<Seq<char>> {
    match (code, message) {
        (Some(c), Some(m)) if !is_blank(m@) => Some(c@ + ": "@ + m@),
        (Some(c), _) => Some(c@),
        (_, Some(m)) if !is_blank(m@) => Some(m@),
        _ => if !is_blank(display) {
            Some(display)
        } else {
            None
        },
    }
}

pub fn service_error_details(code: &Option<String>, message: &Option<String>, display: &String) -> (r:
    Option<String>)
    ensures
        r is Some <==> service_details(*code, *message, display@) is Some,
        r matches Some(s) ==> Some(s@) == service_details(*code, *message, display@),
{
    match (code, message) {
        (Some(c), Some(m)) if !blank(m.as_str()) => {
            let r = c.clone().concat(": ").concat(m.as_str());
            Some(r)
        },
        (Some(c), _) => Some(c.clone()),
        (_, Some(m)) if !blank(m.as_str()) => Some(m.clone()),
        _ => if !blank(display.as_str()) {
            Some(display.clone())
        } else {
            None
        },
    }
}

/// The kind of network failure named in the message.
pub open spec fn dispatch_kind(is_timeout: bool, is_io: bool, is_user: bool) -> Seq<char> {
    if is_timeout {
        "timeout"@
    } else if is_io {
        "I/O"@
    } else if is_user {
        "request"@
    } else {
        "transport"@
    }
}

/// The message given to the user when an S3 request for `action` fails.
pub open spec fn s3_failure_message(action: Seq<char>, err: S3RequestFailure) -> Seq<char> {
    let prefix = "S3 "@ + action + " failed"@;
    match err.kind {
        S3FailureKind::Timeout => prefix + ": request timed out. Details: "@ + failure_details(err),
        S3FailureKind::Dispatch { is_timeout, is_io, is_user, connector_chain } => {
            let details = match connector_chain {
                Some(parts) => chain_text(parts@),
                None => failure_details(err),
            };
            prefix + ": network request failed ("@ + dispatch_kind(is_timeout, is_io, is_user)
                + "). Check S3 endpoint, proxy, DNS, and network connectivity. Details: "@
                + details
        },
        S3FailureKind::Service { code, message, display } => {
            let details = match service_details(code, message, display@) {
                Some(d) => d,
                None => failure_details(err),
            };
            prefix + ": "@ + details
        },
        S3FailureKind::Other => prefix + ": "@ + failure_details(err),
    }
}

pub fn format_s3_sdk_error(action: &str, err: &S3RequestFailure) -> (r: String)
    ensures
        r@ == s3_failure_message(action@, *err),
{
    let prefix = String::from_str("S3 ").concat(action).concat(" failed");
    match &err.kind {
        S3FailureKind::Timeout => {
            let chain = sdk_error_chain(err);
            prefix.concat(": request timed out. Details: ").concat(chain.as_str())
        },
        S3FailureKind::Dispatch { is_timeout, is_io, is_user, connector_chain } => {
            let kind = if *is_timeout {
                "timeout"
            } else if *is_io {
                "I/O"
            } else if *is_user {
                "request"
            } else {
                "transport"
            };
            let details = match connector_chain {
                Some(parts) => error_chain(parts),
                None => sdk_error_chain(err),
            };
            prefix.concat(": network request failed (").concat(kind).concat(
                "). Check S3 endpoint, proxy, DNS, and network connectivity. Details: ",
            ).concat(details.as_str())
        },
        S3FailureKind::Service { code, message, display } => {
            let details = match service_error_details(code, message, display) {
                Some(d) => d,
                None => sdk_error_chain(err),
            };
            prefix.concat(": ").concat(details.as_str())
        },
        S3FailureKind::Other => {
            let chain = sdk_error_chain(err);
            prefix.concat(": ").concat(chain.as_str())
        },
    }
}

/// An object that a listing of the bucket returned: its key, size and
/// last modification (as text), when the listing gave them.
pub struct S3ObjectSummary {
    pub key: Option<String>,
    pub size: Option<i64>,
    pub last_modified: Option<String>,
}

/// One page of a listing of the bucket.
pub struct S3ListPage {
    pub objects: Vec<S3ObjectSummary>,
    pub is_truncated: Option<bool>,
    pub next_continuation_token: Option<String>,
}

/// The backups on a page: for each object whose key names a backup directly
/// under the prefix, its file name, its size (0 when unknown) and its last
/// modification (empty when unknown), in the page's order.
pub open spec fn page_backups(prefix: Seq<char>, objects: Seq<S3ObjectSummary>) -> Seq<
    (Seq<char>, i64, Seq<char>),
>
    decreases objects.len(),
{
    if objects.len() == 0 {
        Seq::empty()
    } else {
        let prev = page_backups(prefix, objects.drop_last());
        let o = objects.last();
        match o.key {
            Some(k) => match backup_name_of_key(prefix, k@) {
                Some(name) => prev.push(
                    (
                        name,
                        match o.size {
                            Some(n) => n,
                            None => 0,
                        },
                        match o.last_modified {
                            Some(t) => t@,
                            None => Seq::empty(),
                        },
                    ),
                ),
                None => prev,
            },
            None => prev,
        }
    }
}

/// Where a listing goes after a page: on with the continuation token when
/// the page was truncated and gave one, else it is complete.
pub open spec fn next_page_token(page: S3ListPage) -> Option<Seq<char>> {
    if page.is_truncated == Some(true) {
        match page.next_continuation_token {
            Some(t) => Some(t@),
            None => None,
        }
    } else {
        None
    }
}

/// Adds the backups of a listing page to `files` (naming each one's host
/// with `hostname_of`, from its file name) and gives the token of the next
/// page, if the listing goes on.
pub fn collect_backup_page<F: Fn(&String) -> String>(
    prefix: &str,
    page: &S3ListPage,
    hostname_of: &F,
    files: &mut Vec<S3FileInfo>,
) -> (r: Option<String>)
    requires
        forall|name: &String| hostname_of.requires((name,)),
    ensures
        final(files)@.len() == old(files)@.len() + page_backups(prefix@, page.objects@).len(),
        forall|i: int| 0 <= i < old(files)@.len() ==> final(files)@[i] == old(files)@[i],
        forall|i: int|
            0 <= i < page_backups(prefix@, page.objects@).len() ==> {
                let f = #[trigger] final(files)@[old(files)@.len() + i];
                let b = page_backups(prefix@, page.objects@)[i];
                &&& f.file_name@ == b.0
                &&& f.size == b.1
                &&& f.last_modified@ == b.2
                &&& hostname_of.ensures((&f.file_name,), f.hostname)
            },
        match r {
            Some(t) => next_page_token(*page) == Some(t@),
            None => next_page_token(*page) is None,
        },
{
    let ghost start = files@;
    let ghost objs = page.objects@;
    let mut i: usize = 0;
    while i < page.objects.len()
        invariant
            i <= objs.len(),
            objs == page.objects@,
            forall|name: &String| hostname_of.requires((name,)),
            files@.len() == start.len() + page_backups(prefix@, objs.take(i as int)).len(),
            forall|k: int| 0 <= k < start.len() ==> files@[k] == start[k],
            forall|k: int|
                0 <= k < page_backups(prefix@, objs.take(i as int)).len() ==> {
                    let f = #[trigger] files@[start.len() + k];
                    let b = page_backups(prefix@, objs.take(i as int))[k];
                    &&& f.file_name@ == b.0
                    &&& f.size == b.1
                    &&& f.last_modified@ == b.2
                    &&& hostname_of.ensures((&f.file_name,), f.hostname)
                },
        decreases objs.len() - i,
    {
        proof {
            assert(objs.take(i + 1).drop_last() =~= objs.take(i as int));
            assert(objs.take(i + 1).last() == objs[i as int]);
        }
        let o = &page.objects[i];
        match &o.key {
            Some(key) => {
                match backup_file_name_from_key(prefix, key.as_str()) {
                    Some(file_name) => {
                        let hostname = hostname_of(&file_name);
                        let size = match o.size {
                            Some(n) => n,
                            None => 0,
                        };
                        let last_modified = match &o.last_modified {
                            Some(t) => t.clone(),
                            None => String::new(),
                        };
                        files.push(S3FileInfo { file_name, size, last_modified, hostname });
                    },
                    None => {},
                }
            },
            None => {},
        }
        i = i + 1;
    }
    assert(objs.take(objs.len() as int) =~= objs);
    let truncated = match page.is_truncated {
        Some(t) => t,
        None => false,
    };
    if !truncated {
        return None;
    }
    match &page.next_continuation_token {
        Some(t) => Some(t.clone()),
        None => None,
    }
}

/// A backup's object key gives its file name back: whatever the configured
/// prefix, the key under which a backup file is stored is recognised as that
/// backup under the normalized prefix.
pub proof fn lemma_object_key_names_backup(prefix: Seq<char>, name: Seq<char>)
    requires
        is_backup_file_name(name),
    ensures
        backup_name_of_key(normalized_prefix(prefix), object_key_of(prefix, name)) == Some(name),
{
    reveal_strlit("aqbot-backup-");
    assert(name.take(13) == "aqbot-backup-"@);
    assert(name[0] == name.take(13)[0]);
    assert(trim_start_by(name, CharSet::One('/')) == name);
    let p = normalized_prefix(prefix);
    let key = object_key_of(prefix, name);
    assert(key == p + name);
    assert(key.take(p.len() as int) =~= p);
    assert(key.skip(p.len() as int) =~= name);
}

/// A normalized prefix is empty, or a path that neither starts nor ends with
/// a slash followed by exactly one slash; so no object key starts with a
/// slash.
pub proof fn lemma_normalized_prefix_shape(prefix: Seq<char>, filename: Seq<char>)
    ensures
        normalized_prefix(prefix).len() == 0 || ({
            let p = normalized_prefix(prefix);
            &&& p.len() >= 2
            &&& p.last() == '/'
            &&& p[0] != '/'
            &&& p[p.len() - 2] != '/'
        }),
        object_key_of(prefix, filename).len() > 0 ==> object_key_of(prefix, filename)[0] != '/',
{
    let slash = CharSet::One('/');
    let w = trim(prefix);
    let a = trim_start_by(w, slash);
    let t = trim_end_by(a, slash);
    lemma_trim_start_all(w, slash);
    lemma_trim_end_all(a, slash);
    if t.len() > 0 {
        assert(t[0] == a[0]);
        let p = normalized_prefix(prefix);
        assert(p == t.push('/'));
        assert(p[p.len() - 2] == t.last());
    }
    let f = trim_start_by(filename, slash);
    lemma_trim_start_all(filename, slash);
    let key = object_key_of(prefix, filename);
    if t.len() == 0 && key.len() > 0 {
        assert(key =~= f);
    }
}

/// No file name sorts above an earlier one.
pub open spec fn names_descending(files: Seq<S3FileInfo>) -> bool {
    forall|i: int, j: int|
        0 <= i < j < files.len() ==> !seq_lt(#[trigger] files[i].file_name@, #[trigger] files[j].file_name@)
}

/// Where `insert_newest_first` puts `x`: after each file whose name does not
/// sort below it, before the first that does.
proof fn lemma_insert_position(sorted: Seq<S3FileInfo>, x: S3FileInfo) -> (k: int)
    ensures
        0 <= k <= sorted.len(),
        insert_newest_first(sorted, x) == sorted.insert(k, x),
        forall|i: int| 0 <= i < k ==> !seq_lt(#[trigger] sorted[i].file_name@, x.file_name@),
        k < sorted.len() ==> seq_lt(sorted[k].file_name@, x.file_name@),
    decreases sorted.len(),
{
    if sorted.len() == 0 {
        assert(seq![x] =~= sorted.insert(0, x));
        0
    } else if seq_lt(sorted[0].file_name@, x.file_name@) {
        assert(seq![x] + sorted =~= sorted.insert(0, x));
        0
    } else {
        let rest = sorted.drop_first();
        let k = lemma_insert_position(rest, x);
        assert(seq![sorted[0]] + rest.insert(k, x) =~= sorted.insert(k + 1, x));
        assert forall|i: int| 0 <= i < k + 1 implies !seq_lt(#[trigger] sorted[i].file_name@, x.file_name@) by {
            if i > 0 {
                assert(sorted[i] == rest[i - 1]);
            }
        }
        if k < rest.len() {
            assert(sorted[k + 1] == rest[k]);
        }
        k + 1
    }
}

proof fn lemma_insert_keeps_descending(sorted: Seq<S3FileInfo>, x: S3FileInfo)
    requires
        names_descending(sorted),
    ensures
        names_descending(insert_newest_first(sorted, x)),
        insert_newest_first(sorted, x).to_multiset() == sorted.to_multiset().insert(x),
{
    broadcast use vstd::seq_lib::group_to_multiset_ensures;

    let k = lemma_insert_position(sorted, x);
    let r = sorted.insert(k, x);
    assert forall|i: int, j: int| 0 <= i < j < r.len() implies !seq_lt(#[trigger] r[i].file_name@, #[trigger] r[j].file_name@) by {
        if i < k && j < k {
            assert(r[i] == sorted[i] && r[j] == sorted[j]);
        } else if i < k && j == k {
            assert(r[i] == sorted[i] && r[j] == x);
        } else if i < k {
            assert(r[i] == sorted[i] && r[j] == sorted[j - 1]);
        } else if i == k {
            assert(r[i] == x && r[j] == sorted[j - 1]);
            if seq_lt(x.file_name@, sorted[j - 1].file_name@) {
                lemma_seq_lt_transitive(sorted[k].file_name@, x.file_name@, sorted[j - 1].file_name@);
                if j - 1 == k {
                    lemma_seq_lt_irreflexive(sorted[k].file_name@);
                }
            }
        } else {
            assert(r[i] == sorted[i - 1] && r[j] == sorted[j - 1]);
        }
    }
}

/// Sorting backups newest first keeps every file, and leaves no name above
/// an earlier one.
pub proof fn lemma_newest_first_sorted(files: Seq<S3FileInfo>)
    ensures
        newest_first(files).to_multiset() == files.to_multiset(),
        names_descending(newest_first(files)),
    decreases files.len(),
{
    broadcast use vstd::seq_lib::group_to_multiset_ensures;

    if files.len() > 0 {
        let init = files.drop_last();
        lemma_newest_first_sorted(init);
        lemma_insert_keeps_descending(newest_first(init), files.last());
        assert(init.push(files.last()) =~= files);
    }
}

} // verus!
