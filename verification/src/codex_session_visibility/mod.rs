//! Keeping Codex sessions visible after the model provider changes: session
//! files, the `state_5.sqlite` thread table and Codex Desktop's workspace
//! roots are brought in line with the provider that `config.toml` names.
use vstd::prelude::*;

use crate::error::{AQBotError, Failure};
use crate::strmap::keyed;
use crate::text::{blank, decimal, decimal_string, is_blank, join_strings, joined, texts};

pub mod apply_changes;
pub mod backup;
pub mod repair;
pub mod session_files;
pub mod sqlite_state;
pub mod status;
pub mod workspace_roots;

verus! {

/// The provider that sessions use when `config.toml` names none.
pub open spec fn default_provider() -> Seq<char> {
    "openai"@
}

/// The directories, under the Codex home, that hold session files.
pub open spec fn session_dirs() -> Seq<Seq<char>> {
    seq!["sessions"@, "archived_sessions"@]
}

pub fn session_dir_names() -> (r: Vec<String>)
    ensures
        texts(r@) == session_dirs(),
{
    let r = vec![String::from_str("sessions"), String::from_str("archived_sessions")];
    assert(texts(r@) =~= session_dirs());
    r
}

/// The file names, under the Codex home, of Codex Desktop's global state, its
/// backup, and the thread database.
pub fn global_state_file() -> (r: &'static str)
    ensures
        r@ == ".codex-global-state.json"@,
{
    ".codex-global-state.json"
}

pub fn global_state_backup_file() -> (r: &'static str)
    ensures
        r@ == ".codex-global-state.json.bak"@,
{
    ".codex-global-state.json.bak"
}

pub fn state_db_file() -> (r: &'static str)
    ensures
        r@ == "state_5.sqlite"@,
{
    "state_5.sqlite"
}

/// Where the Codex home is taken from.
#[derive(Clone, Copy, Debug, PartialEq, Eq, Structural)]
pub enum HomeSource {
    /// `CODEX_HOME`, as it is.
    CodexHome,
    /// `.codex` under `HOME`.
    Home,
    /// `.codex` under `USERPROFILE`.
    UserProfile,
}

/// The directory, under the user's home, that Codex uses by default.
pub fn codex_dir_name() -> (r: &'static str)
    ensures
        r@ == ".codex"@,
{
    ".codex"
}

/// Chooses where the Codex home is, from which of `CODEX_HOME`, `HOME` and
/// `USERPROFILE` are set: the first of them that is; with none, the home
/// directory cannot be determined.
pub fn codex_home_source(has_codex_home: bool, has_home: bool, has_user_profile: bool) -> (r:
    Result<HomeSource, AQBotError>)
    ensures
        has_codex_home ==> r == Ok::<HomeSource, AQBotError>(HomeSource::CodexHome),
        !has_codex_home && has_home ==> r == Ok::<HomeSource, AQBotError>(HomeSource::Home),
        !has_codex_home && !has_home && has_user_profile ==> r == Ok::<HomeSource, AQBotError>(
            HomeSource::UserProfile,
        ),
        !has_codex_home && !has_home && !has_user_profile ==> (r matches Err(e) && e@
            == Failure::NotFound("Could not determine home directory"@)),
{
    if has_codex_home {
        Ok(HomeSource::CodexHome)
    } else if has_home {
        Ok(HomeSource::Home)
    } else if has_user_profile {
        Ok(HomeSource::UserProfile)
    } else {
        Err(AQBotError::NotFound(String::from_str("Could not determine home directory")))
    }
}

/// The message of an error met while reading or writing Codex's JSON.
pub open spec fn json_error_message(detail: Seq<char>) -> Seq<char> {
    "Failed to process Codex JSON metadata: "@ + detail
}

pub fn json_error(detail: String) -> (e: AQBotError)
    ensures
        e@ == Failure::Gateway(json_error_message(detail@)),
{
    AQBotError::Gateway(
        String::from_str("Failed to process Codex JSON metadata: ").concat(detail.as_str()),
    )
}

/// Succeeds when the Codex home exists; `display` is how its path reads.
pub fn ensure_codex_home(exists: bool, display: &str) -> (r: Result<(), AQBotError>)
    ensures
        exists ==> r is Ok,
        !exists ==> (r matches Err(e) && e@ == Failure::NotFound(
            "Codex home not found: "@ + display@,
        )),
{
    if exists {
        Ok(())
    } else {
        Err(AQBotError::NotFound(String::from_str("Codex home not found: ").concat(display)))
    }
}

/// What `toml_edit` gives for a text: the string stored under a top-level
/// key (if that key holds a string), or the text of the parse error.
pub uninterp spec fn toml_top_level_string(text: Seq<char>, key: Seq<char>) -> Result<
    Option<Seq<char>>,
    Seq<char>,
>;

/// Parses `text` as a TOML document (`text.parse::<toml_edit::DocumentMut>()`)
/// and reads the string under a top-level key (`doc.get(key)` then
/// `Item::as_str`); the parse error is given by its display text. What the
/// TOML grammar accepts is named, not stated.
#[verifier::external_body]
fn read_toml_string(text: &str, key: &str) -> (r: Result<Option<String>, String>)
    ensures
        match (r, toml_top_level_string(text@, key@)) {
            (Ok(Some(s)), Ok(Some(t))) => s@ == t,
            (Ok(None), Ok(None)) => true,
            (Err(e), Err(t)) => e@ == t,
            _ => false,
        },
{
    match text.parse::<toml_edit::DocumentMut>() {
        Ok(doc) => Ok(doc.get(key).and_then(|item| item.as_str()).map(|s| s.to_string())),
        Err(error) => Err(error.to_string()),
    }
}

/// The provider that sessions should name: the non-blank `model_provider`
/// of `config.toml` (whose text is `content`, absent when there is no such
/// file), else `openai`.
pub open spec fn target_provider_of(content: Option<Seq<char>>) -> Result<Seq<char>, Failure> {
    match content {
        None => Ok(default_provider()),
        Some(text) => match toml_top_level_string(text, "model_provider"@) {
            Err(e) => Err(Failure::Gateway("Failed to parse Codex config.toml: "@ + e)),
            Ok(Some(p)) => if !is_blank(p) {
                Ok(p)
            } else {
                Ok(default_provider())
            },
            Ok(None) => Ok(default_provider()),
        },
    }
}

pub fn read_target_provider(content: Option<&str>) -> (r: Result<String, AQBotError>)
    ensures
        match (r, target_provider_of(
            match content {
                Some(t) => Some(t@),
                None => None,
            },
        )) {
            (Ok(p), Ok(q)) => p@ == q,
            (Err(e), Err(f)) => e@ == f,
            _ => false,
        },
{
    let text = match content {
        Some(t) => t,
        None => return Ok(String::from_str("openai")),
    };
    match read_toml_string(text, "model_provider") {
        Err(e) => Err(
            AQBotError::Gateway(
                String::from_str("Failed to parse Codex config.toml: ").concat(e.as_str()),
            ),
        ),
        Ok(Some(p)) => {
            if !blank(p.as_str()) {
                Ok(p)
            } else {
                Ok(String::from_str("openai"))
            }
        },
        Ok(None) => Ok(String::from_str("openai")),
    }
}

/// The providers other than the target with files that mention encrypted
/// content, in the map's order.
pub open spec fn risky_providers(counts: Seq<(Seq<char>, usize)>, target: Seq<char>) -> Seq<
    Seq<char>,
>
    decreases counts.len(),
{
    if counts.len() == 0 {
        Seq::empty()
    } else {
        let prev = risky_providers(counts.drop_last(), target);
        if counts.last().0 != target && counts.last().1 > 0 {
            prev.push(counts.last().0)
        } else {
            prev
        }
    }
}

/// The sum of the counts.
pub open spec fn count_total(counts: Seq<(Seq<char>, usize)>) -> nat
    decreases counts.len(),
{
    if counts.len() == 0 {
        0
    } else {
        count_total(counts.drop_last()) + counts.last().1 as nat
    }
}

/// The warning given when files of another provider mention encrypted
/// content: continuing those histories under the target may fail.
pub open spec fn encrypted_warning(counts: Seq<(Seq<char>, usize)>, target: Seq<char>) -> Option<
    Seq<char>,
> {
    let risky = risky_providers(counts, target);
    if risky.len() == 0 {
        None
    } else {
        Some(
            decimal(count_total(counts))
                + " rollout file(s) contain encrypted_content from provider(s) "@
                + joined(risky, ", "@) + ". Visibility metadata can be synchronized to "@
                + target
                + ", but continuing or compacting those histories may fail with invalid_encrypted_content."@,
        )
    }
}

/// No warning is given exactly when every provider other than the target
/// has no file that mentions encrypted content.
pub proof fn lemma_no_warning_iff_no_risky_provider(counts: Seq<(Seq<char>, usize)>, target: Seq<char>)
    ensures
        encrypted_warning(counts, target) is None <==> forall|i: int|
            0 <= i < counts.len() ==> #[trigger] counts[i].0 == target || counts[i].1 == 0,
    decreases counts.len(),
{
    if counts.len() > 0 {
        let init = counts.drop_last();
        lemma_no_warning_iff_no_risky_provider(init, target);
        if risky_providers(counts, target).len() == 0 {
            assert forall|i: int| 0 <= i < counts.len() implies #[trigger] counts[i].0 == target || counts[i].1 == 0 by {
                if i < init.len() {
                    assert(counts[i] == init[i]);
                }
            }
        } else if risky_providers(init, target).len() > 0 {
            let i = choose|i: int| 0 <= i < init.len() && !(#[trigger] init[i].0 == target || init[i].1 == 0);
            assert(counts[i] == init[i]);
        }
    }
}

pub fn encrypted_content_warning(counts: &Vec<(String, usize)>, target_provider: &str) -> (r:
    Option<String>)
    requires
        count_total(keyed(counts@)) <= usize::MAX,
    ensures
        match r {
            Some(w) => encrypted_warning(keyed(counts@), target_provider@) == Some(w@),
            None => encrypted_warning(keyed(counts@), target_provider@) is None,
        },
{
    let ghost all = keyed(counts@);
    let target = String::from_str(target_provider);
    let mut risky: Vec<String> = Vec::new();
    let mut total: usize = 0;
    let mut i: usize = 0;
    while i < counts.len()
        invariant
            i <= counts@.len(),
            all == keyed(counts@),
            target@ == target_provider@,
            count_total(all) <= usize::MAX,
            texts(risky@) == risky_providers(all.take(i as int), target@),
            total == count_total(all.take(i as int)),
        decreases counts@.len() - i,
    {
        proof {
            assert(all.take(i + 1).drop_last() =~= all.take(i as int));
            assert(all.take(i + 1).last() == all[i as int]);
            lemma_count_total_prefix(all, i as int + 1);
        }
        if counts[i].0 != target && counts[i].1 > 0 {
            let ghost before = risky@;
            risky.push(counts[i].0.clone());
            assert(texts(risky@) =~= texts(before).push(counts@[i as int].0@));
        }
        total = total + counts[i].1;
        i = i + 1;
    }
    assert(all.take(counts@.len() as int) =~= all);
    if risky.len() == 0 {
        return None;
    }
    let message = decimal_string(total).concat(
        " rollout file(s) contain encrypted_content from provider(s) ",
    ).concat(join_strings(&risky, ", ").as_str()).concat(
        ". Visibility metadata can be synchronized to ",
    ).concat(target_provider).concat(
        ", but continuing or compacting those histories may fail with invalid_encrypted_content.",
    );
    Some(message)
}

proof fn lemma_count_total_prefix(counts: Seq<(Seq<char>, usize)>, n: int)
    requires
        0 <= n <= counts.len(),
    ensures
        count_total(counts.take(n)) <= count_total(counts),
    decreases counts.len() - n,
{
    if n < counts.len() {
        lemma_count_total_prefix(counts, n + 1);
        assert(counts.take(n + 1).drop_last() =~= counts.take(n));
    } else {
        assert(counts.take(n) =~= counts);
    }
}

/// What an update of the thread table changed: whether the database is
/// there, and the rows whose provider, user-event flag or working directory
/// were set.
pub struct SqliteUpdateResult {
    pub present: bool,
    pub provider_rows: usize,
    pub user_event_rows: usize,
    pub cwd_rows: usize,
}

impl SqliteUpdateResult {
    /// No database: nothing changed.
    pub fn absent() -> (r: SqliteUpdateResult)
        ensures
            !r.present,
            r.provider_rows == 0,
            r.user_event_rows == 0,
            r.cwd_rows == 0,
    {
        SqliteUpdateResult { present: false, provider_rows: 0, user_event_rows: 0, cwd_rows: 0 }
    }

    /// All rows changed.
    pub fn total_rows(&self) -> (r: usize)
        requires
            self.provider_rows + self.user_event_rows + self.cwd_rows <= usize::MAX,
        ensures
            r == self.provider_rows + self.user_event_rows + self.cwd_rows,
    {
        self.provider_rows + self.user_event_rows + self.cwd_rows
    }
}

} // verus!
