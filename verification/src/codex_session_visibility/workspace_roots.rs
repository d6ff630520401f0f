//! Workspace roots in Codex Desktop's global state: paths compared the way
//! the desktop app compares them, resolved to the working directories that
//! session files record, and rewritten without duplicates.
use vstd::prelude::*;

use crate::codex_session_visibility::{json_error, json_error_message};
use crate::error::{AQBotError, Failure};
use crate::json::{
    entries_find, entries_put, entries_view, is_indexable, json_equal, json_get, json_pretty,
    json_parse, json_set, json_set_member, json_strings, lemma_json_set, lemma_object_view, parse_json,
    to_json_text_pretty, to_string_array, Json, JsonValue,
};
use crate::strmap::{keyed, kv_insert, kv_values, map_values};
use crate::text::{
    chars_of, concat_chars, lowercase, replace_char, replace_chars, slice_chars, starts_with,
    starts_with_chars, string_of, to_lowercase_chars, trim, trim_chars, trim_end_by, blank, is_blank,
    trim_end_chars, trim_str, texts, utf8_len, utf8_len_of, CharSet,
};

verus! {

/// `\\?\UNC\`, the prefix of a verbatim UNC path.
pub open spec fn unc_prefix() -> Seq<char> {
    "\\\\?\\UNC\\"@
}

/// `\\?\`, the prefix of a verbatim path.
pub open spec fn verbatim_prefix() -> Seq<char> {
    "\\\\?\\"@
}

/// A path as Codex Desktop stores a workspace root: trimmed; verbatim
/// prefixes removed (a UNC path keeps its leading `\\`) with backslashes as
/// separators; otherwise without trailing separators.
pub open spec fn desktop_path(value: Seq<char>) -> Seq<char> {
    let t = trim(value);
    if starts_with(t, unc_prefix()) {
        replace_char("\\\\"@ + t.skip(unc_prefix().len() as int), '/', "\\"@)
    } else if starts_with(t, verbatim_prefix()) {
        replace_char(t.skip(verbatim_prefix().len() as int), '/', "\\"@)
    } else {
        trim_end_by(t, CharSet::Slashes)
    }
}

pub fn to_desktop_workspace_path(value: &str) -> (r: String)
    ensures
        r@ == desktop_path(value@),
{
    let t = trim_str(value, CharSet::Whitespace);
    let unc = chars_of("\\\\?\\UNC\\");
    let verbatim = chars_of("\\\\?\\");
    let backslash = chars_of("\\");
    if starts_with_chars(&t, &unc) {
        let rest = slice_chars(&t, unc.len(), t.len());
        let lead = chars_of("\\\\");
        let joined = concat_chars(&lead, &rest);
        assert(rest@ =~= t@.skip(unc@.len() as int));
        string_of(&replace_chars(&joined, '/', &backslash))
    } else if starts_with_chars(&t, &verbatim) {
        let rest = slice_chars(&t, verbatim.len(), t.len());
        assert(rest@ =~= t@.skip(verbatim@.len() as int));
        string_of(&replace_chars(&rest, '/', &backslash))
    } else {
        string_of(&trim_end_chars(&t, CharSet::Slashes))
    }
}

/// `s` without trailing backslashes while it is longer than three bytes
/// (`C:\` keeps its separator).
pub open spec fn strip_trailing_backslashes(s: Seq<char>) -> Seq<char>
    decreases s.len(),
{
    if s.len() > 0 && s.last() == '\\' && utf8_len(s) > 3 {
        strip_trailing_backslashes(s.drop_last())
    } else {
        s
    }
}

/// The form in which two workspace paths are compared: the desktop form,
/// trimmed, with backslash separators, without trailing separators beyond a
/// drive root, in lower case.
pub open spec fn comparable_path(value: Seq<char>) -> Seq<char> {
    lowercase(strip_trailing_backslashes(replace_char(trim(desktop_path(value)), '/', "\\"@)))
}

pub fn normalize_comparable_path(value: &str) -> (r: String)
    ensures
        r@ == comparable_path(value@),
{
    let d = to_desktop_workspace_path(value);
    let t = trim_str(d.as_str(), CharSet::Whitespace);
    let backslash = chars_of("\\");
    let mut n = replace_chars(&t, '/', &backslash);
    let ghost start = n@;
    let mut bytes = utf8_len_of(&n);
    while n.len() > 0 && n[n.len() - 1] == '\\' && bytes > 3
        invariant
            bytes == utf8_len(n@),
            strip_trailing_backslashes(start) == strip_trailing_backslashes(n@),
        decreases n@.len(),
    {
        let ghost before = n@;
        n.pop();
        proof {
            assert(n@ =~= before.drop_last());
        }
        bytes = bytes - 1;
    }
    string_of(&to_lowercase_chars(&n))
}

/// Whether `paths[..n]` holds a path whose comparable form is `c`.
pub open spec fn seen_before(paths: Seq<Seq<char>>, n: int, c: Seq<char>) -> bool {
    exists|j: int| 0 <= j < n && comparable_path(#[trigger] paths[j]) == c
}

/// The paths in order, leaving out those whose comparable form is empty or
/// equal to that of an earlier path.
pub open spec fn deduped(paths: Seq<Seq<char>>) -> Seq<Seq<char>>
    decreases paths.len(),
{
    if paths.len() == 0 {
        Seq::empty()
    } else {
        let n = paths.len() - 1;
        let c = comparable_path(paths[n]);
        if c.len() > 0 && !seen_before(paths, n, c) {
            deduped(paths.drop_last()).push(paths[n])
        } else {
            deduped(paths.drop_last())
        }
    }
}

fn contains_string(v: &Vec<String>, s: &String) -> (r: bool)
    ensures
        r == texts(v@).contains(s@),
{
    let mut i: usize = 0;
    while i < v.len()
        invariant
            i <= v@.len(),
            forall|j: int| 0 <= j < i ==> v@[j]@ != s@,
        decreases v@.len() - i,
    {
        if v[i] == *s {
            assert(texts(v@)[i as int] == s@);
            return true;
        }
        i = i + 1;
    }
    assert forall|j: int| 0 <= j < texts(v@).len() implies texts(v@)[j] != s@ by {
        assert(texts(v@)[j] == v@[j]@);
    }
    false
}

proof fn lemma_seen_before_extend(paths: Seq<Seq<char>>, n: int, c: Seq<char>)
    requires
        0 <= n < paths.len(),
    ensures
        seen_before(paths, n + 1, c) == (seen_before(paths, n, c) || comparable_path(paths[n])
            == c),
{
    if comparable_path(paths[n]) == c {
        assert(comparable_path(paths[n]) == c);
    }
}

proof fn lemma_seen_before_prefix(paths: Seq<Seq<char>>, n: int, c: Seq<char>)
    requires
        0 <= n <= paths.len(),
    ensures
        seen_before(paths, n, c) == seen_before(paths.take(n), n, c),
{
    if seen_before(paths, n, c) {
        let j = choose|j: int| 0 <= j < n && comparable_path(#[trigger] paths[j]) == c;
        assert(paths.take(n)[j] == paths[j]);
    }
    if seen_before(paths.take(n), n, c) {
        let j = choose|j: int| 0 <= j < n && comparable_path(#[trigger] paths.take(n)[j]) == c;
        assert(paths.take(n)[j] == paths[j]);
    }
}

/// The paths without duplicates, in order (first occurrence kept).
pub fn dedupe_paths(paths: &Vec<String>) -> (r: Vec<String>)
    ensures
        texts(r@) == deduped(texts(paths@)),
{
    let ghost ps = texts(paths@);
    let mut seen: Vec<String> = Vec::new();
    let mut result: Vec<String> = Vec::new();
    let mut i: usize = 0;
    while i < paths.len()
        invariant
            i <= paths@.len(),
            ps == texts(paths@),
            texts(result@) == deduped(ps.take(i as int)),
            forall|c: Seq<char>|
                #![trigger texts(seen@).contains(c)]
                texts(seen@).contains(c) <==> (c.len() > 0 && seen_before(ps, i as int, c)),
        decreases paths@.len() - i,
    {
        let c = normalize_comparable_path(paths[i].as_str());
        let ghost before = ps.take(i as int);
        let ghost upto = ps.take(i + 1);
        proof {
            assert(upto.drop_last() =~= before);
            assert(upto[i as int] == ps[i as int]);
            assert(ps[i as int] == paths@[i as int]@);
            lemma_seen_before_prefix(ps, i as int, c@);
            assert forall|j: int| 0 <= j < i implies upto[j] == ps[j] by {}
            if seen_before(upto, i as int, c@) {
                let j = choose|j: int| 0 <= j < i && comparable_path(#[trigger] upto[j]) == c@;
                assert(upto[j] == ps[j]);
            }
            if seen_before(ps, i as int, c@) {
                let j = choose|j: int| 0 <= j < i && comparable_path(#[trigger] ps[j]) == c@;
                assert(upto[j] == ps[j]);
            }
        }
        let already = contains_string(&seen, &c);
        if !c.as_str().is_empty() && !already {
            let ghost seen_before_push = seen@;
            seen.push(c.clone());
            result.push(paths[i].clone());
            proof {
                assert(texts(result@) =~= texts(result@.drop_last()).push(ps[i as int]));
                assert forall|x: Seq<char>| #![trigger texts(seen@).contains(x)]
                    texts(seen@).contains(x) <==> (x.len() > 0 && seen_before(ps, i + 1, x)) by {
                    lemma_seen_before_extend(ps, i as int, x);
                    assert(texts(seen@) =~= texts(seen_before_push).push(c@));
                    if texts(seen@).contains(x) && x != c@ {
                        let k = choose|k: int| 0 <= k < texts(seen@).len() && texts(seen@)[k] == x;
                        assert(texts(seen_before_push)[k] == x);
                    }
                    if x == c@ {
                        assert(texts(seen@)[seen_before_push.len() as int] == x);
                    }
                    if texts(seen_before_push).contains(x) {
                        let k = choose|k: int| 0 <= k < texts(seen_before_push).len() && texts(seen_before_push)[k] == x;
                        assert(texts(seen@)[k] == x);
                    }
                }
            }
        } else {
            proof {
                assert forall|x: Seq<char>| #![trigger texts(seen@).contains(x)]
                    texts(seen@).contains(x) <==> (x.len() > 0 && seen_before(ps, i + 1, x)) by {
                    lemma_seen_before_extend(ps, i as int, x);
                }
            }
        }
        i = i + 1;
    }
    proof {
        assert(ps.take(paths@.len() as int) =~= ps);
    }
    result
}

/// No two paths of the list compare equal, and none compares as empty.
pub open spec fn distinct_paths(paths: Seq<Seq<char>>) -> bool {
    &&& forall|i: int| 0 <= i < paths.len() ==> comparable_path(#[trigger] paths[i]).len() > 0
    &&& forall|i: int, j: int|
        0 <= i < j < paths.len() ==> comparable_path(#[trigger] paths[i]) != comparable_path(
            #[trigger] paths[j],
        )
}

/// Removing duplicates leaves paths that are all different, each taken from
/// the input, and one for every path of the input that compares as
/// non-empty.
pub proof fn lemma_deduped_distinct(paths: Seq<Seq<char>>)
    ensures
        distinct_paths(deduped(paths)),
        forall|i: int| 0 <= i < deduped(paths).len() ==> paths.contains(#[trigger] deduped(paths)[i]),
        forall|i: int|
            0 <= i < paths.len() && comparable_path(#[trigger] paths[i]).len() > 0 ==> exists|j: int|
                0 <= j < deduped(paths).len() && comparable_path(#[trigger] deduped(paths)[j])
                    == comparable_path(paths[i]),
    decreases paths.len(),
{
    if paths.len() > 0 {
        let n = paths.len() - 1;
        let init = paths.drop_last();
        let c = comparable_path(paths[n]);
        lemma_deduped_distinct(init);
        let d = deduped(init);
        assert forall|i: int| 0 <= i < d.len() implies paths.contains(#[trigger] d[i]) by {
            let k = choose|k: int| 0 <= k < init.len() && init[k] == d[i];
            assert(paths[k] == init[k]);
        }
        if c.len() > 0 && !seen_before(paths, n, c) {
            let r = d.push(paths[n]);
            assert(deduped(paths) == r);
            assert forall|i: int| 0 <= i < d.len() implies comparable_path(#[trigger] d[i]) != c by {
                let k = choose|k: int| 0 <= k < init.len() && init[k] == d[i];
                assert(paths[k] == init[k]);
                if comparable_path(d[i]) == c {
                    assert(comparable_path(paths[k]) == c);
                }
            }
            assert forall|i: int| 0 <= i < r.len() implies paths.contains(#[trigger] r[i]) by {
                if i == d.len() {
                    assert(paths[n] == r[i]);
                } else {
                    assert(r[i] == d[i]);
                }
            }
            assert forall|i: int|
                0 <= i < paths.len() && comparable_path(#[trigger] paths[i]).len() > 0 implies exists|j: int|
                0 <= j < r.len() && comparable_path(#[trigger] r[j]) == comparable_path(paths[i]) by {
                if i < n {
                    assert(paths[i] == init[i]);
                    let j = choose|j: int| 0 <= j < d.len() && comparable_path(#[trigger] d[j]) == comparable_path(init[i]);
                    assert(r[j] == d[j]);
                } else {
                    assert(r[d.len() as int] == paths[n]);
                }
            }
        } else {
            assert forall|i: int|
                0 <= i < paths.len() && comparable_path(#[trigger] paths[i]).len() > 0 implies exists|j: int|
                0 <= j < d.len() && comparable_path(#[trigger] d[j]) == comparable_path(paths[i]) by {
                if i < n {
                    assert(paths[i] == init[i]);
                } else {
                    let k = choose|k: int| 0 <= k < n && comparable_path(#[trigger] paths[k]) == c;
                    assert(paths[k] == init[k]);
                }
            }
        }
    }
}

/// A list whose paths are all different already is its own deduplication.
pub proof fn lemma_deduped_of_distinct(paths: Seq<Seq<char>>)
    requires
        distinct_paths(paths),
    ensures
        deduped(paths) == paths,
    decreases paths.len(),
{
    if paths.len() > 0 {
        let n = paths.len() - 1;
        let init = paths.drop_last();
        assert(distinct_paths(init)) by {
            assert forall|i: int| 0 <= i < init.len() implies comparable_path(#[trigger] init[i]).len() > 0 by {
                assert(init[i] == paths[i]);
            }
            assert forall|i: int, j: int| 0 <= i < j < init.len() implies comparable_path(#[trigger] init[i])
                != comparable_path(#[trigger] init[j]) by {
                assert(init[i] == paths[i] && init[j] == paths[j]);
            }
        }
        lemma_deduped_of_distinct(init);
        let c = comparable_path(paths[n]);
        if seen_before(paths, n, c) {
            let k = choose|k: int| 0 <= k < n && comparable_path(#[trigger] paths[k]) == c;
            assert(false);
        }
        assert(init.push(paths[n]) =~= paths);
    }
}

/// Removing duplicates twice removes no more than once.
pub proof fn lemma_dedupe_idempotent(paths: Seq<Seq<char>>)
    ensures
        deduped(deduped(paths)) == deduped(paths),
{
    lemma_deduped_distinct(paths);
    lemma_deduped_of_distinct(deduped(paths));
}

/// The first of `known` whose comparable form is `c`.
pub open spec fn first_with_comparable(known: Seq<Seq<char>>, c: Seq<char>) -> Option<Seq<char>>
    decreases known.len(),
{
    if known.len() == 0 {
        None
    } else if comparable_path(known[0]) == c {
        Some(known[0])
    } else {
        first_with_comparable(known.drop_first(), c)
    }
}

/// A stored path resolved against the known working directories: the first
/// of them that compares equal to it, else its desktop form.
pub open spec fn resolved_path(value: Seq<char>, known: Seq<Seq<char>>) -> Seq<char> {
    match first_with_comparable(known, comparable_path(value)) {
        Some(k) => k,
        None => desktop_path(value),
    }
}

pub fn resolve_stored_path(value: &str, known_cwds: &Vec<String>) -> (r: String)
    ensures
        r@ == resolved_path(value@, texts(known_cwds@)),
{
    let ghost ks = texts(known_cwds@);
    let comparable = normalize_comparable_path(value);
    let mut i: usize = 0;
    proof {
        assert(ks.skip(0) =~= ks);
    }
    while i < known_cwds.len()
        invariant
            i <= known_cwds@.len(),
            ks == texts(known_cwds@),
            comparable@ == comparable_path(value@),
            first_with_comparable(ks, comparable@) == first_with_comparable(
                ks.skip(i as int),
                comparable@,
            ),
        decreases known_cwds@.len() - i,
    {
        let c = normalize_comparable_path(known_cwds[i].as_str());
        proof {
            assert(ks.skip(i as int)[0] == known_cwds@[i as int]@);
            assert(ks.skip(i as int).drop_first() =~= ks.skip(i + 1));
        }
        if c == comparable {
            return known_cwds[i].clone();
        }
        i = i + 1;
    }
    to_desktop_workspace_path(value)
}

/// Each path resolved.
pub open spec fn resolved_all(paths: Seq<Seq<char>>, known: Seq<Seq<char>>) -> Seq<Seq<char>> {
    Seq::new(paths.len(), |i: int| resolved_path(paths[i], known))
}

pub fn resolve_paths(paths: &Vec<String>, known_cwds: &Vec<String>) -> (r: Vec<String>)
    ensures
        texts(r@) == resolved_all(texts(paths@), texts(known_cwds@)),
{
    let mut r: Vec<String> = Vec::new();
    let mut i: usize = 0;
    while i < paths.len()
        invariant
            i <= paths@.len(),
            r@.len() == i,
            forall|j: int|
                0 <= j < i ==> (#[trigger] r@[j])@ == resolved_path(
                    paths@[j]@,
                    texts(known_cwds@),
                ),
        decreases paths@.len() - i,
    {
        r.push(resolve_stored_path(paths[i].as_str(), known_cwds));
        i = i + 1;
    }
    assert(texts(r@) =~= resolved_all(texts(paths@), texts(known_cwds@)));
    r
}

/// The element at `i`, if any (`slice.get(i)`).
pub open spec fn element_at(s: Seq<Seq<char>>, i: int) -> Option<Seq<char>> {
    if 0 <= i < s.len() {
        Some(s[i])
    } else {
        None
    }
}

/// The number of positions below `n` where the two lists differ.
pub open spec fn differences_below(a: Seq<Seq<char>>, b: Seq<Seq<char>>, n: int) -> nat
    decreases n,
{
    if n <= 0 {
        0
    } else {
        differences_below(a, b, n - 1) + if element_at(a, n - 1) != element_at(b, n - 1) {
            1nat
        } else {
            0nat
        }
    }
}

/// The number of positions at which two lists differ (an element against a
/// missing one counts).
pub open spec fn array_changes(a: Seq<Seq<char>>, b: Seq<Seq<char>>) -> nat {
    differences_below(a, b, if a.len() >= b.len() { a.len() as int } else { b.len() as int })
}

pub fn count_array_changes(previous: &Vec<String>, next: &Vec<String>) -> (r: usize)
    ensures
        r == array_changes(texts(previous@), texts(next@)),
{
    let n = if previous.len() >= next.len() {
        previous.len()
    } else {
        next.len()
    };
    let ghost a = texts(previous@);
    let ghost b = texts(next@);
    let mut count: usize = 0;
    let mut i: usize = 0;
    while i < n
        invariant
            i <= n,
            n == if a.len() >= b.len() { a.len() } else { b.len() },
            a == texts(previous@),
            b == texts(next@),
            count == differences_below(a, b, i as int),
            count <= i,
        decreases n - i,
    {
        let differs = if i < previous.len() && i < next.len() {
            previous[i] != next[i]
        } else {
            (i < previous.len()) != (i < next.len())
        };
        proof {
            if i < a.len() {
                assert(a[i as int] == previous@[i as int]@);
            }
            if i < b.len() {
                assert(b[i as int] == next@[i as int]@);
            }
            assert(differs == (element_at(a, i as int) != element_at(b, i as int)));
        }
        if differs {
            count = count + 1;
        }
        i = i + 1;
    }
    count
}

proof fn lemma_differences_symmetric(a: Seq<Seq<char>>, b: Seq<Seq<char>>, n: int)
    ensures
        differences_below(a, b, n) == differences_below(b, a, n),
        differences_below(a, b, n) == 0 <==> forall|i: int|
            0 <= i < n ==> element_at(a, i) == #[trigger] element_at(b, i),
    decreases n,
{
    if n > 0 {
        lemma_differences_symmetric(a, b, n - 1);
        if forall|i: int| 0 <= i < n ==> element_at(a, i) == #[trigger] element_at(b, i) {
            assert(element_at(a, n - 1) == element_at(b, n - 1));
        }
    }
}

/// Counting the changes between two lists does not depend on their order,
/// and finds none exactly when the lists are equal.
pub proof fn lemma_array_changes(a: Seq<Seq<char>>, b: Seq<Seq<char>>)
    ensures
        array_changes(a, b) == array_changes(b, a),
        array_changes(a, b) == 0 <==> a == b,
{
    let n = if a.len() >= b.len() { a.len() as int } else { b.len() as int };
    lemma_differences_symmetric(a, b, n);
    if a.len() >= b.len() && b.len() >= a.len() {
        assert(array_changes(b, a) == differences_below(b, a, n));
    }
    if array_changes(a, b) == 0 {
        if a.len() != b.len() {
            let m = if a.len() < b.len() { a.len() as int } else { b.len() as int };
            assert(element_at(a, m) == element_at(b, m));
        }
        assert forall|i: int| 0 <= i < a.len() implies a[i] == b[i] by {
            assert(element_at(a, i) == element_at(b, i));
        }
        assert(a =~= b);
    }
}

/// The saved roots: the project order, the saved roots and the active roots,
/// resolved, without duplicates.
pub open spec fn next_saved_roots(
    project_order: Seq<Seq<char>>,
    saved: Seq<Seq<char>>,
    active: Seq<Seq<char>>,
    known: Seq<Seq<char>>,
) -> Seq<Seq<char>> {
    deduped(resolved_all(project_order + saved + active, known))
}

/// The project order: the new saved roots when there was none, else the
/// project order followed by the saved roots, resolved, without duplicates.
pub open spec fn next_project_order(
    project_order: Seq<Seq<char>>,
    saved: Seq<Seq<char>>,
    next_saved: Seq<Seq<char>>,
    known: Seq<Seq<char>>,
) -> Seq<Seq<char>> {
    if project_order.len() == 0 {
        next_saved
    } else {
        deduped(resolved_all(project_order + saved, known))
    }
}

/// The saved roots that a sync writes are all different, and no root is
/// lost: every project, saved or active root that compares as non-empty
/// once resolved is represented by one that compares equal to it.
pub proof fn lemma_saved_roots_keep_every_root(
    project_order: Seq<Seq<char>>,
    saved: Seq<Seq<char>>,
    active: Seq<Seq<char>>,
    known: Seq<Seq<char>>,
)
    ensures
        distinct_paths(next_saved_roots(project_order, saved, active, known)),
        forall|i: int|
            0 <= i < (project_order + saved + active).len() && comparable_path(
                #[trigger] resolved_path((project_order + saved + active)[i], known),
            ).len() > 0 ==> exists|j: int|
                0 <= j < next_saved_roots(project_order, saved, active, known).len()
                    && comparable_path(next_saved_roots(project_order, saved, active, known)[j])
                    == comparable_path(resolved_path((project_order + saved + active)[i], known)),
{
    let all = project_order + saved + active;
    let resolved = resolved_all(all, known);
    lemma_deduped_distinct(resolved);
    assert forall|i: int|
        0 <= i < all.len() && comparable_path(#[trigger] resolved_path(all[i], known)).len() > 0 implies exists|j: int|
        0 <= j < next_saved_roots(project_order, saved, active, known).len() && comparable_path(
            next_saved_roots(project_order, saved, active, known)[j],
        ) == comparable_path(resolved_path(all[i], known)) by {
        assert(resolved[i] == resolved_path(all[i], known));
        assert(comparable_path(resolved[i]).len() > 0);
        let j = choose|j: int|
            0 <= j < deduped(resolved).len() && comparable_path(#[trigger] deduped(resolved)[j])
                == comparable_path(resolved[i]);
        assert(next_saved_roots(project_order, saved, active, known) == deduped(resolved));
        assert(comparable_path(next_saved_roots(project_order, saved, active, known)[j])
            == comparable_path(resolved_path(all[i], known)));
    }
}

/// Removing duplicates from a longer list keeps what removing them from its
/// beginning gives, at its beginning.
pub proof fn lemma_deduped_prefix(s: Seq<Seq<char>>, t: Seq<Seq<char>>)
    ensures
        deduped(s).len() <= deduped(s + t).len(),
        deduped(s + t).take(deduped(s).len() as int) == deduped(s),
    decreases t.len(),
{
    if t.len() == 0 {
        assert(s + t =~= s);
        assert(deduped(s).take(deduped(s).len() as int) =~= deduped(s));
    } else {
        let u = s + t;
        assert(u.drop_last() =~= s + t.drop_last());
        lemma_deduped_prefix(s, t.drop_last());
        let d = deduped(s + t.drop_last());
        if deduped(u) != d {
            assert(deduped(u) == d.push(u[u.len() - 1]));
            assert(deduped(u).take(deduped(s).len() as int) =~= d.take(deduped(s).len() as int));
        }
    }
}

/// With a stored project order, the new project order begins with the old
/// one resolved and without duplicates, and no saved root is lost: each one
/// that compares as non-empty once resolved is represented by a root that
/// compares equal to it; no two of its roots compare equal. Without one, it
/// is the new saved roots.
pub proof fn lemma_project_order_keeps_saved_roots(
    project_order: Seq<Seq<char>>,
    saved: Seq<Seq<char>>,
    next_saved: Seq<Seq<char>>,
    known: Seq<Seq<char>>,
)
    ensures
        project_order.len() == 0 ==> next_project_order(project_order, saved, next_saved, known) == next_saved,
        project_order.len() > 0 ==> {
            let next = next_project_order(project_order, saved, next_saved, known);
            let old_order = deduped(resolved_all(project_order, known));
            &&& distinct_paths(next)
            &&& old_order.len() <= next.len()
            &&& next.take(old_order.len() as int) == old_order
            &&& forall|k: int|
                0 <= k < saved.len() && comparable_path(#[trigger] resolved_path(saved[k], known)).len()
                    > 0 ==> exists|j: int|
                    0 <= j < next.len() && comparable_path(next[j]) == comparable_path(
                        resolved_path(saved[k], known),
                    )
        },
{
    if project_order.len() > 0 {
        let all = project_order + saved;
        let resolved = resolved_all(all, known);
        assert(resolved =~= resolved_all(project_order, known) + resolved_all(saved, known));
        lemma_deduped_prefix(resolved_all(project_order, known), resolved_all(saved, known));
        lemma_deduped_distinct(resolved);
        assert forall|k: int|
            0 <= k < saved.len() && comparable_path(#[trigger] resolved_path(saved[k], known)).len()
                > 0 implies exists|j: int|
            0 <= j < deduped(resolved).len() && comparable_path(deduped(resolved)[j]) == comparable_path(
                resolved_path(saved[k], known),
            ) by {
            let i = project_order.len() + k;
            assert(all[i] == saved[k]);
            assert(resolved[i] == resolved_path(saved[k], known));
            assert(comparable_path(resolved[i]).len() > 0);
            let j = choose|j: int|
                0 <= j < deduped(resolved).len() && comparable_path(#[trigger] deduped(resolved)[j])
                    == comparable_path(resolved[i]);
        }
    }
}

fn append_strings(a: &mut Vec<String>, b: &Vec<String>)
    ensures
        texts(final(a)@) == texts(old(a)@) + texts(b@),
{
    let mut i: usize = 0;
    while i < b.len()
        invariant
            i <= b@.len(),
            texts(a@) == texts(old(a)@) + texts(b@).take(i as int),
        decreases b@.len() - i,
    {
        let ghost before = a@;
        a.push(b[i].clone());
        assert(texts(a@) =~= texts(before).push(b@[i as int]@));
        assert(texts(b@).take(i + 1) =~= texts(b@).take(i as int).push(b@[i as int]@));
        i = i + 1;
    }
    assert(texts(b@).take(b@.len() as int) =~= texts(b@));
}

pub fn build_next_saved_roots(
    project_order: &Vec<String>,
    saved: &Vec<String>,
    active: &Vec<String>,
    known_cwds: &Vec<String>,
) -> (r: Vec<String>)
    ensures
        texts(r@) == next_saved_roots(
            texts(project_order@),
            texts(saved@),
            texts(active@),
            texts(known_cwds@),
        ),
{
    let mut combined: Vec<String> = Vec::new();
    append_strings(&mut combined, project_order);
    append_strings(&mut combined, saved);
    append_strings(&mut combined, active);
    assert(texts(combined@) =~= texts(project_order@) + texts(saved@) + texts(active@));
    let resolved = resolve_paths(&combined, known_cwds);
    dedupe_paths(&resolved)
}

pub fn build_next_project_order(
    project_order: &Vec<String>,
    saved: &Vec<String>,
    next_saved: &Vec<String>,
    known_cwds: &Vec<String>,
) -> (r: Vec<String>)
    ensures
        texts(r@) == next_project_order(
            texts(project_order@),
            texts(saved@),
            texts(next_saved@),
            texts(known_cwds@),
        ),
{
    if project_order.len() == 0 {
        let mut copy: Vec<String> = Vec::new();
        append_strings(&mut copy, next_saved);
        assert(texts(copy@) =~= texts(next_saved@));
        return copy;
    }
    let mut combined: Vec<String> = Vec::new();
    append_strings(&mut combined, project_order);
    append_strings(&mut combined, saved);
    assert(texts(combined@) =~= texts(project_order@) + texts(saved@));
    let resolved = resolve_paths(&combined, known_cwds);
    dedupe_paths(&resolved)
}

/// The strings among `items` that are not blank, in order.
pub open spec fn nonblank_strings(items: Seq<Json>) -> Seq<Seq<char>>
    decreases items.len(),
{
    if items.len() == 0 {
        Seq::empty()
    } else {
        let prev = nonblank_strings(items.drop_last());
        match items.last() {
            Json::Str(s) => if !is_blank(s) {
                prev.push(s)
            } else {
                prev
            },
            _ => prev,
        }
    }
}

/// A stored list of paths: the non-blank strings of an array, or a single
/// non-blank string.
pub open spec fn path_array(v: Option<Json>) -> Seq<Seq<char>> {
    match v {
        Some(Json::Array(items)) => nonblank_strings(items),
        Some(Json::Str(s)) => if !is_blank(s) {
            seq![s]
        } else {
            Seq::empty()
        },
        _ => Seq::empty(),
    }
}

pub fn to_path_array(value: Option<&JsonValue>) -> (r: Vec<String>)
    ensures
        texts(r@) == path_array(match value {
            Some(v) => Some(v@),
            None => None,
        }),
{
    let mut r: Vec<String> = Vec::new();
    match value {
        Some(JsonValue::Array(items)) => {
            proof {
                crate::json::lemma_array_view(*items);
            }
            let ghost all = crate::json::items_view(items@);
            let mut i: usize = 0;
            while i < items.len()
                invariant
                    i <= items@.len(),
                    all == crate::json::items_view(items@),
                    texts(r@) == nonblank_strings(all.take(i as int)),
                decreases items@.len() - i,
            {
                proof {
                    assert(all.take(i + 1).drop_last() =~= all.take(i as int));
                    assert(all.take(i + 1).last() == items@[i as int]@);
                }
                match &items[i] {
                    JsonValue::Str(s) => {
                        if !blank(s.as_str()) {
                            let ghost before = r@;
                            r.push(s.clone());
                            assert(texts(r@) =~= texts(before).push(s@));
                        }
                    },
                    _ => {},
                }
                i = i + 1;
            }
            assert(all.take(items@.len() as int) =~= all);
        },
        Some(JsonValue::Str(s)) => {
            if !blank(s.as_str()) {
                r.push(s.clone());
                assert(texts(r@) =~= seq![s@]);
            }
        },
        _ => {},
    }
    assert(r@.len() == 0 ==> texts(r@) =~= Seq::<Seq<char>>::empty());
    r
}

/// `entries` with each key resolved, inserted one by one into a new sorted
/// map (so a later entry wins over an earlier one that resolves alike).
pub open spec fn rekeyed(entries: Seq<(Seq<char>, Json)>, known: Seq<Seq<char>>) -> Seq<
    (Seq<char>, Json),
>
    decreases entries.len(),
{
    if entries.len() == 0 {
        Seq::empty()
    } else {
        kv_insert(
            rekeyed(entries.drop_last(), known),
            resolved_path(entries.last().0, known),
            entries.last().1,
        )
    }
}

pub fn rekey_entries(entries: &Vec<(String, JsonValue)>, known_cwds: &Vec<String>) -> (r: Vec<
    (String, JsonValue),
>)
    ensures
        entries_view(r@) == rekeyed(entries_view(entries@), texts(known_cwds@)),
{
    let ghost all = entries_view(entries@);
    let mut out: Vec<(String, JsonValue)> = Vec::new();
    let mut i: usize = 0;
    proof {
        assert(entries_view(out@) =~= Seq::<(Seq<char>, Json)>::empty());
        assert(all.take(0) =~= Seq::<(Seq<char>, Json)>::empty());
    }
    while i < entries.len()
        invariant
            i <= entries@.len(),
            all == entries_view(entries@),
            entries_view(out@) == rekeyed(all.take(i as int), texts(known_cwds@)),
        decreases entries@.len() - i,
    {
        let key = resolve_stored_path(entries[i].0.as_str(), known_cwds);
        let value = entries[i].1.deep_clone();
        proof {
            assert(all.take(i + 1).drop_last() =~= all.take(i as int));
            assert(all.take(i + 1).last() == all[i as int]);
        }
        entries_put(&mut out, key, value);
        i = i + 1;
    }
    assert(all.take(entries@.len() as int) =~= all);
    out
}

/// The state with the object under `key` (if that is an object) re-keyed.
pub open spec fn keys_rewritten(state: Json, key: Seq<char>, known: Seq<Seq<char>>) -> Json {
    match json_get(state, key) {
        Some(Json::Object(e)) => json_set(state, key, Json::Object(rekeyed(e, known))),
        _ => state,
    }
}

/// The state with the object `open-in-target-preferences.perPath` (if there
/// is one) re-keyed.
pub open spec fn preferences_rewritten(state: Json, known: Seq<Seq<char>>) -> Json {
    match json_get(state, "open-in-target-preferences"@) {
        Some(p) => match json_get(p, "perPath"@) {
            Some(Json::Object(e)) => json_set(
                state,
                "open-in-target-preferences"@,
                json_set(p, "perPath"@, Json::Object(rekeyed(e, known))),
            ),
            _ => state,
        },
        None => state,
    }
}

/// The state with the active roots replaced: as an array when they were one,
/// else by the first of them (when there is one).
pub open spec fn active_rewritten(state: Json, next_active: Seq<Seq<char>>) -> Json {
    match json_get(state, "active-workspace-roots"@) {
        Some(Json::Array(_)) => json_set(state, "active-workspace-roots"@, json_strings(next_active)),
        _ => if next_active.len() > 0 {
            json_set(state, "active-workspace-roots"@, Json::Str(next_active[0]))
        } else {
            state
        },
    }
}

/// The saved workspace roots that the state lists.
pub open spec fn saved_roots(state: Json) -> Seq<Seq<char>> {
    path_array(json_get(state, "electron-saved-workspace-roots"@))
}

pub open spec fn project_order(state: Json) -> Seq<Seq<char>> {
    path_array(json_get(state, "project-order"@))
}

pub open spec fn active_roots(state: Json) -> Seq<Seq<char>> {
    path_array(json_get(state, "active-workspace-roots"@))
}

/// The new saved roots of a state.
pub open spec fn state_next_saved(state: Json, known: Seq<Seq<char>>) -> Seq<Seq<char>> {
    next_saved_roots(project_order(state), saved_roots(state), active_roots(state), known)
}

/// The global state with every workspace path resolved against the known
/// working directories and without duplicates: the saved roots, the project
/// order, the active roots, the root labels and the per-path preferences.
pub open spec fn rewritten_state(state: Json, known: Seq<Seq<char>>) -> Json {
    let next_saved = state_next_saved(state, known);
    let next_order = next_project_order(project_order(state), saved_roots(state), next_saved, known);
    let next_active = deduped(resolved_all(active_roots(state), known));
    let s1 = json_set(state, "electron-saved-workspace-roots"@, json_strings(next_saved));
    let s2 = json_set(s1, "project-order"@, json_strings(next_order));
    let s3 = active_rewritten(s2, next_active);
    let s4 = keys_rewritten(s3, "electron-workspace-root-labels"@, known);
    preferences_rewritten(s4, known)
}

/// Rewriting the global state leaves as its active roots, when they were an
/// array, exactly the stored active roots each resolved against the known
/// working directories, without duplicates; when they were not, the first of
/// those (or what was there, when there is none).
pub proof fn lemma_rewrite_resolves_active_roots(state: Json, known: Seq<Seq<char>>)
    requires
        is_indexable(state),
    ensures
        ({
            let next_active = deduped(resolved_all(active_roots(state), known));
            let after = json_get(rewritten_state(state, known), "active-workspace-roots"@);
            &&& json_get(state, "active-workspace-roots"@) matches Some(Json::Array(_)) ==> (after matches Some(
                Json::Array(items),
            ) && items.len() == next_active.len() && forall|i: int|
                0 <= i < items.len() ==> #[trigger] items[i] == Json::Str(next_active[i]))
            &&& !(json_get(state, "active-workspace-roots"@) matches Some(Json::Array(_))) ==> (if next_active.len() > 0 {
                after == Some(Json::Str(next_active[0]))
            } else {
                after == json_get(state, "active-workspace-roots"@)
            })
        }),
{
    reveal_strlit("active-workspace-roots");
    reveal_strlit("electron-saved-workspace-roots");
    reveal_strlit("project-order");
    reveal_strlit("electron-workspace-root-labels");
    reveal_strlit("open-in-target-preferences");
    let key = "active-workspace-roots"@;
    let next_saved = state_next_saved(state, known);
    let next_order = next_project_order(project_order(state), saved_roots(state), next_saved, known);
    let next_active = deduped(resolved_all(active_roots(state), known));
    let s1 = json_set(state, "electron-saved-workspace-roots"@, json_strings(next_saved));
    lemma_json_set(state, "electron-saved-workspace-roots"@, json_strings(next_saved));
    let s2 = json_set(s1, "project-order"@, json_strings(next_order));
    lemma_json_set(s1, "project-order"@, json_strings(next_order));
    assert(json_get(s2, key) == json_get(state, key));
    let s3 = active_rewritten(s2, next_active);
    match json_get(s2, key) {
        Some(Json::Array(_)) => {
            lemma_json_set(s2, key, json_strings(next_active));
        },
        _ => {
            if next_active.len() > 0 {
                lemma_json_set(s2, key, Json::Str(next_active[0]));
            }
        },
    }
    assert(is_indexable(s3));
    let labels = "electron-workspace-root-labels"@;
    let s4 = keys_rewritten(s3, labels, known);
    if let Some(Json::Object(e)) = json_get(s3, labels) {
        lemma_json_set(s3, labels, Json::Object(rekeyed(e, known)));
    }
    assert(json_get(s4, key) == json_get(s3, key));
    assert(is_indexable(s4));
    let prefs = "open-in-target-preferences"@;
    if let Some(p) = json_get(s4, prefs) {
        if let Some(Json::Object(e)) = json_get(p, "perPath"@) {
            lemma_json_set(s4, prefs, json_set(p, "perPath"@, Json::Object(rekeyed(e, known))));
        }
    }
    assert(json_get(rewritten_state(state, known), key) == json_get(s3, key));
}

/// How many positions of the saved roots change.
pub open spec fn saved_root_changes(state: Json, known: Seq<Seq<char>>) -> nat {
    array_changes(saved_roots(state), state_next_saved(state, known))
}

fn rewrite_active_roots(state: &mut JsonValue, next_active: &Vec<String>)
    requires
        old(state)@ is Object,
    ensures
        final(state)@ == active_rewritten(old(state)@, texts(next_active@)),
        final(state)@ is Object,
{
    let original_is_array = match state.get("active-workspace-roots") {
        Some(v) => v.is_array(),
        None => false,
    };
    if original_is_array {
        json_set_member(
            state,
            String::from_str("active-workspace-roots"),
            to_string_array(next_active),
        );
    } else if next_active.len() > 0 {
        assert(texts(next_active@)[0] == next_active@[0]@);
        json_set_member(
            state,
            String::from_str("active-workspace-roots"),
            JsonValue::Str(next_active[0].clone()),
        );
    }
}

fn rewrite_object_keys(state: &mut JsonValue, key: &str, known_cwds: &Vec<String>)
    requires
        old(state)@ is Object,
    ensures
        final(state)@ == keys_rewritten(old(state)@, key@, texts(known_cwds@)),
        final(state)@ is Object,
{
    let next = match state.get(key) {
        Some(JsonValue::Object(e)) => {
            proof {
                lemma_object_view(*e);
            }
            Some(rekey_entries(e, known_cwds))
        },
        _ => None,
    };
    match next {
        Some(entries) => {
            proof {
                lemma_object_view(entries);
            }
            json_set_member(state, String::from_str(key), JsonValue::Object(entries));
        },
        None => {},
    }
}

fn rewrite_open_target_preferences(state: &mut JsonValue, known_cwds: &Vec<String>)
    requires
        old(state)@ is Object,
    ensures
        final(state)@ == preferences_rewritten(old(state)@, texts(known_cwds@)),
        final(state)@ is Object,
{
    let next = match state.get("open-in-target-preferences") {
        Some(p) => match p.get("perPath") {
            Some(JsonValue::Object(e)) => {
                proof {
                    lemma_object_view(*e);
                }
                let entries = rekey_entries(e, known_cwds);
                proof {
                    lemma_object_view(entries);
                }
                let mut copy = p.deep_clone();
                json_set_member(&mut copy, String::from_str("perPath"), JsonValue::Object(entries));
                Some(copy)
            },
            _ => None,
        },
        None => None,
    };
    match next {
        Some(p) => {
            json_set_member(state, String::from_str("open-in-target-preferences"), p);
        },
        None => {},
    }
}

/// Rewrites every workspace path of the global state; gives the number of
/// positions of the saved roots that changed.
pub fn rewrite_workspace_root_state(state: &mut JsonValue, known_cwds: &Vec<String>) -> (r: usize)
    requires
        is_indexable(old(state)@),
    ensures
        final(state)@ == rewritten_state(old(state)@, texts(known_cwds@)),
        r == saved_root_changes(old(state)@, texts(known_cwds@)),
{
    let saved = to_path_array(state.get("electron-saved-workspace-roots"));
    let order = to_path_array(state.get("project-order"));
    let active = to_path_array(state.get("active-workspace-roots"));
    let next_saved = build_next_saved_roots(&order, &saved, &active, known_cwds);
    let next_order = build_next_project_order(&order, &saved, &next_saved, known_cwds);
    let resolved_active = resolve_paths(&active, known_cwds);
    let next_active = dedupe_paths(&resolved_active);
    let changed = count_array_changes(&saved, &next_saved);
    json_set_member(
        state,
        String::from_str("electron-saved-workspace-roots"),
        to_string_array(&next_saved),
    );
    json_set_member(state, String::from_str("project-order"), to_string_array(&next_order));
    rewrite_active_roots(state, &next_active);
    rewrite_object_keys(state, "electron-workspace-root-labels", known_cwds);
    rewrite_open_target_preferences(state, known_cwds);
    changed
}

/// What a synchronization of the global state decides: how many saved roots
/// changed, and the text to write (to the state file and its backup), if any.
pub struct WorkspaceRootsSync {
    pub changed: usize,
    pub next_text: Option<String>,
}

/// The message given when the global state is valid JSON but not an object.
pub open spec fn not_an_object_message() -> Seq<char> {
    json_error_message("the global state is not a JSON object"@)
}

/// What synchronizing a global state text decides, given the working
/// directories of the sessions and whether the state's backup is missing.
pub open spec fn sync_outcome(content: Seq<char>, cwds: Seq<Seq<char>>, backup_missing: bool) -> Result<
    (nat, Option<Seq<char>>),
    Failure,
> {
    match json_parse(content) {
        Err(e) => Err(Failure::Gateway(json_error_message(e))),
        Ok(state) => if !is_indexable(state) {
            Err(Failure::Gateway(not_an_object_message()))
        } else {
            let known = deduped(cwds);
            let next = rewritten_state(state, known);
            let changed = saved_root_changes(state, known);
            if changed == 0 && json_equal(next, state) && !backup_missing {
                Ok((0, None))
            } else {
                match json_pretty(next) {
                    Err(e) => Err(Failure::Gateway(json_error_message(e))),
                    Ok(text) => Ok((changed, Some(text + "\n"@))),
                }
            }
        },
    }
}

/// Decides the synchronization of the global state `content` with the
/// working directories recorded by session files (`cwd_by_id`: thread id to
/// working directory).
pub fn plan_workspace_roots_sync(
    content: &str,
    cwd_by_id: &Vec<(String, String)>,
    backup_missing: bool,
) -> (r: Result<WorkspaceRootsSync, AQBotError>)
    ensures
        match (r, sync_outcome(content@, kv_values(keyed(cwd_by_id@)).map_values(|s: String| s@), backup_missing)) {
            (Ok(plan), Ok((changed, text))) => plan.changed == changed && match plan.next_text {
                Some(t) => text == Some(t@),
                None => text is None,
            },
            (Err(e), Err(f)) => e@ == f,
            _ => false,
        },
{
    let mut state = match parse_json(content) {
        Ok(v) => v,
        Err(e) => return Err(json_error(e)),
    };
    if !(state.is_object() || state.is_null()) {
        return Err(json_error(String::from_str("the global state is not a JSON object")));
    }
    let original = state.deep_clone();
    let values = map_values(cwd_by_id);
    proof {
        assert(texts(values@) =~= kv_values(keyed(cwd_by_id@)).map_values(|s: String| s@));
    }
    let known = dedupe_paths(&values);
    let changed = rewrite_workspace_root_state(&mut state, &known);
    if changed == 0 && state.equals(&original) && !backup_missing {
        return Ok(WorkspaceRootsSync { changed: 0, next_text: None });
    }
    match to_json_text_pretty(&state) {
        Ok(text) => {
            let next = text.concat("\n");
            Ok(WorkspaceRootsSync { changed, next_text: Some(next) })
        },
        Err(e) => Err(json_error(e)),
    }
}

/// What previewing a global state text reports: the number of saved roots
/// that would change, at least one when anything would change.
pub open spec fn preview_outcome(content: Option<Seq<char>>, cwds: Seq<Seq<char>>) -> Result<
    nat,
    Failure,
> {
    match content {
        None => Ok(0),
        Some(text) => match json_parse(text) {
            Err(e) => Err(Failure::Gateway(json_error_message(e))),
            Ok(state) => if !is_indexable(state) {
                Err(Failure::Gateway(not_an_object_message()))
            } else {
                let known = deduped(cwds);
                let next = rewritten_state(state, known);
                let changed = saved_root_changes(state, known);
                if json_equal(next, state) {
                    Ok(0)
                } else if changed >= 1 {
                    Ok(changed)
                } else {
                    Ok(1)
                }
            },
        },
    }
}

/// Counts the workspace roots that a synchronization would update, without
/// writing anything; `content` is the global state's text, if the file exists.
pub fn preview_workspace_roots(content: Option<&str>, cwd_by_id: &Vec<(String, String)>) -> (r:
    Result<usize, AQBotError>)
    ensures
        match (r, preview_outcome(
            match content {
                Some(t) => Some(t@),
                None => None,
            },
            kv_values(keyed(cwd_by_id@)).map_values(|s: String| s@),
        )) {
            (Ok(n), Ok(m)) => n == m,
            (Err(e), Err(f)) => e@ == f,
            _ => false,
        },
{
    let text = match content {
        Some(t) => t,
        None => return Ok(0),
    };
    let mut state = match parse_json(text) {
        Ok(v) => v,
        Err(e) => return Err(json_error(e)),
    };
    if !(state.is_object() || state.is_null()) {
        return Err(json_error(String::from_str("the global state is not a JSON object")));
    }
    let original = state.deep_clone();
    let values = map_values(cwd_by_id);
    proof {
        assert(texts(values@) =~= kv_values(keyed(cwd_by_id@)).map_values(|s: String| s@));
    }
    let known = dedupe_paths(&values);
    let changed = rewrite_workspace_root_state(&mut state, &known);
    if state.equals(&original) {
        Ok(0)
    } else if changed >= 1 {
        Ok(changed)
    } else {
        Ok(1)
    }
}

} // verus!
