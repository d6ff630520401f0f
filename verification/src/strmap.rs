//! Maps and sets keyed by strings, kept as vectors in ascending key order:
//! the order in which `BTreeMap<String, _>` and `BTreeSet<String>` hold and
//! walk their entries.
use vstd::prelude::*;

use crate::text::{chars_lt, chars_of, lemma_seq_lt_total, lemma_seq_lt_transitive, seq_lt};

verus! {

/// The entries with their keys taken by view.
pub open spec fn keyed<V>(e: Seq<(String, V)>) -> Seq<(Seq<char>, V)> {
    Seq::new(e.len(), |i: int| (e[i].0@, e[i].1))
}

/// The value of the first entry with key `k`.
pub open spec fn kv_lookup<V>(e: Seq<(Seq<char>, V)>, k: Seq<char>) -> Option<V>
    decreases e.len(),
{
    if e.len() == 0 {
        None
    } else if e[0].0 == k {
        Some(e[0].1)
    } else {
        kv_lookup(e.drop_first(), k)
    }
}

/// `e` with `k` bound to `v`, as a sorted map inserts: the first entry with
/// that key takes the new value; otherwise the entry goes before the first
/// entry whose key sorts after it.
pub open spec fn kv_insert<V>(e: Seq<(Seq<char>, V)>, k: Seq<char>, v: V) -> Seq<(Seq<char>, V)>
    decreases e.len(),
{
    if e.len() == 0 {
        seq![(k, v)]
    } else if e[0].0 == k {
        e.update(0, (k, v))
    } else if seq_lt(k, e[0].0) {
        seq![(k, v)] + e
    } else {
        seq![e[0]] + kv_insert(e.drop_first(), k, v)
    }
}

/// `map.entry(k)` updated by `f`, which sees the current value (if any): a
/// sorted map's entry API, positionally.
pub open spec fn kv_upsert<V>(e: Seq<(Seq<char>, V)>, k: Seq<char>, f: spec_fn(Option<V>) -> V) -> Seq<
    (Seq<char>, V),
>
    decreases e.len(),
{
    if e.len() == 0 {
        seq![(k, f(None))]
    } else if e[0].0 == k {
        e.update(0, (k, f(Some(e[0].1))))
    } else if seq_lt(k, e[0].0) {
        seq![(k, f(None))] + e
    } else {
        seq![e[0]] + kv_upsert(e.drop_first(), k, f)
    }
}

/// Keys strictly ascending: each key once, in the order of `String`.
pub open spec fn sorted_keys<V>(e: Seq<(Seq<char>, V)>) -> bool {
    forall|i: int, j: int| 0 <= i < j < e.len() ==> seq_lt(#[trigger] e[i].0, #[trigger] e[j].0)
}

proof fn lemma_lookup_cons<V>(x: (Seq<char>, V), e: Seq<(Seq<char>, V)>, k: Seq<char>)
    ensures
        kv_lookup(seq![x] + e, k) == if x.0 == k {
            Some(x.1)
        } else {
            kv_lookup(e, k)
        },
{
    assert((seq![x] + e).drop_first() =~= e);
}

/// Updating one entry of a map whose values all satisfy `q` by a function
/// that turns nothing, or a value satisfying `q`, into one satisfying `p`
/// leaves values that all satisfy `p`, where `q` implies `p`.
pub proof fn lemma_upsert_values<V>(
    e: Seq<(Seq<char>, V)>,
    k: Seq<char>,
    f: spec_fn(Option<V>) -> V,
    q: spec_fn(V) -> bool,
    p: spec_fn(V) -> bool,
)
    requires
        forall|i: int| 0 <= i < e.len() ==> q(#[trigger] e[i].1),
        forall|v: V| #[trigger] q(v) ==> p(v),
        p(f(None)),
        forall|v: V| #[trigger] q(v) ==> p(f(Some(v))),
    ensures
        forall|i: int| 0 <= i < kv_upsert(e, k, f).len() ==> p(#[trigger] kv_upsert(e, k, f)[i].1),
    decreases e.len(),
{
    let r = kv_upsert(e, k, f);
    if e.len() == 0 {
        assert(r == seq![(k, f(None))]);
    } else if e[0].0 == k {
        assert forall|i: int| 0 <= i < r.len() implies p(#[trigger] r[i].1) by {
            if i == 0 {
                assert(q(e[0].1));
            } else {
                assert(r[i] == e[i]);
                assert(q(e[i].1));
            }
        }
    } else if seq_lt(k, e[0].0) {
        assert forall|i: int| 0 <= i < r.len() implies p(#[trigger] r[i].1) by {
            if i > 0 {
                assert(r[i] == e[i - 1]);
                assert(q(e[i - 1].1));
            }
        }
    } else {
        let rest = e.drop_first();
        assert forall|i: int| 0 <= i < rest.len() implies q(#[trigger] rest[i].1) by {
            assert(rest[i] == e[i + 1]);
        }
        lemma_upsert_values(rest, k, f, q, p);
        let t = kv_upsert(rest, k, f);
        assert(r == seq![e[0]] + t);
        assert forall|i: int| 0 <= i < r.len() implies p(#[trigger] r[i].1) by {
            if i == 0 {
                assert(q(e[0].1));
            } else {
                assert(r[i] == t[i - 1]);
            }
        }
    }
}

/// Reading a map with one more entry at its end: the earlier entries come
/// first.
pub proof fn lemma_kv_lookup_push<V>(e: Seq<(Seq<char>, V)>, x: (Seq<char>, V), k: Seq<char>)
    ensures
        kv_lookup(e.push(x), k) == if kv_lookup(e, k) is Some {
            kv_lookup(e, k)
        } else if x.0 == k {
            Some(x.1)
        } else {
            None
        },
    decreases e.len(),
{
    if e.len() == 0 {
        assert(e.push(x)[0] == x);
        assert(e.push(x).drop_first() =~= Seq::<(Seq<char>, V)>::empty());
        assert(kv_lookup(Seq::<(Seq<char>, V)>::empty(), k) is None);
    } else {
        assert(e.push(x)[0] == e[0]);
        assert(e.push(x).drop_first() =~= e.drop_first().push(x));
        lemma_kv_lookup_push(e.drop_first(), x, k);
    }
}

/// A map with no key before `n` equal to `k` reads nothing for `k`.
pub proof fn lemma_kv_lookup_absent<V>(e: Seq<(Seq<char>, V)>, k: Seq<char>)
    requires
        forall|i: int| 0 <= i < e.len() ==> #[trigger] e[i].0 != k,
    ensures
        kv_lookup(e, k) is None,
    decreases e.len(),
{
    if e.len() > 0 {
        assert forall|i: int| 0 <= i < e.drop_first().len() implies #[trigger] e.drop_first()[i].0 != k by {
            assert(e.drop_first()[i] == e[i + 1]);
        }
        lemma_kv_lookup_absent(e.drop_first(), k);
    }
}

/// A value read from a map is the value of one of its entries.
pub proof fn lemma_kv_lookup_member<V>(e: Seq<(Seq<char>, V)>, k: Seq<char>)
    ensures
        kv_lookup(e, k) matches Some(v) ==> exists|i: int| 0 <= i < e.len() && #[trigger] e[i].1 == v,
    decreases e.len(),
{
    if e.len() > 0 && e[0].0 != k {
        lemma_kv_lookup_member(e.drop_first(), k);
        if kv_lookup(e, k) is Some {
            let v = kv_lookup(e, k)->Some_0;
            let i = choose|i: int| 0 <= i < e.drop_first().len() && #[trigger] e.drop_first()[i].1 == v;
            assert(e[i + 1].1 == v);
        }
    }
}

/// A read after a write gives what was written, and leaves every other key
/// as it was; a map whose keys are sorted stays sorted, and its entries are
/// the one written and entries it had.
pub proof fn lemma_kv_insert<V>(e: Seq<(Seq<char>, V)>, k: Seq<char>, v: V)
    ensures
        kv_lookup(kv_insert(e, k, v), k) == Some(v),
        forall|k2: Seq<char>| k2 != k ==> kv_lookup(kv_insert(e, k, v), k2) == kv_lookup(e, k2),
        forall|i: int|
            0 <= i < kv_insert(e, k, v).len() ==> #[trigger] kv_insert(e, k, v)[i] == (k, v)
                || exists|j: int| 0 <= j < e.len() && e[j] == kv_insert(e, k, v)[i],
        sorted_keys(e) ==> sorted_keys(kv_insert(e, k, v)),
    decreases e.len(),
{
    let r = kv_insert(e, k, v);
    if e.len() == 0 {
        assert(r == seq![(k, v)]);
        assert forall|k2: Seq<char>| k2 != k implies kv_lookup(r, k2) == kv_lookup(e, k2) by {
            lemma_lookup_cons((k, v), Seq::empty(), k2);
            assert(seq![(k, v)] + Seq::<(Seq<char>, V)>::empty() =~= seq![(k, v)]);
        }
    } else if e[0].0 == k {
        assert(r.drop_first() =~= e.drop_first());
        assert forall|i: int| 0 <= i < r.len() implies #[trigger] r[i] == (k, v) || exists|j: int|
            0 <= j < e.len() && e[j] == r[i] by {
            if i > 0 {
                assert(e[i] == r[i]);
            }
        }
    } else if seq_lt(k, e[0].0) {
        assert(r == seq![(k, v)] + e);
        lemma_lookup_cons((k, v), e, k);
        assert forall|k2: Seq<char>| k2 != k implies kv_lookup(r, k2) == kv_lookup(e, k2) by {
            lemma_lookup_cons((k, v), e, k2);
        }
        assert forall|i: int| 0 <= i < r.len() implies #[trigger] r[i] == (k, v) || exists|j: int|
            0 <= j < e.len() && e[j] == r[i] by {
            if i > 0 {
                assert(e[i - 1] == r[i]);
            }
        }
        if sorted_keys(e) {
            assert forall|i: int, j: int| 0 <= i < j < r.len() implies seq_lt(#[trigger] r[i].0, #[trigger] r[j].0) by {
                if i == 0 {
                    if j > 1 {
                        lemma_seq_lt_transitive(k, e[0].0, e[j - 1].0);
                    }
                } else {
                    assert(r[i] == e[i - 1] && r[j] == e[j - 1]);
                }
            }
        }
    } else {
        let rest = e.drop_first();
        lemma_kv_insert(rest, k, v);
        let t = kv_insert(rest, k, v);
        assert(r == seq![e[0]] + t);
        lemma_lookup_cons(e[0], t, k);
        assert forall|k2: Seq<char>| k2 != k implies kv_lookup(r, k2) == kv_lookup(e, k2) by {
            lemma_lookup_cons(e[0], t, k2);
            assert(kv_lookup(t, k2) == kv_lookup(rest, k2));
            if e[0].0 != k2 {
                assert(kv_lookup(e, k2) == kv_lookup(rest, k2));
            }
        }
        assert forall|i: int| 0 <= i < r.len() implies #[trigger] r[i] == (k, v) || exists|j: int|
            0 <= j < e.len() && e[j] == r[i] by {
            if i == 0 {
                assert(e[0] == r[0]);
            } else {
                assert(r[i] == t[i - 1]);
                if t[i - 1] != (k, v) {
                    let j = choose|j: int| 0 <= j < rest.len() && rest[j] == t[i - 1];
                    assert(e[j + 1] == rest[j]);
                }
            }
        }
        if sorted_keys(e) {
            lemma_seq_lt_total(k, e[0].0);
            assert(sorted_keys(rest)) by {
                assert forall|i: int, j: int| 0 <= i < j < rest.len() implies seq_lt(#[trigger] rest[i].0, #[trigger] rest[j].0) by {
                    assert(rest[i] == e[i + 1] && rest[j] == e[j + 1]);
                }
            }
            assert forall|i: int, j: int| 0 <= i < j < r.len() implies seq_lt(#[trigger] r[i].0, #[trigger] r[j].0) by {
                if i == 0 {
                    assert(r[j] == t[j - 1]);
                    if t[j - 1] != (k, v) {
                        let m = choose|m: int| 0 <= m < rest.len() && rest[m] == t[j - 1];
                        assert(e[m + 1] == rest[m]);
                    }
                } else {
                    assert(r[i] == t[i - 1] && r[j] == t[j - 1]);
                }
            }
        }
    }
}

/// The values, in entry order (`map.values()`).
pub open spec fn kv_values<V>(e: Seq<(Seq<char>, V)>) -> Seq<V> {
    Seq::new(e.len(), |i: int| e[i].1)
}

/// `s` with `k` added, as a sorted set inserts.
pub open spec fn set_insert(s: Seq<Seq<char>>, k: Seq<char>) -> Seq<Seq<char>>
    decreases s.len(),
{
    if s.len() == 0 {
        seq![k]
    } else if s[0] == k {
        s
    } else if seq_lt(k, s[0]) {
        seq![k] + s
    } else {
        seq![s[0]] + set_insert(s.drop_first(), k)
    }
}

/// The position of the entry with key `k`.
pub fn map_find<V>(e: &Vec<(String, V)>, k: &String) -> (r: Option<usize>)
    ensures
        match r {
            Some(i) => i < e@.len() && e@[i as int].0@ == k@ && kv_lookup(keyed(e@), k@) == Some(
                e@[i as int].1,
            ),
            None => kv_lookup(keyed(e@), k@) is None,
        },
{
    let ghost all = keyed(e@);
    let mut i: usize = 0;
    proof {
        assert(all.skip(0) =~= all);
    }
    while i < e.len()
        invariant
            i <= e@.len(),
            all == keyed(e@),
            kv_lookup(all, k@) == kv_lookup(all.skip(i as int), k@),
        decreases e@.len() - i,
    {
        if e[i].0 == *k {
            proof {
                assert(all.skip(i as int)[0] == all[i as int]);
            }
            return Some(i);
        }
        proof {
            assert(all.skip(i as int)[0] == all[i as int]);
            assert(all.skip(i as int).drop_first() =~= all.skip(i + 1));
        }
        i = i + 1;
    }
    None
}

/// `map.insert(k, v)`.
pub fn map_put<V>(e: &mut Vec<(String, V)>, k: String, v: V)
    ensures
        keyed(final(e)@) == kv_insert(keyed(old(e)@), k@, v),
{
    let ghost all = keyed(e@);
    let kc = chars_of(k.as_str());
    let mut i: usize = 0;
    proof {
        assert(all.skip(0) =~= all);
        assert(all.take(0) + all =~= all);
    }
    while i < e.len()
        invariant
            i <= e@.len(),
            e@ == old(e)@,
            all == keyed(e@),
            kc@ == k@,
            kv_insert(all, k@, v) == all.take(i as int) + kv_insert(all.skip(i as int), k@, v),
        ensures
            i <= e@.len(),
            e@ == old(e)@,
            all == keyed(e@),
            kv_insert(all, k@, v) == all.take(i as int) + kv_insert(all.skip(i as int), k@, v),
            i < e@.len() ==> (e@[i as int].0@ == k@ || seq_lt(k@, e@[i as int].0@)),
        decreases e@.len() - i,
    {
        let ek = chars_of(e[i].0.as_str());
        if e[i].0 == k || chars_lt(&kc, &ek) {
            break;
        }
        proof {
            let rest = all.skip(i as int);
            assert(rest[0] == all[i as int]);
            assert(rest.drop_first() =~= all.skip(i + 1));
            assert(all.take(i + 1) =~= all.take(i as int) + seq![rest[0]]);
        }
        i = i + 1;
    }
    let ghost rest = all.skip(i as int);
    let ghost kv = k@;
    if i < e.len() && e[i].0 == k {
        e.set(i, (k, v));
        proof {
            assert(rest[0] == all[i as int]);
            assert(kv_insert(rest, kv, v) == rest.update(0, (kv, v)));
            assert(keyed(e@) =~= all.take(i as int) + rest.update(0, (kv, v)));
        }
    } else {
        e.insert(i, (k, v));
        proof {
            if i < all.len() {
                assert(rest[0] == all[i as int]);
                assert(kv_insert(rest, kv, v) == seq![(kv, v)] + rest);
            } else {
                assert(rest.len() == 0);
            }
            assert(keyed(e@) =~= all.take(i as int) + kv_insert(rest, kv, v));
        }
    }
}

/// `*map.entry(k).or_default() += 1`.
pub fn map_increment(e: &mut Vec<(String, usize)>, k: String)
    requires
        kv_lookup(keyed(old(e)@), k@) != Some(usize::MAX),
    ensures
        keyed(final(e)@) == kv_insert(
            keyed(old(e)@),
            k@,
            match kv_lookup(keyed(old(e)@), k@) {
                Some(n) => (n + 1) as usize,
                None => 1usize,
            },
        ),
{
    let n = match map_find(e, &k) {
        Some(i) => e[i].1 + 1,
        None => 1,
    };
    map_put(e, k, n);
}

/// `map.values().cloned().collect()` for a map of strings.
pub fn map_values(e: &Vec<(String, String)>) -> (r: Vec<String>)
    ensures
        r@.len() == e@.len(),
        forall|i: int| 0 <= i < e@.len() ==> (#[trigger] r@[i])@ == e@[i].1@,
{
    let mut r: Vec<String> = Vec::new();
    let mut i: usize = 0;
    while i < e.len()
        invariant
            i <= e@.len(),
            r@.len() == i,
            forall|j: int| 0 <= j < i ==> (#[trigger] r@[j])@ == e@[j].1@,
        decreases e@.len() - i,
    {
        r.push(e[i].1.clone());
        i = i + 1;
    }
    r
}

/// `set.insert(k)`.
pub fn set_put(s: &mut Vec<String>, k: String)
    ensures
        crate::text::texts(final(s)@) == set_insert(crate::text::texts(old(s)@), k@),
{
    let ghost all = crate::text::texts(s@);
    let kc = chars_of(k.as_str());
    let mut i: usize = 0;
    proof {
        assert(all.skip(0) =~= all);
        assert(all.take(0) + all =~= all);
    }
    while i < s.len()
        invariant
            i <= s@.len(),
            s@ == old(s)@,
            all == crate::text::texts(s@),
            kc@ == k@,
            set_insert(all, k@) == all.take(i as int) + set_insert(all.skip(i as int), k@),
        ensures
            i <= s@.len(),
            s@ == old(s)@,
            all == crate::text::texts(s@),
            set_insert(all, k@) == all.take(i as int) + set_insert(all.skip(i as int), k@),
            i < s@.len() ==> (s@[i as int]@ == k@ || seq_lt(k@, s@[i as int]@)),
        decreases s@.len() - i,
    {
        let ek = chars_of(s[i].as_str());
        if s[i] == k || chars_lt(&kc, &ek) {
            break;
        }
        proof {
            let rest = all.skip(i as int);
            assert(rest[0] == all[i as int]);
            assert(rest.drop_first() =~= all.skip(i + 1));
            assert(all.take(i + 1) =~= all.take(i as int) + seq![rest[0]]);
        }
        i = i + 1;
    }
    let ghost rest = all.skip(i as int);
    let ghost kv = k@;
    if i < s.len() && s[i] == k {
        proof {
            assert(rest[0] == all[i as int]);
            assert(set_insert(rest, kv) == rest);
            assert(all.take(i as int) + rest =~= all);
        }
    } else {
        s.insert(i, k);
        proof {
            if i < all.len() {
                assert(rest[0] == all[i as int]);
                assert(set_insert(rest, kv) == seq![kv] + rest);
            } else {
                assert(rest.len() == 0);
            }
            assert(crate::text::texts(s@) =~= all.take(i as int) + set_insert(rest, kv));
        }
    }
}

} // verus!
