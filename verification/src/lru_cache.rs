//! The render cache: an `lru::LruCache` from cache keys to rendered prompts, seen through
//! the sequence of its entries, most recently used first.
use vstd::prelude::*;

use lru::LruCache;
use std::collections::hash_map::RandomState;
use std::num::NonZeroUsize;

use crate::cache::CacheKey;

verus! {

/// The lru crate's cache, opaque here: what it holds is seen through `lru_entries` and
/// `lru_cap`.
#[verifier::external_type_specification]
#[verifier::external_body]
#[verifier::reject_recursive_types(K)]
#[verifier::reject_recursive_types(V)]
#[verifier::reject_recursive_types(S)]
pub struct ExLruCache<K, V, S>(LruCache<K, V, S>);

/// A cache key as plain values: cwd, keymap, width, config mtime, watcher version.
pub type KeyView = (Seq<char>, Seq<char>, usize, u64, u64);

/// A cached prompt as plain values: the text, its minute, its exit status.
pub type ValueView = (Seq<char>, u64, i32);

/// A prompt kept in the render cache with the minute it was rendered in and the exit
/// status it was rendered for.
#[derive(Clone)]
pub struct CachedValue {
    pub rendered: String,
    pub time_bucket: u64,
    pub status_code: i32,
}

impl View for CachedValue {
    type V = ValueView;

    open spec fn view(&self) -> ValueView {
        (self.rendered@, self.time_bucket, self.status_code)
    }
}

/// What a render cache holds, most recently used first.
pub uninterp spec fn lru_entries(c: LruCache<CacheKey, CachedValue, RandomState>) -> Seq<(KeyView, ValueView)>;

/// The number of entries a render cache was made to hold at most.
pub uninterp spec fn lru_cap(c: LruCache<CacheKey, CachedValue, RandomState>) -> nat;

/// Entry `i` of `es` has key `k`.
pub open spec fn key_at<K, V>(es: Seq<(K, V)>, k: K, i: int) -> bool {
    0 <= i < es.len() && es[i].0 == k
}

/// Some entry of `es` has key `k`.
pub open spec fn has_key<K, V>(es: Seq<(K, V)>, k: K) -> bool {
    exists|i: int| #[trigger] key_at(es, k, i)
}

/// The position of key `k` in `es`, where it is there.
pub open spec fn key_index<K, V>(es: Seq<(K, V)>, k: K) -> int {
    choose|i: int| #[trigger] key_at(es, k, i)
}

/// No key occurs twice in `es`, and there are at most `cap` entries.
pub open spec fn entries_wf<K, V>(es: Seq<(K, V)>, cap: nat) -> bool {
    &&& es.len() <= cap
    &&& forall|i: int, j: int|
        0 <= i < es.len() && 0 <= j < es.len() && i != j ==> #[trigger] es[i].0 != #[trigger] es[j].0
}

/// A render cache whose entries are well formed and whose capacity is at least one.
pub open spec fn lru_wf(c: LruCache<CacheKey, CachedValue, RandomState>) -> bool {
    lru_cap(c) >= 1 && entries_wf(lru_entries(c), lru_cap(c))
}

/// The value for key `k` in `es`, if any.
pub open spec fn spec_lookup<K, V>(es: Seq<(K, V)>, k: K) -> Option<V> {
    if has_key(es, k) {
        Some(es[key_index(es, k)].1)
    } else {
        None
    }
}

/// `es` after a use of key `k`: its entry, where there is one, moves to the front.
pub open spec fn spec_promote<K, V>(es: Seq<(K, V)>, k: K) -> Seq<(K, V)> {
    if has_key(es, k) {
        seq![es[key_index(es, k)]] + es.remove(key_index(es, k))
    } else {
        es
    }
}

/// `es` after storing `v` under `k` with room for `cap` entries: the entry goes to the
/// front, replacing the one with the same key, or else the least recently used one when
/// the cache is full.
pub open spec fn spec_put<K, V>(es: Seq<(K, V)>, cap: nat, k: K, v: V) -> Seq<(K, V)> {
    if has_key(es, k) {
        seq![(k, v)] + es.remove(key_index(es, k))
    } else if es.len() == cap {
        seq![(k, v)] + es.drop_last()
    } else {
        seq![(k, v)] + es
    }
}

/// Using a key keeps the entries well formed and holds the same entries.
pub proof fn lemma_promote_wf<K, V>(es: Seq<(K, V)>, cap: nat, k: K)
    requires
        entries_wf(es, cap),
    ensures
        entries_wf(spec_promote(es, k), cap),
        spec_promote(es, k).len() == es.len(),
        forall|kk: K| #[trigger] spec_lookup(spec_promote(es, k), kk) == spec_lookup(es, kk),
{
    if has_key(es, k) {
        let i = key_index(es, k);
        let r = spec_promote(es, k);
        assert(key_at(es, k, i));
        assert forall|a: int| 0 <= a < r.len() implies #[trigger] r[a] == es[if a == 0 { i } else if a <= i { a - 1 } else { a }] by {}
        assert forall|a: int, b: int|
            0 <= a < r.len() && 0 <= b < r.len() && a != b implies #[trigger] r[a].0 != #[trigger] r[b].0 by {
            let ia = if a == 0 { i } else if a <= i { a - 1 } else { a };
            let ib = if b == 0 { i } else if b <= i { b - 1 } else { b };
            assert(r[a] == es[ia] && r[b] == es[ib]);
        }
        assert forall|kk: K| #[trigger] spec_lookup(r, kk) == spec_lookup(es, kk) by {
            if has_key(es, kk) {
                let j = key_index(es, kk);
                assert(key_at(es, kk, j));
                let rj = if j == i { 0 } else if j < i { j + 1 } else { j };
                assert(r[rj] == es[j]);
                assert(key_at(r, kk, rj));
                let rk = key_index(r, kk);
                let ik = if rk == 0 { i } else if rk <= i { rk - 1 } else { rk };
                assert(r[rk] == es[ik]);
            } else {
                if has_key(r, kk) {
                    let rk = key_index(r, kk);
                    let ik = if rk == 0 { i } else if rk <= i { rk - 1 } else { rk };
                    assert(r[rk] == es[ik]);
                    assert(key_at(es, kk, ik));
                }
            }
        }
    }
}

/// Storing an entry keeps the entries well formed, and a later lookup of its key finds it.
pub proof fn lemma_put_wf<K, V>(es: Seq<(K, V)>, cap: nat, k: K, v: V)
    requires
        entries_wf(es, cap),
        cap >= 1,
    ensures
        entries_wf(spec_put(es, cap, k, v), cap),
        spec_lookup(spec_put(es, cap, k, v), k) == Some(v),
        spec_put(es, cap, k, v)[0] == (k, v),
{
    let r = spec_put(es, cap, k, v);
    if has_key(es, k) {
        let i = key_index(es, k);
        assert(key_at(es, k, i));
        assert forall|a: int| 1 <= a < r.len() implies #[trigger] r[a] == es[if a <= i { a - 1 } else { a }] by {}
        assert forall|a: int, b: int|
            0 <= a < r.len() && 0 <= b < r.len() && a != b implies #[trigger] r[a].0 != #[trigger] r[b].0 by {
            let ia = if a <= i { a - 1 } else { a };
            let ib = if b <= i { b - 1 } else { b };
            if a > 0 {
                assert(r[a] == es[ia]);
            }
            if b > 0 {
                assert(r[b] == es[ib]);
            }
        }
    } else {
        assert forall|a: int| 1 <= a < r.len() implies #[trigger] r[a] == es[a - 1] by {}
        assert forall|a: int, b: int|
            0 <= a < r.len() && 0 <= b < r.len() && a != b implies #[trigger] r[a].0 != #[trigger] r[b].0 by {
            if a > 0 {
                assert(r[a] == es[a - 1]);
                if r[a].0 == k {
                    assert(key_at(es, k, a - 1));
                }
            }
            if b > 0 {
                assert(r[b] == es[b - 1]);
                if r[b].0 == k {
                    assert(key_at(es, k, b - 1));
                }
            }
        }
    }
    assert(key_at(r, k, 0));
    let j = key_index(r, k);
    assert(j == 0);
}

/// Using a key right before storing under it changes nothing: storing moves it to the
/// front anyway.
pub proof fn lemma_put_after_promote<K, V>(es: Seq<(K, V)>, cap: nat, k: K, v: V)
    requires
        entries_wf(es, cap),
    ensures
        spec_put(spec_promote(es, k), cap, k, v) == spec_put(es, cap, k, v),
{
    if has_key(es, k) {
        let i = key_index(es, k);
        let p = spec_promote(es, k);
        assert(key_at(es, k, i));
        assert(key_at(p, k, 0));
        lemma_promote_wf(es, cap, k);
        let j = key_index(p, k);
        assert(j == 0);
        assert(p.remove(0) =~= es.remove(i));
    }
}

/// Storing into a full cache under a new key drops exactly the least recently used entry:
/// its key is no longer found, and every other key keeps its value.
pub proof fn lemma_full_put_evicts_lru<K, V>(es: Seq<(K, V)>, cap: nat, k: K, v: V)
    requires
        entries_wf(es, cap),
        cap >= 1,
        es.len() == cap,
        !has_key(es, k),
    ensures
        spec_put(es, cap, k, v).len() == cap,
        spec_lookup(spec_put(es, cap, k, v), es.last().0) is None,
        forall|i: int|
            0 <= i < es.len() - 1 ==> #[trigger] spec_lookup(spec_put(es, cap, k, v), es[i].0) == Some(es[i].1),
{
    let r = spec_put(es, cap, k, v);
    lemma_put_wf(es, cap, k, v);
    assert forall|a: int| 1 <= a < r.len() implies #[trigger] r[a] == es[a - 1] by {}
    let last = es.last().0;
    if has_key(r, last) {
        let j = key_index(r, last);
        assert(key_at(r, last, j));
        if j == 0 {
            assert(key_at(es, k, es.len() - 1));
        } else {
            assert(r[j] == es[j - 1]);
            assert(es[j - 1].0 == es[es.len() - 1].0);
        }
    }
    assert forall|i: int| 0 <= i < es.len() - 1 implies #[trigger] spec_lookup(r, es[i].0) == Some(es[i].1) by {
        assert(r[i + 1] == es[i]);
        assert(key_at(r, es[i].0, i + 1));
        let j = key_index(r, es[i].0);
        assert(key_at(r, es[i].0, j));
        if j == 0 {
            assert(key_at(es, k, i));
        } else {
            assert(r[j] == es[j - 1]);
        }
    }
}

/// Makes an empty render cache that holds at most `cap` entries, by calling
/// `LruCache::with_hasher` of the lru crate.
///
/// Trusted: the cache is empty and has capacity `cap`.
#[verifier::external_body]
pub(crate) fn lru_new(cap: usize) -> (c: LruCache<CacheKey, CachedValue, RandomState>)
    requires
        cap >= 1,
    ensures
        lru_entries(c) == Seq::<(KeyView, ValueView)>::empty(),
        lru_cap(c) == cap,
{
    LruCache::with_hasher(NonZeroUsize::new(cap).unwrap(), RandomState::new())
}

/// An empty render cache that holds at most `cap` prompts.
pub fn render_cache(cap: usize) -> (c: LruCache<CacheKey, CachedValue, RandomState>)
    requires
        cap >= 1,
    ensures
        lru_wf(c),
        lru_entries(c).len() == 0,
        lru_cap(c) == cap,
{
    lru_new(cap)
}

/// Looks up `k` and marks its entry as just used, by calling `LruCache::get` of the lru
/// crate; the value comes back as a copy made by the derived `Clone`, which copies every
/// field.
///
/// Trusted: the result is the value stored under a key equal to `k` (the key's derived
/// `Eq` and `Hash` take every field, so they agree with equality of views), and that entry
/// moves to the front; nothing else changes.
#[verifier::external_body]
pub(crate) fn lru_get(c: &mut LruCache<CacheKey, CachedValue, RandomState>, k: &CacheKey) -> (r: Option<CachedValue>)
    ensures
        lru_entries(*final(c)) == spec_promote(lru_entries(*old(c)), k@),
        lru_cap(*final(c)) == lru_cap(*old(c)),
        match r {
            Some(v) => spec_lookup(lru_entries(*old(c)), k@) == Some(v@),
            None => spec_lookup(lru_entries(*old(c)), k@) is None,
        },
{
    c.get(k).cloned()
}

/// Looks up `k` without marking it as used, by calling `LruCache::peek` of the lru crate;
/// the value comes back as a copy made by the derived `Clone`.
///
/// Trusted: the result is the value stored under a key equal to `k`.
#[verifier::external_body]
pub(crate) fn lru_peek(c: &LruCache<CacheKey, CachedValue, RandomState>, k: &CacheKey) -> (r: Option<CachedValue>)
    ensures
        match r {
            Some(v) => spec_lookup(lru_entries(*c), k@) == Some(v@),
            None => spec_lookup(lru_entries(*c), k@) is None,
        },
{
    c.peek(k).cloned()
}

/// Stores `v` under `k`, by calling `LruCache::put` of the lru crate.
///
/// Trusted: the entries change as `spec_put` states: the new entry first, in place of the
/// one with an equal key or, in a full cache, of the least recently used one.
#[verifier::external_body]
pub(crate) fn lru_put(c: &mut LruCache<CacheKey, CachedValue, RandomState>, k: CacheKey, v: CachedValue)
    ensures
        lru_entries(*final(c)) == spec_put(lru_entries(*old(c)), lru_cap(*old(c)), k@, v@),
        lru_cap(*final(c)) == lru_cap(*old(c)),
{
    let _ = c.put(k, v);
}

/// Drops every entry, by calling `LruCache::clear` of the lru crate.
///
/// Trusted: no entry is left and the capacity is unchanged.
#[verifier::external_body]
pub(crate) fn lru_clear(c: &mut LruCache<CacheKey, CachedValue, RandomState>)
    ensures
        lru_entries(*final(c)) == Seq::<(KeyView, ValueView)>::empty(),
        lru_cap(*final(c)) == lru_cap(*old(c)),
{
    c.clear();
}

/// The number of entries, by calling `LruCache::len` of the lru crate.
///
/// Trusted: the length of the entry sequence.
#[verifier::external_body]
pub(crate) fn lru_len(c: &LruCache<CacheKey, CachedValue, RandomState>) -> (n: usize)
    ensures
        n == lru_entries(*c).len(),
{
    c.len()
}

} // verus!
