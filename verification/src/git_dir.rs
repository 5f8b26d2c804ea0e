//! The memo of git-directory lookups: an `lru::LruCache` from the directory asked about
//! (compared as a path) to the git directory found for it, if any, seen through its
//! entries, most recently used first.
use vstd::prelude::*;

use lru::LruCache;
use std::collections::hash_map::RandomState;
use std::num::NonZeroUsize;

use crate::lru_cache::{entries_wf, spec_lookup, spec_promote, spec_put};
use crate::path::{path_string, spec_path_string};
use crate::text::opt_chars;

verus! {

/// How many directories the memo remembers.
pub const GIT_DIR_MEMO_CAPACITY: usize = 64;

/// A memo entry as plain values: the directory, and the git directory found for it.
pub type MemoEntry = (Seq<char>, Option<Seq<char>>);

/// What a git-directory memo holds, most recently used first.
pub uninterp spec fn memo_entries(c: LruCache<String, Option<String>, RandomState>) -> Seq<MemoEntry>;

/// The number of entries a git-directory memo was made to hold at most.
pub uninterp spec fn memo_cap(c: LruCache<String, Option<String>, RandomState>) -> nat;

/// Makes an empty memo that holds at most `cap` entries, by calling
/// `LruCache::with_hasher` of the lru crate.
///
/// Trusted: the memo is empty and has capacity `cap`.
#[verifier::external_body]
fn memo_new(cap: usize) -> (c: LruCache<String, Option<String>, RandomState>)
    requires
        cap >= 1,
    ensures
        memo_entries(c) == Seq::<MemoEntry>::empty(),
        memo_cap(c) == cap,
{
    LruCache::with_hasher(NonZeroUsize::new(cap).unwrap(), RandomState::new())
}

/// Looks up `dir` and marks its entry as just used, by calling `LruCache::get` of the lru
/// crate; the value comes back as a clone.
///
/// Trusted: the result is the value stored under the key with the characters of `dir`
/// (`String`'s `Eq` and `Hash` go by the characters), and that entry moves to the front;
/// nothing else changes.
#[verifier::external_body]
fn memo_get(c: &mut LruCache<String, Option<String>, RandomState>, dir: &str) -> (r: Option<Option<String>>)
    ensures
        memo_entries(*final(c)) == spec_promote(memo_entries(*old(c)), dir@),
        memo_cap(*final(c)) == memo_cap(*old(c)),
        match r {
            Some(v) => spec_lookup(memo_entries(*old(c)), dir@) == Some(opt_chars(v)),
            None => spec_lookup(memo_entries(*old(c)), dir@) is None,
        },
{
    c.get(dir).cloned()
}

/// Stores `v` under `dir`, by calling `LruCache::put` of the lru crate.
///
/// Trusted: the entries change as `spec_put` states: the new entry first, in place of the
/// one with the same key or, in a full memo, of the least recently used one.
#[verifier::external_body]
fn memo_put(c: &mut LruCache<String, Option<String>, RandomState>, dir: String, v: Option<String>)
    ensures
        memo_entries(*final(c)) == spec_put(memo_entries(*old(c)), memo_cap(*old(c)), dir@, opt_chars(v)),
        memo_cap(*final(c)) == memo_cap(*old(c)),
{
    let _ = c.put(dir, v);
}

/// The key a lookup for `cwd` is remembered under: `.` for the empty path, else `cwd`.
pub open spec fn spec_memo_key(cwd: Seq<char>) -> Seq<char> {
    if cwd.len() == 0 {
        "."@
    } else {
        cwd
    }
}

/// The key a lookup for `cwd` is remembered under, as `spec_memo_key` states.
pub fn memo_key(cwd: &str) -> (r: String)
    ensures
        r@ == spec_memo_key(cwd@),
{
    let v = crate::text::str_chars(cwd);
    if v.len() == 0 {
        let dot = ".";
        proof {
            reveal_strlit(".");
        }
        dot.to_owned()
    } else {
        cwd.to_owned()
    }
}

/// The git directories found for the directories asked about lately.
pub struct GitDirMemo {
    pub cache: LruCache<String, Option<String>, RandomState>,
}

impl GitDirMemo {
    /// The memo's invariant: room for at least one entry, at most that many entries, no
    /// directory twice.
    pub open spec fn wf(&self) -> bool {
        memo_cap(self.cache) >= 1 && entries_wf(memo_entries(self.cache), memo_cap(self.cache))
    }

    /// What the memo holds, most recently used first.
    pub open spec fn entries(&self) -> Seq<MemoEntry> {
        memo_entries(self.cache)
    }

    /// An empty memo for `GIT_DIR_MEMO_CAPACITY` directories.
    pub fn new() -> (m: GitDirMemo)
        ensures
            m.wf(),
            m.entries().len() == 0,
            memo_cap(m.cache) == GIT_DIR_MEMO_CAPACITY,
    {
        GitDirMemo { cache: memo_new(GIT_DIR_MEMO_CAPACITY) }
    }

    /// The remembered git directory for the path `dir`, where the same path (in any
    /// spelling) was asked about; its entry becomes the most recently used. Entries are
    /// kept under the path's one spelling, `spec_path_string`.
    pub fn lookup(&mut self, dir: &str) -> (r: Option<Option<String>>)
        requires
            old(self).wf(),
        ensures
            final(self).wf(),
            final(self).entries() == spec_promote(old(self).entries(), spec_path_string(dir@)),
            memo_cap(final(self).cache) == memo_cap(old(self).cache),
            match r {
                Some(v) => spec_lookup(old(self).entries(), spec_path_string(dir@)) == Some(opt_chars(v)),
                None => spec_lookup(old(self).entries(), spec_path_string(dir@)) is None,
            },
    {
        let key = path_string(dir);
        proof {
            crate::lru_cache::lemma_promote_wf(self.entries(), memo_cap(self.cache), key@);
        }
        memo_get(&mut self.cache, key.as_str())
    }

    /// Remembers `found` as the git directory for the path `dir`, as the most recently
    /// used entry under the path's one spelling; a full memo forgets its least recently
    /// used entry.
    pub fn remember(&mut self, dir: &str, found: Option<String>)
        requires
            old(self).wf(),
        ensures
            final(self).wf(),
            final(self).entries() == spec_put(
                old(self).entries(),
                memo_cap(old(self).cache),
                spec_path_string(dir@),
                opt_chars(found),
            ),
            memo_cap(final(self).cache) == memo_cap(old(self).cache),
            spec_lookup(final(self).entries(), spec_path_string(dir@)) == Some(opt_chars(found)),
    {
        let key = path_string(dir);
        proof {
            crate::lru_cache::lemma_put_wf(self.entries(), memo_cap(self.cache), key@, opt_chars(found));
        }
        memo_put(&mut self.cache, key, found);
    }

    /// The git directory of the repository holding `cwd`: the remembered one where the
    /// same path was asked about before; otherwise what `uncached` finds for `cwd` (`.`
    /// for the empty path), which is then remembered under that path.
    pub fn find_git_dir<F: FnOnce(&str) -> Option<String>>(&mut self, cwd: &str, uncached: F) -> (r: Option<String>)
        requires
            old(self).wf(),
            forall|p: &str| #[trigger] call_requires(uncached, (p,)),
        ensures
            final(self).wf(),
            memo_cap(final(self).cache) == memo_cap(old(self).cache),
            match spec_lookup(old(self).entries(), spec_path_string(cwd@)) {
                Some(v) => opt_chars(r) == v && final(self).entries() == spec_promote(
                    old(self).entries(),
                    spec_path_string(cwd@),
                ),
                None => {
                    &&& exists|p: &str| p@ == spec_memo_key(cwd@) && #[trigger] call_ensures(uncached, (p,), r)
                    &&& final(self).entries() == spec_put(
                        old(self).entries(),
                        memo_cap(old(self).cache),
                        spec_path_string(spec_memo_key(cwd@)),
                        opt_chars(r),
                    )
                },
            },
    {
        match self.lookup(cwd) {
            Some(v) => v,
            None => {
                let key = memo_key(cwd);
                let k: &str = key.as_str();
                let found = uncached(k);
                assert(call_ensures(uncached, (k,), found));
                let kept = match &found {
                    Some(g) => Some(g.clone()),
                    None => None,
                };
                assert(opt_chars(kept) == opt_chars(found));
                self.remember(key.as_str(), kept);
                found
            },
        }
    }
}

} // verus!
