//! What surrounds a prompt render: the scratch directory that keeps starship's per-path git
//! status cache from going stale, the render cache in front of it, and the one context kept
//! for the repository rendered last.
use vstd::prelude::*;

use lru::LruCache;
use std::collections::hash_map::RandomState;

use crate::cache::{push_path, win_join, CacheKey};
use crate::lru_cache::{
    entries_wf, lemma_promote_wf, lemma_put_after_promote, lemma_put_wf, lru_cap, lru_entries,
    lru_get, lru_put, lru_wf, spec_lookup, spec_promote, spec_put, CachedValue, KeyView,
    ValueView,
};
use crate::path::same_path;
use crate::text::{decimal, push_decimal};

verus! {

/// What a prompt is rendered for.
pub struct RenderContext {
    pub cwd: String,
    pub terminal_width: usize,
    pub status_code: i32,
    pub keymap: String,
}

/// Which scratch directory a render uses inside the git directory.
#[derive(Debug, Clone, Copy, PartialEq, Eq, Structural)]
pub enum BustDir {
    /// One named by the watcher version and config mtime, so that renders of an unchanged
    /// repository share it.
    Reuse { version: u64, config_mtime: u64 },
    /// A new one for every render.
    Fresh,
}

/// The scratch directory for a watcher version: a version of 0 means the repository is not
/// watched, so every render gets a fresh one.
pub open spec fn spec_bust_for_version(version: u64, config_mtime: u64) -> BustDir {
    if version == 0 {
        BustDir::Fresh
    } else {
        BustDir::Reuse { version, config_mtime }
    }
}

/// The scratch directory for a watcher version, as `spec_bust_for_version` states.
pub fn bust_for_version(version: u64, config_mtime: u64) -> (b: BustDir)
    ensures
        b == spec_bust_for_version(version, config_mtime),
{
    if version == 0 {
        BustDir::Fresh
    } else {
        BustDir::Reuse { version, config_mtime }
    }
}

/// Hands out the next number for a fresh scratch directory: the counter's value, which
/// then moves on by one (wrapping, as an atomic counter does).
pub fn fresh_bust_version(counter: &mut u64) -> (v: u64)
    ensures
        v == *old(counter),
        *final(counter) == (if *old(counter) == u64::MAX {
            0
        } else {
            (*old(counter) + 1) as u64
        }),
{
    let v = *counter;
    *counter = if v == u64::MAX {
        0
    } else {
        v + 1
    };
    v
}

/// The scratch directory under `git_dir`: `bust\<version>\<config_mtime>` for reuse, and
/// `bust\disable\<n>` for the fresh one numbered `n`.
pub open spec fn spec_bust_path(git_dir: Seq<char>, kind: BustDir, fresh: u64) -> Seq<char> {
    let root = win_join(git_dir, "bust"@);
    match kind {
        BustDir::Reuse { version, config_mtime } => win_join(
            win_join(root, decimal(version as nat)),
            decimal(config_mtime as nat),
        ),
        BustDir::Fresh => win_join(win_join(root, "disable"@), decimal(fresh as nat)),
    }
}

/// The scratch directory that a render of `kind` uses under `git_dir`; `fresh` numbers a
/// fresh one.
pub fn bust_dir_path(git_dir: &str, kind: BustDir, fresh: u64) -> (p: String)
    ensures
        p@ == spec_bust_path(git_dir@, kind, fresh),
{
    let mut p = git_dir.to_owned();
    push_path(&mut p, "bust");
    match kind {
        BustDir::Reuse { version, config_mtime } => {
            let v = crate::text::u64_to_string(version);
            push_path(&mut p, v.as_str());
            let m = crate::text::u64_to_string(config_mtime);
            push_path(&mut p, m.as_str());
        },
        BustDir::Fresh => {
            push_path(&mut p, "disable");
            let n = crate::text::u64_to_string(fresh);
            push_path(&mut p, n.as_str());
        },
    }
    p
}

/// Every character of `s` is a decimal digit.
pub open spec fn all_digits(s: Seq<char>) -> bool {
    forall|i: int| 0 <= i < s.len() ==> '0' <= #[trigger] s[i] <= '9'
}

/// A decimal representation is a non-empty run of digits.
proof fn lemma_decimal_digits(n: nat)
    ensures
        decimal(n).len() >= 1,
        all_digits(decimal(n)),
    decreases n,
{
    if n >= 10 {
        lemma_decimal_digits(n / 10);
        assert(decimal(n) == decimal(n / 10).push(crate::text::digit(n % 10)));
    }
}

/// Different numbers have different decimal representations.
proof fn lemma_decimal_injective(a: nat, b: nat)
    requires
        decimal(a) == decimal(b),
    ensures
        a == b,
    decreases a,
{
    lemma_decimal_digits(a);
    lemma_decimal_digits(b);
    if a < 10 && b < 10 {
        assert(seq![crate::text::digit(a)][0] == crate::text::digit(a));
        assert(seq![crate::text::digit(b)][0] == crate::text::digit(b));
        assert(crate::text::digit(a) as int == 48 + a);
        assert(crate::text::digit(b) as int == 48 + b);
    } else if a < 10 {
        lemma_decimal_digits(b / 10);
        assert(decimal(b).len() == decimal(b / 10).len() + 1);
    } else if b < 10 {
        lemma_decimal_digits(a / 10);
        assert(decimal(a).len() == decimal(a / 10).len() + 1);
    } else {
        assert(decimal(a) == decimal(a / 10).push(crate::text::digit(a % 10)));
        assert(decimal(b) == decimal(b / 10).push(crate::text::digit(b % 10)));
        assert(decimal(a / 10).push(crate::text::digit(a % 10)).last() == crate::text::digit(a % 10));
        assert(decimal(b / 10).push(crate::text::digit(b % 10)).last() == crate::text::digit(b % 10));
        assert(crate::text::digit(a % 10) as int == 48 + a % 10);
        assert(crate::text::digit(b % 10) as int == 48 + b % 10);
        assert(decimal(a).drop_last() =~= decimal(a / 10));
        assert(decimal(b).drop_last() =~= decimal(b / 10));
        lemma_decimal_injective(a / 10, b / 10);
    }
}

/// Joining a digit run to a path that does not end in a separator puts one in between.
proof fn lemma_join_digits(base: Seq<char>, d: Seq<char>)
    requires
        base.len() >= 3,
        base.last() != '\\',
        base.last() != '/',
        d.len() >= 1,
        all_digits(d),
    ensures
        win_join(base, d) == base.push('\\') + d,
        win_join(base, d).len() >= 3,
        win_join(base, d).last() != '\\',
        win_join(base, d).last() != '/',
{
    assert(win_join(base, d).last() == d.last());
}

/// `r\a\b` determines `a` and `b` where neither holds a separator.
proof fn lemma_two_names(r: Seq<char>, a1: Seq<char>, b1: Seq<char>, a2: Seq<char>, b2: Seq<char>)
    requires
        r.push('\\') + a1 + seq!['\\'] + b1 == r.push('\\') + a2 + seq!['\\'] + b2,
        all_digits(a1),
        all_digits(a2),
    ensures
        a1 == a2,
        b1 == b2,
{
    let x = r.push('\\') + a1 + seq!['\\'] + b1;
    let y = r.push('\\') + a2 + seq!['\\'] + b2;
    let base: int = r.len() as int + 1;
    if a1.len() < a2.len() {
        assert(x[base + a1.len()] == '\\');
        assert(y[base + a1.len()] == a2[a1.len() as int]);
    } else if a2.len() < a1.len() {
        assert(y[base + a2.len()] == '\\');
        assert(x[base + a2.len()] == a1[a2.len() as int]);
    } else {
        assert forall|i: int| 0 <= i < a1.len() implies a1[i] == a2[i] by {
            assert(x[base + i] == y[base + i]);
        }
        assert(a1 =~= a2);
        assert(x.len() == y.len());
        assert forall|i: int| 0 <= i < b1.len() implies b1[i] == b2[i] by {
            assert(x[base + a1.len() + 1 + i] == y[base + a1.len() + 1 + i]);
        }
        assert(b1 =~= b2);
    }
}

/// Reused scratch directories are named by both the watcher version and the config mtime:
/// two renders share one exactly when both agree.
pub proof fn lemma_reuse_bust_path_injective(
    git_dir: Seq<char>,
    v1: u64,
    m1: u64,
    v2: u64,
    m2: u64,
    f1: u64,
    f2: u64,
)
    ensures
        (spec_bust_path(git_dir, BustDir::Reuse { version: v1, config_mtime: m1 }, f1)
            == spec_bust_path(git_dir, BustDir::Reuse { version: v2, config_mtime: m2 }, f2))
            <==> (v1 == v2 && m1 == m2),
{
    let root = win_join(git_dir, "bust"@);
    reveal_strlit("bust");
    assert(root.last() == 't');
    lemma_decimal_digits(v1 as nat);
    lemma_decimal_digits(v2 as nat);
    lemma_decimal_digits(m1 as nat);
    lemma_decimal_digits(m2 as nat);
    lemma_join_digits(root, decimal(v1 as nat));
    lemma_join_digits(root, decimal(v2 as nat));
    lemma_join_digits(win_join(root, decimal(v1 as nat)), decimal(m1 as nat));
    lemma_join_digits(win_join(root, decimal(v2 as nat)), decimal(m2 as nat));
    let p1 = spec_bust_path(git_dir, BustDir::Reuse { version: v1, config_mtime: m1 }, f1);
    let p2 = spec_bust_path(git_dir, BustDir::Reuse { version: v2, config_mtime: m2 }, f2);
    assert(p1 =~= root.push('\\') + decimal(v1 as nat) + seq!['\\'] + decimal(m1 as nat));
    assert(p2 =~= root.push('\\') + decimal(v2 as nat) + seq!['\\'] + decimal(m2 as nat));
    if p1 == p2 {
        lemma_two_names(root, decimal(v1 as nat), decimal(m1 as nat), decimal(v2 as nat), decimal(m2 as nat));
        lemma_decimal_injective(v1 as nat, v2 as nat);
        lemma_decimal_injective(m1 as nat, m2 as nat);
    }
}

/// A fresh scratch directory never is a reused one.
pub proof fn lemma_fresh_bust_path_differs(git_dir: Seq<char>, n: u64, version: u64, config_mtime: u64, f: u64)
    ensures
        spec_bust_path(git_dir, BustDir::Fresh, n) != spec_bust_path(
            git_dir,
            BustDir::Reuse { version, config_mtime },
            f,
        ),
{
    let root = win_join(git_dir, "bust"@);
    reveal_strlit("bust");
    reveal_strlit("disable");
    assert(root.last() == 't');
    lemma_decimal_digits(version as nat);
    lemma_decimal_digits(config_mtime as nat);
    lemma_join_digits(root, decimal(version as nat));
    let w = win_join(root, "disable"@);
    assert(w =~= root.push('\\') + "disable"@);
    let pf = spec_bust_path(git_dir, BustDir::Fresh, n);
    let pr = spec_bust_path(git_dir, BustDir::Reuse { version, config_mtime }, f);
    assert(pf.subrange(0, w.len() as int) =~= w);
    assert(pr.subrange(0, root.len() + 1 + decimal(version as nat).len() as int) =~= win_join(root, decimal(version as nat)));
    assert(pf[root.len() as int + 1] == 'd');
    assert(pr[root.len() as int + 1] == decimal(version as nat)[0]);
}

/// `s` without its trailing newlines.
pub open spec fn trim_newlines(s: Seq<char>) -> Seq<char>
    decreases s.len(),
{
    if s.len() > 0 && s.last() == '\n' {
        trim_newlines(s.drop_last())
    } else {
        s
    }
}

/// A rendered prompt as the shell gets it: without trailing newlines.
pub fn trim_prompt(s: &str) -> (r: String)
    ensures
        r@ == trim_newlines(s@),
{
    let chars = crate::text::str_chars(s);
    let mut end = chars.len();
    assert(chars@.take(end as int) =~= chars@);
    while end > 0 && chars[end - 1] == '\n'
        invariant
            end <= chars@.len(),
            trim_newlines(s@) == trim_newlines(chars@.take(end as int)),
            chars@ == s@,
        decreases end,
    {
        assert(chars@.take(end as int).drop_last() =~= chars@.take(end - 1));
        end = end - 1;
    }
    let mut r = String::new();
    let mut i: usize = 0;
    while i < end
        invariant
            i <= end <= chars@.len(),
            r@ == chars@.take(i as int),
        decreases end - i,
    {
        crate::text::push_char(&mut r, chars[i]);
        i = i + 1;
        assert(r@ =~= chars@.take(i as int));
    }
    r
}

/// The prompt that the render cache serves for `key`: the stored one, where it was
/// rendered in minute `tb` for exit status `status_code`.
pub open spec fn cache_hit(es: Seq<(KeyView, ValueView)>, key: KeyView, tb: u64, status_code: i32) -> Option<Seq<char>> {
    match spec_lookup(es, key) {
        Some(v) => if v.1 == tb && v.2 == status_code {
            Some(v.0)
        } else {
            None
        },
        None => None,
    }
}

/// What serving `key` in minute `tb` does to a render cache that held `before` with room for
/// `cap` entries and now holds `after`, returning `r`: on a hit the stored prompt, its entry
/// moved to the front; on a miss whatever `render_miss` rendered into the scratch directory
/// that the key's watcher version calls for, stored under the key for this minute and
/// status.
pub open spec fn cached_outcome<F: FnOnce(&RenderContext, &toml::Table, BustDir) -> String>(
    before: Seq<(KeyView, ValueView)>,
    cap: nat,
    after: Seq<(KeyView, ValueView)>,
    key: CacheKey,
    ctx: &RenderContext,
    tb: u64,
    config: &toml::Table,
    render_miss: F,
    r: String,
) -> bool {
    match cache_hit(before, key@, tb, ctx.status_code) {
        Some(p) => r@ == p && after == spec_promote(before, key@),
        None => {
            &&& call_ensures(
                render_miss,
                (ctx, config, spec_bust_for_version(key.watcher_version, key.config_mtime)),
                r,
            )
            &&& after == spec_put(before, cap, key@, (r@, tb, ctx.status_code))
        },
    }
}

/// A prompt stored after a miss is what the cache serves for the same key, minute and exit
/// status; a different minute or exit status misses it.
pub proof fn lemma_stored_prompt_is_served(
    es: Seq<(KeyView, ValueView)>,
    cap: nat,
    key: KeyView,
    p: Seq<char>,
    tb: u64,
    status_code: i32,
    other_tb: u64,
    other_status: i32,
)
    requires
        entries_wf(es, cap),
        cap >= 1,
    ensures
        cache_hit(spec_put(es, cap, key, (p, tb, status_code)), key, tb, status_code) == Some(p),
        (other_tb != tb || other_status != status_code) ==> cache_hit(
            spec_put(es, cap, key, (p, tb, status_code)),
            key,
            other_tb,
            other_status,
        ) is None,
{
    lemma_put_wf(es, cap, key, (p, tb, status_code));
}

/// Serving a hit neither adds nor drops a prompt: the cache holds as many entries, with
/// the same value under every key.
pub proof fn lemma_hit_keeps_entries(es: Seq<(KeyView, ValueView)>, cap: nat, key: KeyView, k: KeyView)
    requires
        entries_wf(es, cap),
    ensures
        spec_promote(es, key).len() == es.len(),
        spec_lookup(spec_promote(es, key), k) == spec_lookup(es, k),
{
    lemma_promote_wf(es, cap, key);
}

/// Serves `full_key` from the render cache in minute `tb`, or renders with `render_miss`
/// from `config` and stores the result.
pub fn render_cached_at<F: FnOnce(&RenderContext, &toml::Table, BustDir) -> String>(
    ctx: &RenderContext,
    config: &toml::Table,
    full_key: &CacheKey,
    lru: &mut LruCache<CacheKey, CachedValue, RandomState>,
    tb: u64,
    render_miss: F,
) -> (r: String)
    requires
        lru_wf(*old(lru)),
        call_requires(
            render_miss,
            (ctx, config, spec_bust_for_version(full_key.watcher_version, full_key.config_mtime)),
        ),
    ensures
        lru_wf(*final(lru)),
        lru_cap(*final(lru)) == lru_cap(*old(lru)),
        cached_outcome(
            lru_entries(*old(lru)),
            lru_cap(*old(lru)),
            lru_entries(*final(lru)),
            *full_key,
            ctx,
            tb,
            config,
            render_miss,
            r,
        ),
{
    let ghost before = lru_entries(*lru);
    proof {
        lemma_promote_wf(before, lru_cap(*lru), full_key@);
    }
    let found = lru_get(lru, full_key);
    if let Some(e) = found {
        if e.time_bucket == tb && e.status_code == ctx.status_code {
            return e.rendered;
        }
    }
    let bust = bust_for_version(full_key.watcher_version, full_key.config_mtime);
    let rendered = render_miss(ctx, config, bust);
    let ghost promoted = lru_entries(*lru);
    let value = CachedValue { rendered: rendered.clone(), time_bucket: tb, status_code: ctx.status_code };
    lru_put(lru, full_key.duplicate(), value);
    proof {
        lemma_put_after_promote(before, lru_cap(*lru), full_key@, (rendered@, tb, ctx.status_code));
        lemma_put_wf(promoted, lru_cap(*lru), full_key@, (rendered@, tb, ctx.status_code));
    }
    rendered
}

/// Serves `full_key` from the render cache in the current minute, or renders with
/// `render_miss` from `config` and stores the result.
pub fn render_cached<F: FnOnce(&RenderContext, &toml::Table, BustDir) -> String>(
    ctx: &RenderContext,
    config: &toml::Table,
    full_key: &CacheKey,
    lru: &mut LruCache<CacheKey, CachedValue, RandomState>,
    render_miss: F,
) -> (r: String)
    requires
        lru_wf(*old(lru)),
        call_requires(
            render_miss,
            (ctx, config, spec_bust_for_version(full_key.watcher_version, full_key.config_mtime)),
        ),
    ensures
        lru_wf(*final(lru)),
        lru_cap(*final(lru)) == lru_cap(*old(lru)),
        exists|tb: u64|
            cached_outcome(
                lru_entries(*old(lru)),
                lru_cap(*old(lru)),
                lru_entries(*final(lru)),
                *full_key,
                ctx,
                tb,
                config,
                render_miss,
                r,
            ),
{
    let tb = crate::cache::current_minute();
    render_cached_at(ctx, config, full_key, lru, tb, render_miss)
}

/// The starship context kept from the last render in a repository, with the git directory
/// and index mtime it was made for. `C` is the context type of the renderer.
pub struct RepoCache<C> {
    pub git_dir: String,
    pub index_mtime: u64,
    pub ctx: Option<C>,
}

/// The kept context and what is left kept after taking it for `git_dir` with an index of
/// mtime `index_mtime`: it is handed out only where both match, and only once.
pub open spec fn spec_take_repo_ctx<C>(
    cache: Option<RepoCache<C>>,
    git_dir: Seq<char>,
    index_mtime: u64,
) -> (Option<C>, Option<RepoCache<C>>) {
    match cache {
        Some(rc) => if same_path(rc.git_dir@, git_dir) && rc.index_mtime == index_mtime {
            (rc.ctx, Some(RepoCache { git_dir: rc.git_dir, index_mtime: rc.index_mtime, ctx: None }))
        } else {
            (None, cache)
        },
        None => (None, cache),
    }
}

/// Takes the kept context where it was made for `git_dir` with an index of mtime
/// `index_mtime`, as `spec_take_repo_ctx` states.
pub fn take_repo_ctx<C>(cache: &mut Option<RepoCache<C>>, git_dir: &str, index_mtime: u64) -> (r: Option<C>)
    ensures
        (r, *final(cache)) == spec_take_repo_ctx(*old(cache), git_dir@, index_mtime),
{
    match cache {
        Some(rc) => {
            if crate::path::path_eq(rc.git_dir.as_str(), git_dir) && rc.index_mtime == index_mtime {
                rc.ctx.take()
            } else {
                None
            }
        },
        None => None,
    }
}

/// Keeps `ctx` as the context for `git_dir`, whose index has mtime `index_mtime`.
pub fn save_repo_cache<C>(cache: &mut Option<RepoCache<C>>, git_dir: String, index_mtime: u64, ctx: C)
    ensures
        *final(cache) == Some(RepoCache { git_dir, index_mtime, ctx: Some(ctx) }),
{
    *cache = Some(RepoCache { git_dir, index_mtime, ctx: Some(ctx) });
}

/// Forgets the kept context.
pub fn clear_repo_cache<C>(cache: &mut Option<RepoCache<C>>)
    ensures
        *final(cache) is None,
{
    *cache = None;
}

/// Whether no context is kept.
pub fn repocache_is_empty<C>(cache: &Option<RepoCache<C>>) -> (r: bool)
    ensures
        r == cache is None,
{
    cache.is_none()
}

/// Forgets the kept context.
pub fn repocache_clear<C>(cache: &mut Option<RepoCache<C>>)
    ensures
        *final(cache) is None,
{
    clear_repo_cache(cache);
}

/// The git directory and index mtime that the kept context was made for, if any.
pub open spec fn spec_repocache_state<C>(cache: Option<RepoCache<C>>) -> Option<(Seq<char>, u64)> {
    match cache {
        Some(rc) => Some((rc.git_dir@, rc.index_mtime)),
        None => None,
    }
}

/// The git directory and index mtime that the kept context was made for, if any, as
/// `spec_repocache_state` states.
pub fn repocache_state<C>(cache: &Option<RepoCache<C>>) -> (r: Option<(String, u64)>)
    ensures
        match r {
            Some((g, m)) => Some((g@, m)),
            None => None,
        } == spec_repocache_state(*cache),
{
    match cache {
        Some(rc) => Some((rc.git_dir.clone(), rc.index_mtime)),
        None => None,
    }
}

/// A context kept for a repository is handed back once, to the next render of the same
/// repository with an unchanged index, and not to any later one; a render of another
/// repository, or after the index changed, gets none.
pub proof fn lemma_repo_ctx_taken_once<C>(
    git_dir: String,
    index_mtime: u64,
    ctx: C,
    other_dir: Seq<char>,
    other_mtime: u64,
)
    ensures
        ({
            let saved = Some(RepoCache { git_dir, index_mtime, ctx: Some(ctx) });
            let (first, left) = spec_take_repo_ctx(saved, git_dir@, index_mtime);
            let (second, _) = spec_take_repo_ctx(left, git_dir@, index_mtime);
            &&& first == Some(ctx)
            &&& second is None
            &&& (!same_path(other_dir, git_dir@) || other_mtime != index_mtime) ==> spec_take_repo_ctx(
                saved,
                other_dir,
                other_mtime,
            ).0 is None
        }),
{
}

/// Whatever was kept before, once a render saved its context for `git_dir` with an index
/// of mtime `index_mtime` (what `save_repo_cache` leaves), the kept state is that git
/// directory and mtime and the cache is not empty; once it is cleared (what
/// `repocache_clear` leaves), there is no state and the cache is empty.
pub proof fn lemma_repocache_save_then_clear<C>(
    git_dir: String,
    index_mtime: u64,
    ctx: C,
    saved: Option<RepoCache<C>>,
    cleared: Option<RepoCache<C>>,
)
    requires
        saved == Some(RepoCache { git_dir, index_mtime, ctx: Some(ctx) }),
        cleared is None,
    ensures
        spec_repocache_state(saved) == Some((git_dir@, index_mtime)),
        saved is Some,
        spec_repocache_state(cleared) is None,
{
}

} // verus!
