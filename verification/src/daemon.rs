//! The daemon's state between requests: the config it renders with, the render cache, and
//! the watched repositories; and the decisions it takes on each request.
use vstd::prelude::*;

use lru::LruCache;
use std::collections::hash_map::RandomState;

use crate::cache::{compute_cache_key, CacheKey};
use crate::lru_cache::{
    lru_cap, lru_clear, lru_entries, lru_len, lru_peek, lru_wf, CachedValue,
};
use crate::path::{path_eq, same_path, spec_path_string};
use crate::protocol::{parse_request, spec_parse_request, RequestKind};
use crate::render::{
    cache_hit, cached_outcome, render_cached, spec_bust_for_version, BustDir, RenderContext,
};
use crate::watch::{watcher_wf, WatcherState};

verus! {

/// The toml crate's table type, carried through opaque: the daemon keeps a parsed config
/// and hands it to the renderer.
#[verifier::external_type_specification]
#[verifier::external_body]
#[verifier::reject_recursive_types(K)]
#[verifier::reject_recursive_types(V)]
pub struct ExTomlMap<K, V>(toml::map::Map<K, V>);

/// The toml crate's value type, opaque: the values of a config table.
#[verifier::external_type_specification]
#[verifier::external_body]
pub struct ExTomlValue(toml::Value);

/// How many rendered prompts the render cache keeps.
pub const RENDER_CACHE_CAPACITY: usize = 256;

/// Why the daemon cannot serve.
#[derive(Debug, Clone, Copy, PartialEq, Eq, Structural)]
pub enum DaemonError {
    /// The config path does not name a file.
    ConfigNotFound,
    /// The request frame does not parse.
    BadFrame,
}

/// What the daemon keeps between requests.
pub struct DaemonState {
    pub config_path: String,
    pub cached_config: toml::Table,
    /// The config file's mtime when it was last read.
    pub last_cfg_mtime: u64,
    pub lru: LruCache<CacheKey, CachedValue, RandomState>,
    pub watcher: WatcherState,
}

impl DaemonState {
    /// The state's invariant: a well-formed render cache and watcher.
    pub open spec fn wf(&self) -> bool {
        &&& lru_wf(self.lru)
        &&& watcher_wf(self.watcher@)
    }

    /// Starts with the config at `config_path`, read as `cached_config` at mtime
    /// `last_cfg_mtime`; it must name a file. The render cache holds
    /// `RENDER_CACHE_CAPACITY` prompts and no repository is watched yet.
    pub fn new(config_path: String, is_file: bool, cached_config: toml::Table, last_cfg_mtime: u64) -> (r: Result<DaemonState, DaemonError>)
        ensures
            is_file <==> r is Ok,
            !is_file ==> r == Err::<DaemonState, DaemonError>(DaemonError::ConfigNotFound),
            match r {
                Ok(d) => {
                    &&& d.wf()
                    &&& d.config_path@ == config_path@
                    &&& d.cached_config == cached_config
                    &&& d.last_cfg_mtime == last_cfg_mtime
                    &&& lru_entries(d.lru).len() == 0
                    &&& lru_cap(d.lru) == RENDER_CACHE_CAPACITY
                    &&& d.watcher@.entries.len() == 0
                },
                Err(_) => true,
            },
    {
        if !is_file {
            return Err(DaemonError::ConfigNotFound);
        }
        let lru = crate::lru_cache::render_cache(RENDER_CACHE_CAPACITY);
        Ok(DaemonState { config_path, cached_config, last_cfg_mtime, lru, watcher: WatcherState::new() })
    }

    /// Takes up the config `cached_config` read at mtime `last_cfg_mtime`: every cached
    /// prompt was rendered with the old one, so the render cache is emptied.
    pub fn reload_config(&mut self, cached_config: toml::Table, last_cfg_mtime: u64)
        requires
            old(self).wf(),
        ensures
            final(self).wf(),
            final(self).cached_config == cached_config,
            final(self).last_cfg_mtime == last_cfg_mtime,
            final(self).config_path == old(self).config_path,
            lru_entries(final(self).lru).len() == 0,
            lru_cap(final(self).lru) == lru_cap(old(self).lru),
            final(self).watcher == old(self).watcher,
    {
        self.cached_config = cached_config;
        lru_clear(&mut self.lru);
        self.last_cfg_mtime = last_cfg_mtime;
    }

    /// The config a request asks for, where it names another path than the current one
    /// (compared as paths, component by component): the daemon then switches to it if it
    /// names a file.
    pub fn config_switch_candidate(&self, requested: Option<&str>) -> (r: Option<String>)
        ensures
            match requested {
                Some(q) => if !same_path(q@, self.config_path@) {
                    r is Some && r->0@ == q@
                } else {
                    r is None
                },
                None => r is None,
            },
    {
        match requested {
            Some(q) => {
                if path_eq(q, self.config_path.as_str()) {
                    None
                } else {
                    Some(q.to_owned())
                }
            },
            None => None,
        }
    }

    /// What a request's config field asks of the daemon: to switch to the config it names,
    /// where that is another file than the current config; otherwise to check the current
    /// config's mtime. `requested_is_file` tells whether the named path is a file.
    pub fn config_step(&self, requested: Option<&str>, requested_is_file: bool) -> (r: ConfigStep)
        ensures
            match r {
                ConfigStep::Switch(p) => requested is Some && !same_path(requested->0@, self.config_path@)
                    && requested_is_file && p@ == requested->0@,
                ConfigStep::CheckMtime => !(requested is Some && !same_path(requested->0@, self.config_path@)
                    && requested_is_file),
            },
    {
        match self.config_switch_candidate(requested) {
            Some(c) => match crate::cache::load_config(c.as_str(), requested_is_file) {
                Some(p) => ConfigStep::Switch(p),
                None => ConfigStep::CheckMtime,
            },
            None => ConfigStep::CheckMtime,
        }
    }

    /// Switches to the config at `config_path`, read as `cached_config` at mtime
    /// `last_cfg_mtime`, and reloads.
    pub fn switch_config(&mut self, config_path: String, cached_config: toml::Table, last_cfg_mtime: u64)
        requires
            old(self).wf(),
        ensures
            final(self).wf(),
            final(self).config_path@ == config_path@,
            final(self).cached_config == cached_config,
            final(self).last_cfg_mtime == last_cfg_mtime,
            lru_entries(final(self).lru).len() == 0,
            lru_cap(final(self).lru) == lru_cap(old(self).lru),
            final(self).watcher == old(self).watcher,
    {
        self.config_path = config_path;
        self.reload_config(cached_config, last_cfg_mtime);
    }

    /// Whether the config file changed since it was read: its mtime is now `mtime`.
    pub fn config_changed(&self, mtime: u64) -> (r: bool)
        ensures
            r == (mtime != self.last_cfg_mtime),
    {
        mtime != self.last_cfg_mtime
    }

    /// The number of prompts in the render cache.
    pub fn cached_prompts(&self) -> (n: usize)
        ensures
            n == lru_entries(self.lru).len(),
    {
        lru_len(&self.lru)
    }

    /// Renders the prompt for `ctx` with the current config: straight through `render`
    /// into a fresh scratch directory where the request bypasses the cache, leaving the
    /// cache alone; otherwise through the render cache, keyed by the context (its
    /// directory compared as a path), the config mtime and the repository's watcher
    /// version.
    pub fn render_prompt<F: FnOnce(&RenderContext, &toml::Table, BustDir) -> String>(
        &mut self,
        ctx: &RenderContext,
        disable_cache: bool,
        config_mtime: u64,
        watcher_version: u64,
        render: F,
    ) -> (r: String)
        requires
            old(self).wf(),
            call_requires(
                render,
                (
                    ctx,
                    &old(self).cached_config,
                    if disable_cache {
                        BustDir::Fresh
                    } else {
                        spec_bust_for_version(watcher_version, config_mtime)
                    },
                ),
            ),
        ensures
            final(self).wf(),
            final(self).config_path == old(self).config_path,
            final(self).cached_config == old(self).cached_config,
            final(self).last_cfg_mtime == old(self).last_cfg_mtime,
            final(self).watcher == old(self).watcher,
            lru_cap(final(self).lru) == lru_cap(old(self).lru),
            disable_cache ==> {
                &&& call_ensures(render, (ctx, &old(self).cached_config, BustDir::Fresh), r)
                &&& lru_entries(final(self).lru) == lru_entries(old(self).lru)
            },
            !disable_cache ==> exists|k: CacheKey, tb: u64|
                k@ == (spec_path_string(ctx.cwd@), ctx.keymap@, ctx.terminal_width, config_mtime, watcher_version)
                    && cached_outcome(
                    lru_entries(old(self).lru),
                    lru_cap(old(self).lru),
                    lru_entries(final(self).lru),
                    k,
                    ctx,
                    tb,
                    &old(self).cached_config,
                    render,
                    r,
                ),
    {
        if disable_cache {
            return render(ctx, &self.cached_config, BustDir::Fresh);
        }
        let key = compute_cache_key(
            ctx.cwd.as_str(),
            ctx.keymap.as_str(),
            ctx.terminal_width,
            config_mtime,
            watcher_version,
        );
        let ghost before = lru_entries(self.lru);
        let r = render_cached(ctx, &self.cached_config, &key, &mut self.lru, render);
        proof {
            let tb = choose|tb: u64|
                cached_outcome(
                    before,
                    lru_cap(self.lru),
                    lru_entries(self.lru),
                    key,
                    ctx,
                    tb,
                    &self.cached_config,
                    render,
                    r,
                );
            assert(cached_outcome(
                before,
                lru_cap(self.lru),
                lru_entries(self.lru),
                key,
                ctx,
                tb,
                &self.cached_config,
                render,
                r,
            ));
        }
        r
    }

    /// Renders the prompt of a plain request in `.` once, so that the first real request
    /// finds starship's caches warm; the result is kept in the render cache.
    pub fn warm_up<F: FnOnce(&RenderContext, &toml::Table, BustDir) -> String>(&mut self, render: F)
        requires
            old(self).wf(),
            forall|c: RenderContext|
                is_warm_context(c) ==> call_requires(render, (&c, &old(self).cached_config, BustDir::Fresh)),
        ensures
            final(self).wf(),
            final(self).config_path == old(self).config_path,
            final(self).cached_config == old(self).cached_config,
            final(self).last_cfg_mtime == old(self).last_cfg_mtime,
            final(self).watcher == old(self).watcher,
            lru_cap(final(self).lru) == lru_cap(old(self).lru),
            exists|c: RenderContext, k: CacheKey, tb: u64, r: String|
                is_warm_context(c) && is_warm_key(k) && cached_outcome(
                    lru_entries(old(self).lru),
                    lru_cap(old(self).lru),
                    lru_entries(final(self).lru),
                    k,
                    &c,
                    tb,
                    &old(self).cached_config,
                    render,
                    r,
                ),
    {
        let ctx = RenderContext {
            cwd: ".".to_owned(),
            terminal_width: 120,
            status_code: 0,
            keymap: "vi".to_owned(),
        };
        let key = compute_cache_key(".", "vi", 120, 0, 0);
        assert(is_warm_context(ctx));
        let ghost before = lru_entries(self.lru);
        let r = render_cached(&ctx, &self.cached_config, &key, &mut self.lru, render);
        proof {
            let tb = choose|tb: u64|
                cached_outcome(
                    before,
                    lru_cap(self.lru),
                    lru_entries(self.lru),
                    key,
                    &ctx,
                    tb,
                    &self.cached_config,
                    render,
                    r,
                );
            assert(is_warm_context(ctx) && is_warm_key(key) && cached_outcome(
                before,
                lru_cap(self.lru),
                lru_entries(self.lru),
                key,
                &ctx,
                tb,
                &self.cached_config,
                render,
                r,
            ));
        }
    }

    /// Whether the render cache would serve `key` in minute `tb` for exit status
    /// `status_code`, without marking it as used.
    pub fn is_cache_hit(&self, key: &CacheKey, status_code: i32, tb: u64) -> (r: bool)
        ensures
            r == cache_hit(lru_entries(self.lru), key@, tb, status_code) is Some,
    {
        match lru_peek(&self.lru, key) {
            Some(v) => v.time_bucket == tb && v.status_code == status_code,
            None => false,
        }
    }
}

/// `c` is the context of the warm-up render: a plain request in `.`, 120 columns wide, exit
/// status 0, keymap `vi`.
pub open spec fn is_warm_context(c: RenderContext) -> bool {
    &&& c.cwd@ == "."@
    &&& c.terminal_width == 120
    &&& c.status_code == 0
    &&& c.keymap@ == "vi"@
}

/// `k` is the render-cache key of the warm-up render.
pub open spec fn is_warm_key(k: CacheKey) -> bool {
    k@ == (spec_path_string("."@), "vi"@, 120usize, 0u64, 0u64)
}

/// What the daemon does about the config before rendering.
pub enum ConfigStep {
    /// Switch to the config file at this path.
    Switch(String),
    /// Keep the current config, reloading it if its mtime changed.
    CheckMtime,
}

/// A prompt request as the daemon serves it: the working directory defaults to `.` and
/// the keymap to `vi`.
pub struct PromptPlan {
    pub kind: RequestKind,
    pub cwd: String,
    pub status_code: i32,
    pub keymap: String,
    pub terminal_width: usize,
    pub starship_config: Option<String>,
    pub disable_cache: bool,
}

/// What the daemon serves for `frame`, as plain values: kind, cwd, status, keymap, width,
/// requested config, whether to bypass the cache; `None` for a frame that does not parse.
pub open spec fn spec_plan(frame: Seq<u8>) -> Option<(RequestKind, Seq<char>, i32, Seq<char>, usize, Option<Seq<char>>, bool)> {
    match spec_parse_request(frame) {
        Some(f) => Some(
            (
                f.kind,
                if crate::text::utf8_lossy(f.cwd).len() == 0 {
                    "."@
                } else {
                    crate::text::utf8_lossy(f.cwd)
                },
                f.status,
                match f.keymap {
                    Some(b) => crate::text::utf8_lossy(b),
                    None => "vi"@,
                },
                f.width as usize,
                match f.config {
                    Some(b) => Some(crate::text::utf8_lossy(b)),
                    None => None,
                },
                f.disable,
            ),
        ),
        None => None,
    }
}

impl PromptPlan {
    /// This plan as plain values.
    pub open spec fn view_tuple(&self) -> (RequestKind, Seq<char>, i32, Seq<char>, usize, Option<Seq<char>>, bool) {
        (
            self.kind,
            self.cwd@,
            self.status_code,
            self.keymap@,
            self.terminal_width,
            match self.starship_config {
                Some(c) => Some(c@),
                None => None,
            },
            self.disable_cache,
        )
    }
}

/// Reads a request frame: a frame that does not parse is `BadFrame`; otherwise the request
/// with its defaults filled in.
pub fn plan_request(frame: &[u8]) -> (r: Result<PromptPlan, DaemonError>)
    ensures
        match r {
            Ok(p) => spec_plan(frame@) == Some(p.view_tuple()),
            Err(e) => e == DaemonError::BadFrame && spec_plan(frame@) is None,
        },
{
    let req = match parse_request(frame) {
        Some(r) => r,
        None => return Err(DaemonError::BadFrame),
    };
    let cwd = if req.cwd.as_str().is_empty() {
        ".".to_owned()
    } else {
        req.cwd
    };
    let keymap = match req.props.keymap {
        Some(k) => k,
        None => "vi".to_owned(),
    };
    Ok(PromptPlan {
        kind: req.kind,
        cwd,
        status_code: req.props.status_code,
        keymap,
        terminal_width: req.props.terminal_width,
        starship_config: req.props.starship_config,
        disable_cache: req.props.disable_cache,
    })
}

} // verus!
