# starship_daemon

A daemon that keeps starship loaded and renders shell prompts over a Windows named pipe,
with a render cache invalidated by a per-repository change watcher. The library in `src/`
holds the daemon's logic with Verus contracts; `app/` is the Windows program around it.

## Layout

- `src/protocol.rs` – the request and response frames, the header check, the pipe name.
- `src/daemon.rs` – the daemon state: config reloads, the render cache, request plans.
- `src/render.rs` – scratch directories for renders, the render cache in front of
  starship, the context kept for the last repository.
- `src/lru_cache.rs` – the render cache (an `lru::LruCache`) seen as a sequence of entries.
- `src/watch.rs` – the repository watcher's bookkeeping: versions, pending changes, which
  changes count, parsing of change records.
- `src/watch_runs.rs` – what holds over any run of watcher operations: the invariant,
  growing versions, fresh versions for repositories that come back.
- `src/gitignore.rs` – `.gitignore` parsing and matching.
- `src/cache.rs` – cache keys, the minute bucket, config paths, the config table parsed
  from the config file's text.
- `src/path.rs` – paths compared component by component.
- `src/git_dir.rs` – the memo of git-directory lookups (an `lru::LruCache`).
- `src/session.rs` – pipe-session decisions: frame reading, completions, eviction.
- `src/timings.rs`, `src/modules.rs` – the timings report and the module list it covers.
- `src/stats.rs` – the watcher's diagnostic counters.
- `src/json_props.rs` – client properties in the flat JSON form.
- `src/text.rs`, `src/ffi.rs` – string helpers and UTF-16 encoding.
- `app/` – `main`, the pipe server, the OS side of the watcher, rendering with starship.
