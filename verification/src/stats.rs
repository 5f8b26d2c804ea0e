//! Diagnostic counters of the watcher: what it was woken for, what it dropped and why, per
//! repository; drained into a text report.
use vstd::prelude::*;

use crate::path::{path_eq, same_path};
use crate::text::{decimal, push_decimal, push_str};

verus! {

/// The most repositories whose counters are kept.
pub const MAX_REPO_STATS: usize = 64;

/// The most dropped paths kept as samples.
pub const MAX_DROPPED_SAMPLES: usize = 5;

/// Counters for one repository.
pub struct RepoStat {
    pub repo: String,
    pub completions: u64,
    pub dropped_git_internal: u64,
    pub dropped_gitignored: u64,
}

impl View for RepoStat {
    type V = (Seq<char>, u64, u64, u64);

    open spec fn view(&self) -> (Seq<char>, u64, u64, u64) {
        (self.repo@, self.completions, self.dropped_git_internal, self.dropped_gitignored)
    }
}

/// The watcher's counters and accumulated nanoseconds per step, the counters per
/// repository, and a few paths that a gitignore filter dropped.
pub struct WatcherStats {
    pub wakes: u64,
    pub sweep_checks: u64,
    pub completions: u64,
    pub records: u64,
    pub reloads: u64,
    pub re_arms: u64,
    pub bumps: u64,
    pub ensures: u64,
    pub evictions: u64,
    pub nanos_sweep: u64,
    pub nanos_handle_event: u64,
    pub nanos_parse: u64,
    pub nanos_filter: u64,
    pub nanos_rearm: u64,
    pub nanos_reload: u64,
    pub nanos_flush: u64,
    pub nanos_ensure: u64,
    pub nanos_version: u64,
    pub per_repo: Vec<RepoStat>,
    pub dropped_samples: Vec<String>,
}

/// The views of per-repository counters.
pub open spec fn repo_stats_view(v: Seq<RepoStat>) -> Seq<(Seq<char>, u64, u64, u64)> {
    v.map_values(|r: RepoStat| r@)
}

impl WatcherStats {
    /// All counters at zero, nothing recorded.
    pub fn new() -> (s: WatcherStats)
        ensures
            s.zeroed(),
    {
        WatcherStats {
            wakes: 0,
            sweep_checks: 0,
            completions: 0,
            records: 0,
            reloads: 0,
            re_arms: 0,
            bumps: 0,
            ensures: 0,
            evictions: 0,
            nanos_sweep: 0,
            nanos_handle_event: 0,
            nanos_parse: 0,
            nanos_filter: 0,
            nanos_rearm: 0,
            nanos_reload: 0,
            nanos_flush: 0,
            nanos_ensure: 0,
            nanos_version: 0,
            per_repo: Vec::new(),
            dropped_samples: Vec::new(),
        }
    }

    /// Every counter is zero and nothing is recorded.
    pub open spec fn zeroed(&self) -> bool {
        &&& self.wakes == 0 && self.sweep_checks == 0 && self.completions == 0
        &&& self.records == 0 && self.reloads == 0 && self.re_arms == 0
        &&& self.bumps == 0 && self.ensures == 0 && self.evictions == 0
        &&& self.nanos_sweep == 0 && self.nanos_handle_event == 0 && self.nanos_parse == 0
        &&& self.nanos_filter == 0 && self.nanos_rearm == 0 && self.nanos_reload == 0
        &&& self.nanos_flush == 0 && self.nanos_ensure == 0 && self.nanos_version == 0
        &&& self.per_repo@.len() == 0
        &&& self.dropped_samples@.len() == 0
    }

    /// Keeps `path` as a dropped sample while fewer than `MAX_DROPPED_SAMPLES` are kept.
    pub fn record_dropped_sample(&mut self, path: String)
        ensures
            old(self).dropped_samples@.len() < MAX_DROPPED_SAMPLES ==> final(self).dropped_samples@
                == old(self).dropped_samples@.push(path),
            old(self).dropped_samples@.len() >= MAX_DROPPED_SAMPLES ==> final(self).dropped_samples@
                == old(self).dropped_samples@,
            final(self).per_repo@ == old(self).per_repo@,
    {
        if self.dropped_samples.len() < MAX_DROPPED_SAMPLES {
            self.dropped_samples.push(path);
        }
    }
}

/// `a + b`, wrapping around past `u64::MAX`.
pub open spec fn wrap_add(a: u64, b: u64) -> u64 {
    if a + b > u64::MAX {
        (a + b - u64::MAX - 1) as u64
    } else {
        (a + b) as u64
    }
}

/// The per-repository counters after one completion in `repo` that saw `completions`
/// records, of which `internal` were git-internal and `ignored` gitignored: added to the
/// repository's counters where it has some, else a new entry at the end, dropping the
/// oldest entry when more than `MAX_REPO_STATS` are kept.
pub open spec fn spec_repo_stats(
    v: Seq<(Seq<char>, u64, u64, u64)>,
    repo: Seq<char>,
    completions: u64,
    internal: u64,
    ignored: u64,
) -> Seq<(Seq<char>, u64, u64, u64)> {
    if exists|i: int| 0 <= i < v.len() && same_path(#[trigger] v[i].0, repo) {
        let i = choose|i: int| 0 <= i < v.len() && same_path(#[trigger] v[i].0, repo) && forall|j: int|
            0 <= j < i ==> !same_path(#[trigger] v[j].0, repo);
        v.update(
            i,
            (v[i].0, wrap_add(v[i].1, completions), wrap_add(v[i].2, internal), wrap_add(v[i].3, ignored)),
        )
    } else {
        let w = v.push((repo, completions, internal, ignored));
        if w.len() > MAX_REPO_STATS {
            w.drop_first()
        } else {
            w
        }
    }
}

/// The first index of `repo` among the counters, if any.
fn find_repo(per_repo: &Vec<RepoStat>, repo: &str) -> (r: Option<usize>)
    ensures
        match r {
            Some(i) => i < per_repo@.len() && same_path(per_repo@[i as int].repo@, repo@) && forall|j: int|
                0 <= j < i ==> !same_path(#[trigger] per_repo@[j].repo@, repo@),
            None => forall|j: int| 0 <= j < per_repo@.len() ==> !same_path(#[trigger] per_repo@[j].repo@, repo@),
        },
{
    let mut i: usize = 0;
    while i < per_repo.len()
        invariant
            i <= per_repo@.len(),
            forall|j: int| 0 <= j < i ==> !same_path(#[trigger] per_repo@[j].repo@, repo@),
        decreases per_repo@.len() - i,
    {
        if path_eq(per_repo[i].repo.as_str(), repo) {
            return Some(i);
        }
        i = i + 1;
    }
    None
}

/// Adds one completion's counts to the counters of `repo`, as `spec_repo_stats` states.
pub fn repo_stats(stats: &mut WatcherStats, repo: &str, completions: u64, internal: u64, ignored: u64)
    ensures
        repo_stats_view(final(stats).per_repo@) == spec_repo_stats(
            repo_stats_view(old(stats).per_repo@),
            repo@,
            completions,
            internal,
            ignored,
        ),
        final(stats).dropped_samples@ == old(stats).dropped_samples@,
{
    let ghost v = repo_stats_view(stats.per_repo@);
    match find_repo(&stats.per_repo, repo) {
        Some(i) => {
            proof {
                assert(same_path(v[i as int].0, repo@));
                assert forall|j: int| 0 <= j < i implies !same_path(#[trigger] v[j].0, repo@) by {
                    assert(v[j] == stats.per_repo@[j]@);
                }
                let k = choose|k: int| 0 <= k < v.len() && same_path(#[trigger] v[k].0, repo@) && forall|j: int|
                    0 <= j < k ==> !same_path(#[trigger] v[j].0, repo@);
                if k < i {
                    assert(!same_path(v[k].0, repo@));
                } else if k > i {
                    assert(!same_path(v[i as int].0, repo@));
                }
            }
            let s = &mut stats.per_repo[i];
            s.completions = s.completions.wrapping_add(completions);
            s.dropped_git_internal = s.dropped_git_internal.wrapping_add(internal);
            s.dropped_gitignored = s.dropped_gitignored.wrapping_add(ignored);
            assert(repo_stats_view(stats.per_repo@) =~= spec_repo_stats(v, repo@, completions, internal, ignored));
        },
        None => {
            proof {
                assert forall|j: int| 0 <= j < v.len() implies !same_path(#[trigger] v[j].0, repo@) by {
                    assert(v[j] == stats.per_repo@[j]@);
                }
            }
            stats.per_repo.push(
                RepoStat {
                    repo: repo.to_owned(),
                    completions,
                    dropped_git_internal: internal,
                    dropped_gitignored: ignored,
                },
            );
            if stats.per_repo.len() > MAX_REPO_STATS {
                let _ = stats.per_repo.remove(0);
            }
            assert(repo_stats_view(stats.per_repo@) =~= spec_repo_stats(v, repo@, completions, internal, ignored));
        },
    }
}

/// The counters line of a stats report.
pub open spec fn counters_line(s: WatcherStats) -> Seq<char> {
    "counters: wakes="@ + decimal(s.wakes as nat) + " sweep_checks="@ + decimal(s.sweep_checks as nat)
        + " completions="@ + decimal(s.completions as nat) + " records="@ + decimal(
        s.records as nat,
    ) + " reloads="@ + decimal(s.reloads as nat) + " rearms="@ + decimal(s.re_arms as nat)
        + " bumps="@ + decimal(s.bumps as nat) + " ensures="@ + decimal(s.ensures as nat)
        + " evictions="@ + decimal(s.evictions as nat) + "\n"@
}

/// The report line of one repository, after its name as the caller quotes it.
pub open spec fn repo_line(quoted: Seq<char>, r: (Seq<char>, u64, u64, u64)) -> Seq<char> {
    "  repo "@ + quoted + ": completions="@ + decimal(r.1 as nat) + " dropped_internal="@
        + decimal(r.2 as nat) + " dropped_ignored="@ + decimal(r.3 as nat) + "\n"@
}

/// The report lines of the repositories, in order.
pub open spec fn repo_lines(quoted: Seq<Seq<char>>, rs: Seq<(Seq<char>, u64, u64, u64)>) -> Seq<char>
    decreases rs.len(),
{
    if rs.len() == 0 || quoted.len() < rs.len() {
        Seq::empty()
    } else {
        repo_lines(quoted, rs.drop_last()) + repo_line(quoted[rs.len() - 1], rs.last())
    }
}

/// The report lines of the dropped samples, in order.
pub open spec fn sample_lines(samples: Seq<Seq<char>>) -> Seq<char>
    decreases samples.len(),
{
    if samples.len() == 0 {
        Seq::empty()
    } else {
        sample_lines(samples.drop_last()) + "  dropped: "@ + samples.last() + "\n"@
    }
}

/// The characters of each string.
pub open spec fn strings_view(v: Seq<String>) -> Seq<Seq<char>> {
    v.map_values(|s: String| s@)
}

/// The stats report, and every counter back at zero: the counters line, the line of step
/// timings `us_line` (which the caller formats), one line per repository headed by its name
/// as given in `quoted`, and one line per dropped sample.
pub fn drain_stats(stats: &mut WatcherStats, us_line: &str, quoted: &Vec<String>) -> (r: String)
    requires
        quoted@.len() == old(stats).per_repo@.len(),
    ensures
        r@ == counters_line(*old(stats)) + us_line@ + repo_lines(
            strings_view(quoted@),
            repo_stats_view(old(stats).per_repo@),
        ) + sample_lines(strings_view(old(stats).dropped_samples@)),
        final(stats).zeroed(),
{
    let ghost start = *stats;
    let mut out = String::new();
    push_str(&mut out, "counters: wakes=");
    push_decimal(&mut out, stats.wakes);
    push_str(&mut out, " sweep_checks=");
    push_decimal(&mut out, stats.sweep_checks);
    push_str(&mut out, " completions=");
    push_decimal(&mut out, stats.completions);
    push_str(&mut out, " records=");
    push_decimal(&mut out, stats.records);
    push_str(&mut out, " reloads=");
    push_decimal(&mut out, stats.reloads);
    push_str(&mut out, " rearms=");
    push_decimal(&mut out, stats.re_arms);
    push_str(&mut out, " bumps=");
    push_decimal(&mut out, stats.bumps);
    push_str(&mut out, " ensures=");
    push_decimal(&mut out, stats.ensures);
    push_str(&mut out, " evictions=");
    push_decimal(&mut out, stats.evictions);
    push_str(&mut out, "\n");
    assert(out@ =~= counters_line(start));
    push_str(&mut out, us_line);
    let ghost head = out@;
    let ghost qv = strings_view(quoted@);
    let ghost rv = repo_stats_view(stats.per_repo@);
    let mut i: usize = 0;
    while i < stats.per_repo.len()
        invariant
            i <= rv.len(),
            rv.len() == qv.len(),
            qv == strings_view(quoted@),
            rv == repo_stats_view(stats.per_repo@),
            out@ == head + repo_lines(qv, rv.take(i as int)),
        decreases rv.len() - i,
    {
        let ghost before = out@;
        push_str(&mut out, "  repo ");
        push_str(&mut out, quoted[i].as_str());
        push_str(&mut out, ": completions=");
        push_decimal(&mut out, stats.per_repo[i].completions);
        push_str(&mut out, " dropped_internal=");
        push_decimal(&mut out, stats.per_repo[i].dropped_git_internal);
        push_str(&mut out, " dropped_ignored=");
        push_decimal(&mut out, stats.per_repo[i].dropped_gitignored);
        push_str(&mut out, "\n");
        assert(rv.take(i + 1).drop_last() =~= rv.take(i as int));
        assert(rv[i as int] == stats.per_repo@[i as int]@);
        assert(qv[i as int] == quoted@[i as int]@);
        assert(out@ =~= before + repo_line(qv[i as int], rv[i as int]));
        i = i + 1;
    }
    assert(rv.take(rv.len() as int) =~= rv);
    let ghost mid = out@;
    let ghost sv = strings_view(stats.dropped_samples@);
    let mut k: usize = 0;
    while k < stats.dropped_samples.len()
        invariant
            k <= sv.len(),
            sv == strings_view(stats.dropped_samples@),
            out@ == mid + sample_lines(sv.take(k as int)),
        decreases sv.len() - k,
    {
        let ghost before = out@;
        push_str(&mut out, "  dropped: ");
        push_str(&mut out, stats.dropped_samples[k].as_str());
        push_str(&mut out, "\n");
        assert(sv.take(k + 1).drop_last() =~= sv.take(k as int));
        assert(sv[k as int] == stats.dropped_samples@[k as int]@);
        assert(out@ =~= before + "  dropped: "@ + sv[k as int] + "\n"@);
        k = k + 1;
    }
    assert(sv.take(sv.len() as int) =~= sv);
    *stats = WatcherStats::new();
    out
}

} // verus!
