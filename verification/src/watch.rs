//! Change tracking for watched repositories: which change records count, and the
//! per-repository version numbers that cached prompts are keyed by.
//!
//! The operating system's directory watches live outside this module; it decides what a
//! completed watch means and keeps the versions.
use vstd::bytes::{spec_u16_from_le_bytes, spec_u32_from_le_bytes, u16_from_le_bytes, u32_from_le_bytes};
use vstd::prelude::*;

use crate::ffi::encode_utf16;
use crate::gitignore::{is_ignored_str, spec_is_ignored, GitignoreFilter};
use crate::path::{path_eq, same_path};
use crate::protocol::le_u32_at;
use crate::text::{
    chars_from, equals_at, forward_slash_chars, forward_slashes, skip_leading, split_on,
    starts_with, starts_with_at, str_chars, strip_leading, string_from_chars,
};

verus! {

/// How many repositories are watched at once; the least recently used one makes room.
pub const MAX_WATCHED_REPOS: usize = 48;

/// Whether a change at `path` (relative to the repository root) is git's own
/// bookkeeping that cannot change the prompt: anything under `.git/` except the index,
/// `HEAD`, branch and remote refs, the stash ref and `packed-refs`, and `.git` itself.
pub open spec fn spec_is_git_internal(path: Seq<char>) -> bool {
    let t = strip_leading(path, '/');
    if starts_with(t, ".git/"@) {
        let rest = t.subrange(".git/"@.len() as int, t.len() as int);
        &&& rest != "index"@
        &&& rest != "HEAD"@
        &&& !starts_with(rest, "refs/heads/"@)
        &&& !starts_with(rest, "refs/remotes/"@)
        &&& rest != "refs/stash"@
        &&& rest != "packed-refs"@
    } else {
        t == ".git"@
    }
}

/// Whether a change at `path` is git-internal, as `spec_is_git_internal` states.
pub fn is_git_internal(path: &str) -> (r: bool)
    ensures
        r == spec_is_git_internal(path@),
{
    let v = str_chars(path);
    let n = v.len();
    let i = skip_leading(&v, '/');
    let ghost t = v@.subrange(i as int, n as int);
    let git_slash = str_chars(".git/");
    if starts_with_at(&v, i, &git_slash) {
        let j = i + git_slash.len();
        assert(t.subrange(git_slash@.len() as int, t.len() as int) =~= v@.subrange(j as int, n as int));
        !equals_at(&v, j, &str_chars("index")) && !equals_at(&v, j, &str_chars("HEAD"))
            && !starts_with_at(&v, j, &str_chars("refs/heads/")) && !starts_with_at(
            &v,
            j,
            &str_chars("refs/remotes/"),
        ) && !equals_at(&v, j, &str_chars("refs/stash")) && !equals_at(
            &v,
            j,
            &str_chars("packed-refs"),
        )
    } else {
        equals_at(&v, i, &str_chars(".git"))
    }
}

/// Leading slashes do not change what is left once they are stripped.
proof fn lemma_strip_leading_slashes(lead: Seq<char>, p: Seq<char>)
    requires
        forall|i: int| 0 <= i < lead.len() ==> #[trigger] lead[i] == '/',
        p.len() > 0 && p[0] != '/',
    ensures
        strip_leading(lead + p, '/') == p,
    decreases lead.len(),
{
    if lead.len() > 0 {
        let u = lead + p;
        assert(u[0] == '/');
        assert(u.drop_first() =~= lead.drop_first() + p);
        let t = lead.drop_first();
        assert forall|i: int| 0 <= i < t.len() implies #[trigger] t[i] == '/' by {
            assert(t[i] == lead[i + 1]);
        }
        lemma_strip_leading_slashes(t, p);
    } else {
        assert(lead + p =~= p);
    }
}

/// Whether `path` is git-internal, looked at as `.git/` followed by `rest`.
proof fn lemma_internal_under_git(lead: Seq<char>, rest: Seq<char>)
    requires
        forall|i: int| 0 <= i < lead.len() ==> #[trigger] lead[i] == '/',
    ensures
        spec_is_git_internal(lead + (".git/"@ + rest)) == {
            &&& rest != "index"@
            &&& rest != "HEAD"@
            &&& !starts_with(rest, "refs/heads/"@)
            &&& !starts_with(rest, "refs/remotes/"@)
            &&& rest != "refs/stash"@
            &&& rest != "packed-refs"@
        },
{
    reveal_strlit(".git/");
    let p = ".git/"@ + rest;
    assert(p[0] == '.');
    lemma_strip_leading_slashes(lead, p);
    assert(p.subrange(0, 5) =~= ".git/"@);
    assert(p.subrange(5, p.len() as int) =~= rest);
}

/// A change to a branch or remote-tracking ref, whatever the branch's name (`/` in it
/// included), is never git's own bookkeeping: it can move the prompt's branch state.
/// Leading slashes change nothing.
pub proof fn lemma_branch_refs_are_visible(lead: Seq<char>, name: Seq<char>)
    requires
        forall|i: int| 0 <= i < lead.len() ==> #[trigger] lead[i] == '/',
    ensures
        !spec_is_git_internal(lead + (".git/refs/heads/"@ + name)),
        !spec_is_git_internal(lead + (".git/refs/remotes/"@ + name)),
{
    reveal_strlit(".git/refs/heads/");
    reveal_strlit(".git/refs/remotes/");
    reveal_strlit(".git/");
    reveal_strlit("refs/heads/");
    reveal_strlit("refs/remotes/");
    let h = "refs/heads/"@ + name;
    let r = "refs/remotes/"@ + name;
    assert(".git/refs/heads/"@ + name =~= ".git/"@ + h);
    assert(".git/refs/remotes/"@ + name =~= ".git/"@ + r);
    lemma_internal_under_git(lead, h);
    lemma_internal_under_git(lead, r);
    assert(h.subrange(0, 11) =~= "refs/heads/"@);
    assert(r.subrange(0, 13) =~= "refs/remotes/"@);
}

/// The index, `HEAD`, the stash ref and `packed-refs` are never git's own bookkeeping;
/// objects and logs under `.git/`, and `.git` itself, always are.
pub proof fn lemma_git_files(lead: Seq<char>, name: Seq<char>)
    requires
        forall|i: int| 0 <= i < lead.len() ==> #[trigger] lead[i] == '/',
    ensures
        !spec_is_git_internal(lead + ".git/index"@),
        !spec_is_git_internal(lead + ".git/HEAD"@),
        !spec_is_git_internal(lead + ".git/refs/stash"@),
        !spec_is_git_internal(lead + ".git/packed-refs"@),
        spec_is_git_internal(lead + (".git/objects/"@ + name)),
        spec_is_git_internal(lead + (".git/logs/"@ + name)),
        spec_is_git_internal(lead + ".git"@),
{
    reveal_strlit(".git/");
    reveal_strlit(".git");
    reveal_strlit(".git/index");
    reveal_strlit(".git/HEAD");
    reveal_strlit(".git/refs/stash");
    reveal_strlit(".git/packed-refs");
    reveal_strlit(".git/objects/");
    reveal_strlit(".git/logs/");
    reveal_strlit("index");
    reveal_strlit("HEAD");
    reveal_strlit("refs/stash");
    reveal_strlit("packed-refs");
    reveal_strlit("refs/heads/");
    reveal_strlit("refs/remotes/");
    assert(".git/index"@ =~= ".git/"@ + "index"@);
    lemma_internal_under_git(lead, "index"@);
    assert(".git/HEAD"@ =~= ".git/"@ + "HEAD"@);
    lemma_internal_under_git(lead, "HEAD"@);
    assert(".git/refs/stash"@ =~= ".git/"@ + "refs/stash"@);
    lemma_internal_under_git(lead, "refs/stash"@);
    assert(".git/packed-refs"@ =~= ".git/"@ + "packed-refs"@);
    lemma_internal_under_git(lead, "packed-refs"@);
    let o = "objects/"@ + name;
    let l = "logs/"@ + name;
    reveal_strlit("objects/");
    reveal_strlit("logs/");
    assert(".git/objects/"@ + name =~= ".git/"@ + o);
    assert(".git/logs/"@ + name =~= ".git/"@ + l);
    lemma_internal_under_git(lead, o);
    lemma_internal_under_git(lead, l);
    assert(o[0] == 'o' && l[0] == 'l');
    assert(o.len() >= 11 ==> o.subrange(0, 11)[0] == 'o');
    assert(o.len() >= 13 ==> o.subrange(0, 13)[0] == 'o');
    assert(l.len() >= 11 ==> l.subrange(0, 11)[0] == 'l');
    assert(l.len() >= 13 ==> l.subrange(0, 13)[0] == 'l');
    assert(o != "index"@ && o != "HEAD"@ && o != "refs/stash"@ && o != "packed-refs"@) by {
        assert(o[0] != "index"@[0] && o[0] != "HEAD"@[0] && o[0] != "refs/stash"@[0] && o[0] != "packed-refs"@[0]);
    }
    assert(l != "index"@ && l != "HEAD"@ && l != "refs/stash"@ && l != "packed-refs"@) by {
        assert(l[0] != "index"@[0] && l[0] != "HEAD"@[0] && l[0] != "refs/stash"@[0] && l[0] != "packed-refs"@[0]);
    }
    let g = ".git"@;
    assert(g[0] == '.');
    lemma_strip_leading_slashes(lead, g);
}

/// Anything else under `.git/` (objects, logs, config, lock files, hooks...) is git's own
/// bookkeeping, whatever leading slashes it has.
pub proof fn lemma_other_git_paths_are_internal(lead: Seq<char>, rest: Seq<char>)
    requires
        forall|i: int| 0 <= i < lead.len() ==> #[trigger] lead[i] == '/',
        rest != "index"@,
        rest != "HEAD"@,
        rest != "refs/stash"@,
        rest != "packed-refs"@,
        !starts_with(rest, "refs/heads/"@),
        !starts_with(rest, "refs/remotes/"@),
    ensures
        spec_is_git_internal(lead + (".git/"@ + rest)),
{
    lemma_internal_under_git(lead, rest);
}

/// A path outside `.git` (its first component, past any leading slashes, does not begin
/// with `.git`) is never git-internal.
pub proof fn lemma_outside_git_is_visible(path: Seq<char>)
    requires
        !starts_with(strip_leading(path, '/'), ".git"@),
    ensures
        !spec_is_git_internal(path),
{
    reveal_strlit(".git");
    reveal_strlit(".git/");
    let t = strip_leading(path, '/');
    if starts_with(t, ".git/"@) {
        assert(t.subrange(0, 4) =~= t.subrange(0, 5).subrange(0, 4));
        assert(t.subrange(0, 4) =~= ".git"@);
    }
    if t == ".git"@ {
        assert(t.subrange(0, 4) =~= t);
    }
}

/// The UTF-16 units stored little-endian in `b`; an odd last byte is ignored.
pub open spec fn le_units(b: Seq<u8>) -> Seq<u16> {
    Seq::new(b.len() / 2, |k: int| spec_u16_from_le_bytes(b.subrange(2 * k, 2 * k + 2)))
}

/// `u` up to its first zero unit.
pub open spec fn until_nul(u: Seq<u16>) -> Seq<u16>
    decreases u.len(),
{
    if u.len() == 0 {
        u
    } else if u[0] == 0 {
        Seq::empty()
    } else {
        seq![u[0]] + until_nul(u.drop_first())
    }
}

/// What `String::from_utf16` of std makes of `units`, or the empty string where it fails.
pub uninterp spec fn utf16_text(units: Seq<u16>) -> Seq<char>;

/// Decodes UTF-16, by calling `String::from_utf16(units).unwrap_or_default()` of std.
///
/// Trusted: the result is named `utf16_text(units@)`; where some text encodes to
/// `units`, the result encodes back to them (the decoding); where none does (an unpaired
/// surrogate), std fails and the result is empty.
#[verifier::external_body]
fn utf16_or_empty(units: &[u16]) -> (s: String)
    ensures
        s@ == utf16_text(units@),
        (exists|x: Seq<char>| encode_utf16(x) == units@) ==> encode_utf16(s@) == units@,
        !(exists|x: Seq<char>| encode_utf16(x) == units@) ==> s@.len() == 0,
{
    String::from_utf16(units).unwrap_or_default()
}

/// The path a change record names, relative to the watched root with `/` separators.
pub open spec fn record_path(name: Seq<u8>) -> Seq<char> {
    strip_leading(forward_slashes(utf16_text(until_nul(le_units(name)))), '/')
}

/// The `(path, action)` pairs of the change records in `buf` from offset `off` on: each
/// record is `[u32 next offset][u32 action][u32 name length][UTF-16 name]`; the walk
/// stops at a record that does not fit, a name shorter than one unit, or a zero next
/// offset.
pub open spec fn spec_watcher_paths(buf: Seq<u8>, off: int) -> Seq<(Seq<char>, u32)>
    decreases buf.len() - off,
{
    if off < 0 || off + 12 > buf.len() {
        Seq::empty()
    } else {
        let next = le_u32_at(buf, off) as int;
        let action = le_u32_at(buf, off + 4);
        let name_len = le_u32_at(buf, off + 8) as int;
        if off + 12 + name_len > buf.len() || name_len < 2 {
            Seq::empty()
        } else {
            let rec = (record_path(buf.subrange(off + 12, off + 12 + name_len)), action);
            if next == 0 || off + next + 12 > buf.len() {
                seq![rec]
            } else {
                seq![rec] + spec_watcher_paths(buf, off + next)
            }
        }
    }
}

/// Path and action pairs as plain values.
pub open spec fn paths_view(v: Seq<(String, u32)>) -> Seq<(Seq<char>, u32)> {
    v.map_values(|p: (String, u32)| (p.0@, p.1))
}

/// The units of `name` up to the first zero unit.
fn name_units(name: &[u8]) -> (w: Vec<u16>)
    ensures
        w@ == until_nul(le_units(name@)),
{
    let ghost all = le_units(name@);
    let n = name.len() / 2;
    let mut w: Vec<u16> = Vec::new();
    let mut k: usize = 0;
    assert(all.subrange(0, n as int) =~= all);
    while k < n
        invariant
            k <= n,
            n == name@.len() / 2,
            name@.len() <= usize::MAX,
            all == le_units(name@),
            until_nul(all) == w@ + until_nul(all.subrange(k as int, n as int)),
        decreases n - k,
    {
        let u = u16_from_le_bytes(&name[2 * k..2 * k + 2]);
        assert(u == all[k as int]);
        let ghost sub = all.subrange(k as int, n as int);
        if u == 0 {
            assert(until_nul(sub) == Seq::<u16>::empty());
            assert(w@ + Seq::<u16>::empty() =~= w@);
            return w;
        }
        assert(sub.drop_first() =~= all.subrange(k + 1, n as int));
        assert(until_nul(sub) == seq![u] + until_nul(all.subrange(k + 1, n as int)));
        w.push(u);
        k = k + 1;
        assert(until_nul(all) =~= w@ + until_nul(all.subrange(k as int, n as int)));
    }
    assert(until_nul(all.subrange(n as int, n as int)) =~= Seq::<u16>::empty());
    assert(w@ + Seq::<u16>::empty() =~= w@);
    w
}

/// The path one record's name bytes give.
fn record_path_exec(name: &[u8]) -> (p: String)
    ensures
        p@ == record_path(name@),
{
    let w = name_units(name);
    let text = utf16_or_empty(w.as_slice());
    let chars = str_chars(text.as_str());
    let fwd = forward_slash_chars(&chars);
    let i = skip_leading(&fwd, '/');
    let rest = chars_from(&fwd, i);
    string_from_chars(&rest)
}

/// The `(path, action)` pairs of a buffer of change records, as `spec_watcher_paths`
/// states from the start of the buffer.
pub fn extract_watcher_paths(buf: &[u8]) -> (r: Vec<(String, u32)>)
    ensures
        paths_view(r@) == spec_watcher_paths(buf@, 0),
{
    let mut paths: Vec<(String, u32)> = Vec::new();
    let mut offset: usize = 0;
    assert(paths_view(paths@) + spec_watcher_paths(buf@, 0) =~= spec_watcher_paths(buf@, 0));
    loop
        invariant_except_break
            offset <= buf@.len(),
            paths_view(paths@) + spec_watcher_paths(buf@, offset as int) == spec_watcher_paths(buf@, 0),
        ensures
            paths_view(paths@) == spec_watcher_paths(buf@, 0),
        decreases buf@.len() - offset,
    {
        let ghost before = paths_view(paths@);
        if buf.len() - offset < 12 {
            assert(before + Seq::<(Seq<char>, u32)>::empty() =~= before);
            break;
        }
        let next = u32_from_le_bytes(&buf[offset..offset + 4]);
        let action = u32_from_le_bytes(&buf[offset + 4..offset + 8]);
        let name_len = u32_from_le_bytes(&buf[offset + 8..offset + 12]);
        if name_len as usize > buf.len() - offset - 12 || name_len < 2 {
            assert(before + Seq::<(Seq<char>, u32)>::empty() =~= before);
            break;
        }
        let name_end = offset + 12 + name_len as usize;
        let path = record_path_exec(&buf[offset + 12..name_end]);
        let ghost rec = (path@, action);
        paths.push((path, action));
        assert(paths_view(paths@) =~= before.push(rec));
        if next == 0 || next as usize > buf.len() - offset - 12 {
            assert(spec_watcher_paths(buf@, offset as int) == seq![rec]);
            assert(paths_view(paths@) =~= before + seq![rec]);
            break;
        }
        assert(paths_view(paths@) + spec_watcher_paths(buf@, offset + next) =~= before + (seq![rec]
            + spec_watcher_paths(buf@, offset + next)));
        offset = offset + next as usize;
    }
    paths
}

/// One watched repository as the tracker sees it.
pub struct WatchEntry {
    pub repo_root: String,
    pub ignore: Option<GitignoreFilter>,
    /// A change was seen since the last flush.
    pub pending: bool,
    /// A watch is outstanding for the repository.
    pub armed: bool,
    pub last_touch: u64,
    pub version: u64,
}

/// A watched repository as plain values.
pub struct EntryModel {
    pub root: Seq<char>,
    pub pending: bool,
    pub armed: bool,
    pub last_touch: nat,
    pub version: nat,
}

impl WatchEntry {
    pub open spec fn model(&self) -> EntryModel {
        EntryModel {
            root: self.repo_root@,
            pending: self.pending,
            armed: self.armed,
            last_touch: self.last_touch as nat,
            version: self.version as nat,
        }
    }
}

/// The tracker as plain values.
pub struct WatcherModel {
    pub entries: Seq<EntryModel>,
    /// The next version to hand out.
    pub epoch: nat,
    /// The next use stamp to hand out.
    pub touch: nat,
}

/// The watched repositories, at most `MAX_WATCHED_REPOS`, each with the version that
/// cache keys use; a version changes whenever a visible change was seen.
pub struct WatcherState {
    pub entries: Vec<WatchEntry>,
    pub epoch: u64,
    pub touch: u64,
}

impl View for WatcherState {
    type V = WatcherModel;

    open spec fn view(&self) -> WatcherModel {
        WatcherModel {
            entries: self.entries@.map_values(|e: WatchEntry| e.model()),
            epoch: self.epoch as nat,
            touch: self.touch as nat,
        }
    }
}

/// The gitignore filter of each entry, in order.
pub open spec fn ignores(w: WatcherState) -> Seq<Option<GitignoreFilter>> {
    w.entries@.map_values(|e: WatchEntry| e.ignore)
}

/// The tracker's invariant: within the cap, one entry per repository, every version
/// handed out (from 1) and below the next one, every use stamp below the next one.
pub open spec fn watcher_wf(m: WatcherModel) -> bool {
    &&& m.entries.len() <= MAX_WATCHED_REPOS
    &&& m.epoch >= 1
    &&& forall|i: int, j: int|
        0 <= i < m.entries.len() && 0 <= j < m.entries.len() && i != j ==> !same_path(
            #[trigger] m.entries[i].root,
            #[trigger] m.entries[j].root,
        )
    &&& forall|i: int| 0 <= i < m.entries.len() ==> 1 <= #[trigger] m.entries[i].version < m.epoch
    &&& forall|i: int| 0 <= i < m.entries.len() ==> #[trigger] m.entries[i].last_touch < m.touch
}

/// The version of the entry for `root` among `es`, or 0 where there is none.
pub open spec fn version_in(es: Seq<EntryModel>, root: Seq<char>) -> nat
    decreases es.len(),
{
    if es.len() == 0 {
        0
    } else if same_path(es[0].root, root) {
        es[0].version
    } else {
        version_in(es.drop_first(), root)
    }
}

/// The version that cache keys use for `root`: 0 for a repository that is not watched.
pub open spec fn spec_version(m: WatcherModel, root: Seq<char>) -> nat {
    version_in(m.entries, root)
}

/// Whether some entry watches `root`.
pub open spec fn is_watched(m: WatcherModel, root: Seq<char>) -> bool {
    exists|i: int| 0 <= i < m.entries.len() && same_path(#[trigger] m.entries[i].root, root)
}

/// How many of `es` are pending.
pub open spec fn count_pending(es: Seq<EntryModel>) -> nat
    decreases es.len(),
{
    if es.len() == 0 {
        0
    } else {
        count_pending(es.drop_last()) + if es.last().pending {
            1nat
        } else {
            0nat
        }
    }
}

/// `es` after a flush that starts handing out versions at `epoch`, and the next version
/// afterwards: each pending entry in turn gets the next version and stops being pending.
pub open spec fn flush_entries(es: Seq<EntryModel>, epoch: nat) -> (Seq<EntryModel>, nat)
    decreases es.len(),
{
    if es.len() == 0 {
        (Seq::empty(), epoch)
    } else {
        let (prev, e) = flush_entries(es.drop_last(), epoch);
        let x = es.last();
        if x.pending {
            (
                prev.push(
                    EntryModel {
                        root: x.root,
                        pending: false,
                        armed: x.armed,
                        last_touch: x.last_touch,
                        version: e,
                    },
                ),
                e + 1,
            )
        } else {
            (prev.push(x), e)
        }
    }
}

/// The tracker after a flush.
pub open spec fn spec_flush(m: WatcherModel) -> WatcherModel {
    let (es, e) = flush_entries(m.entries, m.epoch);
    WatcherModel { entries: es, epoch: e, touch: m.touch }
}

impl WatcherState {
    /// A tracker watching nothing; versions start at 1.
    pub fn new() -> (w: WatcherState)
        ensures
            watcher_wf(w@),
            w@.entries.len() == 0,
            w@.epoch == 1,
            w@.touch == 0,
    {
        WatcherState { entries: Vec::new(), epoch: 1, touch: 0 }
    }

    /// How many repositories are watched.
    pub fn num_entries(&self) -> (n: usize)
        ensures
            n == self@.entries.len(),
    {
        self.entries.len()
    }

    /// The index of the entry for `repo_root`, if any.
    fn find(&self, repo_root: &str) -> (r: Option<usize>)
        ensures
            match r {
                Some(i) => i < self@.entries.len() && same_path(self@.entries[i as int].root, repo_root@)
                    && version_in(self@.entries, repo_root@) == self@.entries[i as int].version,
                None => !is_watched(self@, repo_root@) && version_in(self@.entries, repo_root@) == 0,
            },
    {
        let ghost es = self@.entries;
        let mut i: usize = 0;
        assert(es.subrange(0, es.len() as int) =~= es);
        while i < self.entries.len()
            invariant
                i <= es.len(),
                es == self@.entries,
                forall|j: int| 0 <= j < i ==> !same_path(es[j].root, repo_root@),
                version_in(es, repo_root@) == version_in(es.subrange(i as int, es.len() as int), repo_root@),
            decreases es.len() - i,
        {
            assert(self.entries@[i as int].model() == es[i as int]);
            if path_eq(self.entries[i].repo_root.as_str(), repo_root) {
                return Some(i);
            }
            assert(es.subrange(i as int, es.len() as int).drop_first() =~= es.subrange(i + 1, es.len() as int));
            i = i + 1;
        }
        None
    }

    /// The version of `repo_root`, or 0 where it is not watched.
    pub fn version(&self, repo_root: &str) -> (r: u64)
        ensures
            r == spec_version(self@, repo_root@),
    {
        match self.find(repo_root) {
            Some(i) => self.entries[i].version,
            None => 0,
        }
    }
}

/// Counting pending entries over a longer prefix never gives less, and one more pending
/// entry counts one more.
proof fn lemma_count_prefix(es: Seq<EntryModel>, i: int, j: int)
    requires
        0 <= i <= j <= es.len(),
    ensures
        count_pending(es.take(i)) <= count_pending(es.take(j)),
        i < j && es[i].pending ==> count_pending(es.take(i)) < count_pending(es.take(j)),
    decreases j - i,
{
    if i < j {
        lemma_count_prefix(es, i, j - 1);
        assert(es.take(j).drop_last() =~= es.take(j - 1));
        if i == j - 1 {
            assert(es.take(j).last() == es[i]);
        }
    }
}

/// What a flush does to each entry: same repository, use stamp and watch state, no
/// longer pending; a pending entry gets the version `epoch` plus the number of pending
/// entries before it, the others keep theirs; the next version is `epoch` plus the
/// number of pending entries.
pub(crate) proof fn lemma_flush_entries(es: Seq<EntryModel>, epoch: nat)
    ensures
        flush_entries(es, epoch).0.len() == es.len(),
        flush_entries(es, epoch).1 == epoch + count_pending(es),
        forall|i: int|
            0 <= i < es.len() ==> {
                let r = #[trigger] flush_entries(es, epoch).0[i];
                &&& r.root == es[i].root
                &&& r.armed == es[i].armed
                &&& r.last_touch == es[i].last_touch
                &&& !r.pending
                &&& r.version == if es[i].pending {
                    epoch + count_pending(es.take(i))
                } else {
                    es[i].version
                }
            },
    decreases es.len(),
{
    if es.len() > 0 {
        let prev = es.drop_last();
        lemma_flush_entries(prev, epoch);
        assert forall|i: int| 0 <= i < es.len() - 1 implies es.take(i) == prev.take(i) by {
            assert(es.take(i) =~= prev.take(i));
        }
        assert(es.take(es.len() - 1) =~= prev);
    }
}

/// Flushing twice is flushing once: after a flush nothing is pending, so a second flush
/// leaves every version and the next version as they are.
pub proof fn lemma_flush_idempotent(m: WatcherModel)
    ensures
        spec_flush(spec_flush(m)) == spec_flush(m),
{
    let f = spec_flush(m);
    lemma_flush_entries(m.entries, m.epoch);
    lemma_flush_entries(f.entries, f.epoch);
    lemma_count_none_pending(f.entries);
    let g = spec_flush(f);
    assert(g.entries =~= f.entries);
}

/// With nothing pending the count is zero.
proof fn lemma_count_none_pending(es: Seq<EntryModel>)
    requires
        forall|i: int| 0 <= i < es.len() ==> !#[trigger] es[i].pending,
    ensures
        count_pending(es) == 0,
    decreases es.len(),
{
    if es.len() > 0 {
        lemma_count_none_pending(es.drop_last());
    }
}

/// A flush keeps the tracker's invariant, gives each pending repository a version
/// greater than every version held before, distinct from the other new ones, clears
/// every pending mark, and leaves the other versions as they were.
pub proof fn lemma_flush(m: WatcherModel)
    requires
        watcher_wf(m),
    ensures
        watcher_wf(spec_flush(m)),
        spec_flush(m).entries.len() == m.entries.len(),
        spec_flush(m).epoch >= m.epoch,
        forall|i: int|
            0 <= i < m.entries.len() ==> {
                let r = #[trigger] spec_flush(m).entries[i];
                &&& r.root == m.entries[i].root
                &&& !r.pending
                &&& (m.entries[i].pending ==> forall|j: int|
                    0 <= j < m.entries.len() ==> m.entries[j].version < r.version)
                &&& (!m.entries[i].pending ==> r.version == m.entries[i].version)
            },
        forall|i: int, j: int|
            0 <= i < m.entries.len() && 0 <= j < m.entries.len() && i != j && m.entries[i].pending
                && m.entries[j].pending ==> #[trigger] spec_flush(m).entries[i].version
                != #[trigger] spec_flush(m).entries[j].version,
{
    lemma_flush_entries(m.entries, m.epoch);
    let f = spec_flush(m);
    let es = m.entries;
    assert forall|i: int| 0 <= i < es.len() && es[i].pending implies m.epoch + count_pending(es.take(i)) < f.epoch by {
        lemma_count_prefix(es, i, es.len() as int);
        assert(es.take(es.len() as int) =~= es);
    }
    assert forall|i: int, j: int|
        0 <= i < es.len() && 0 <= j < es.len() && i < j && es[i].pending implies count_pending(es.take(i)) < count_pending(es.take(j)) by {
        lemma_count_prefix(es, i, j);
    }
    assert forall|i: int, j: int|
        0 <= i < es.len() && 0 <= j < es.len() && i != j implies !same_path(#[trigger] f.entries[i].root, #[trigger] f.entries[j].root) by {
        assert(!same_path(es[i].root, es[j].root));
    }
}

/// With one repository pending, a flush bumps it once: it gets exactly the next version
/// and the next version moves on by one. Any number of completions recorded before the
/// flush thus count as one change.
pub proof fn lemma_single_pending_bumps_once(m: WatcherModel, i: int)
    requires
        0 <= i < m.entries.len(),
        m.entries[i].pending,
        forall|j: int| 0 <= j < m.entries.len() && j != i ==> !#[trigger] m.entries[j].pending,
    ensures
        spec_flush(m).entries[i].version == m.epoch,
        spec_flush(m).epoch == m.epoch + 1,
{
    lemma_flush_entries(m.entries, m.epoch);
    let es = m.entries;
    lemma_count_none_pending(es.take(i));
    lemma_count_split(es, i);
}

/// With exactly entry `i` pending, the count is one.
proof fn lemma_count_split(es: Seq<EntryModel>, i: int)
    requires
        0 <= i < es.len(),
        es[i].pending,
        forall|j: int| 0 <= j < es.len() && j != i ==> !#[trigger] es[j].pending,
    ensures
        count_pending(es) == 1,
    decreases es.len(),
{
    if i == es.len() - 1 {
        lemma_count_none_pending(es.drop_last());
    } else {
        lemma_count_split(es.drop_last(), i);
    }
}

impl WatcherState {
    /// Gives every pending repository a new version, as `spec_flush` states, keeping
    /// their gitignore filters.
    pub fn flush(&mut self)
        requires
            watcher_wf(old(self)@),
            old(self).epoch + old(self)@.entries.len() <= u64::MAX,
        ensures
            final(self)@ == spec_flush(old(self)@),
            watcher_wf(final(self)@),
            final(self).entries@.len() == old(self).entries@.len(),
            forall|j: int|
                0 <= j < final(self).entries@.len() ==> #[trigger] final(self).entries@[j].ignore
                    == old(self).entries@[j].ignore,
    {
        let ghost m = self@;
        let ghost es = m.entries;
        proof {
            lemma_flush(m);
            lemma_flush_entries(es, m.epoch);
        }
        let mut i: usize = 0;
        while i < self.entries.len()
            invariant
                i <= es.len(),
                self.entries@.len() == es.len(),
                m == old(self)@,
                es == m.entries,
                m.epoch + es.len() <= u64::MAX,
                self.epoch as nat == flush_entries(es.take(i as int), m.epoch).1,
                self.touch == m.touch,
                forall|j: int| 0 <= j < i ==> #[trigger] self@.entries[j] == flush_entries(es.take(i as int), m.epoch).0[j],
                forall|j: int| i <= j < es.len() ==> #[trigger] self@.entries[j] == es[j],
                forall|j: int|
                    0 <= j < es.len() ==> #[trigger] self.entries@[j].ignore == old(self).entries@[j].ignore,
            decreases es.len() - i,
        {
            proof {
                lemma_flush_entries(es.take(i as int), m.epoch);
                lemma_count_bound(es.take(i as int));
                assert(es.take(i + 1).drop_last() =~= es.take(i as int));
            }
            assert(self@.entries[i as int] == es[i as int]);
            let ghost before = self.entries@;
            let ghost fprev = flush_entries(es.take(i as int), m.epoch).0;
            let ghost fnext = flush_entries(es.take(i + 1), m.epoch).0;
            assert(fnext.len() == i + 1);
            assert(forall|j: int| 0 <= j < i ==> fnext[j] == fprev[j]);
            if self.entries[i].pending {
                let v = self.epoch;
                self.entries[i].pending = false;
                self.entries[i].version = v;
                self.epoch = v + 1;
            }
            assert forall|j: int| 0 <= j < es.len() && j != i implies #[trigger] self@.entries[j] == before.map_values(|e: WatchEntry| e.model())[j] by {
                assert(self.entries@[j] == before[j]);
            }
            assert(self@.entries[i as int] == fnext[i as int]);
            assert forall|j: int| 0 <= j < i + 1 implies #[trigger] self@.entries[j] == fnext[j] by {
                if j < i {
                    assert(before.map_values(|e: WatchEntry| e.model())[j] == fprev[j]);
                }
            }
            assert forall|j: int| i + 1 <= j < es.len() implies #[trigger] self@.entries[j] == es[j] by {
                assert(before.map_values(|e: WatchEntry| e.model())[j] == es[j]);
            }
            i = i + 1;
        }
        proof {
            assert(es.take(es.len() as int) =~= es);
            assert(self@.entries =~= spec_flush(m).entries);
        }
    }
}

/// At most every entry is pending.
proof fn lemma_count_bound(es: Seq<EntryModel>)
    ensures
        count_pending(es) <= es.len(),
    decreases es.len(),
{
    if es.len() > 0 {
        lemma_count_bound(es.drop_last());
    }
}

/// The tracker after entry `i` was used: it gets the next use stamp.
pub open spec fn spec_touch(m: WatcherModel, i: int) -> WatcherModel {
    let e = m.entries[i];
    WatcherModel {
        entries: m.entries.update(
            i,
            EntryModel {
                root: e.root,
                pending: e.pending,
                armed: e.armed,
                last_touch: m.touch,
                version: e.version,
            },
        ),
        epoch: m.epoch,
        touch: m.touch + 1,
    }
}

/// Entry `v` is the least recently used one, the first of them.
pub open spec fn is_lru_victim(m: WatcherModel, v: int) -> bool {
    &&& 0 <= v < m.entries.len()
    &&& forall|j: int| 0 <= j < m.entries.len() ==> m.entries[v].last_touch <= #[trigger] m.entries[j].last_touch
    &&& forall|j: int| 0 <= j < v ==> m.entries[v].last_touch < #[trigger] m.entries[j].last_touch
}

/// The tracker after entry `v` was dropped: the last entry takes its place.
pub open spec fn spec_evict(m: WatcherModel, v: int) -> WatcherModel {
    WatcherModel {
        entries: m.entries.update(v, m.entries.last()).drop_last(),
        epoch: m.epoch,
        touch: m.touch,
    }
}

/// The tracker after a new entry for `root` was added: it gets the next version and use
/// stamp, and is pending when its watch could not be started.
pub open spec fn spec_add(m: WatcherModel, root: Seq<char>, armed: bool) -> WatcherModel {
    WatcherModel {
        entries: m.entries.push(
            EntryModel { root, pending: !armed, armed, last_touch: m.touch, version: m.epoch },
        ),
        epoch: m.epoch + 1,
        touch: m.touch + 1,
    }
}

/// The tracker after entry `i` recorded the outcome of re-arming its watch: the
/// outcome, and pending either way.
pub open spec fn spec_rearm(m: WatcherModel, i: int, armed: bool) -> WatcherModel {
    let e = m.entries[i];
    WatcherModel {
        entries: m.entries.update(
            i,
            EntryModel {
                root: e.root,
                pending: true,
                armed,
                last_touch: e.last_touch,
                version: e.version,
            },
        ),
        epoch: m.epoch,
        touch: m.touch,
    }
}

/// The tracker after entry `i` handled a completed watch: the outcome of re-arming it,
/// and pending where a change was seen or the watch is lost.
pub open spec fn spec_record(m: WatcherModel, i: int, changed: bool, rearmed: bool) -> WatcherModel {
    let e = m.entries[i];
    WatcherModel {
        entries: m.entries.update(
            i,
            EntryModel {
                root: e.root,
                pending: e.pending || changed || !rearmed,
                armed: rearmed,
                last_touch: e.last_touch,
                version: e.version,
            },
        ),
        epoch: m.epoch,
        touch: m.touch,
    }
}

/// What `ensure` found for a repository.
#[derive(Debug, Clone, Copy, PartialEq, Eq, Structural)]
pub enum EnsureStep {
    /// Watched at this index, with its watch outstanding.
    Ready(usize),
    /// Watched at this index, with its watch lost: start it again and report the outcome
    /// with `rearm_result`.
    Rearm(usize),
    /// Not watched: open a watch and report it with `add_entry`; where the cap was
    /// reached, the entry at the given index was dropped first (the last one took its
    /// place).
    Open(Option<usize>),
}

/// A change at `p` is visible: not git-internal and not ignored.
pub open spec fn path_visible(p: Seq<char>, ignore: Option<GitignoreFilter>) -> bool {
    &&& !spec_is_git_internal(p)
    &&& match ignore {
        Some(f) => !spec_is_ignored(f.rules@, split_on(p, '/')),
        None => true,
    }
}

/// Whether a completed watch counts as a change: a failed or overflowing (empty) read,
/// an edit of `.gitignore`, or any visible path.
pub open spec fn spec_completion_changed(
    ok: bool,
    bytes: u32,
    paths: Seq<(Seq<char>, u32)>,
    reload: bool,
    ignore: Option<GitignoreFilter>,
) -> bool {
    !ok || bytes == 0 || reload || exists|k: int|
        0 <= k < paths.len() && path_visible(#[trigger] paths[k].0, ignore)
}

/// How many records name git-internal paths.
pub open spec fn dropped_internal(paths: Seq<(Seq<char>, u32)>) -> nat
    decreases paths.len(),
{
    if paths.len() == 0 {
        0
    } else {
        dropped_internal(paths.drop_last()) + if spec_is_git_internal(paths.last().0) {
            1nat
        } else {
            0nat
        }
    }
}

/// How many records a gitignore filter drops: not git-internal, and ignored.
pub open spec fn dropped_ignored(paths: Seq<(Seq<char>, u32)>, ignore: Option<GitignoreFilter>) -> nat
    decreases paths.len(),
{
    if paths.len() == 0 {
        0
    } else {
        dropped_ignored(paths.drop_last(), ignore) + if !spec_is_git_internal(paths.last().0) && match ignore {
            Some(f) => spec_is_ignored(f.rules@, split_on(paths.last().0, '/')),
            None => false,
        } {
            1nat
        } else {
            0nat
        }
    }
}

/// Whether the records name the repository's `.gitignore`.
pub fn needs_gitignore_reload(paths: &Vec<(String, u32)>) -> (r: bool)
    ensures
        r == exists|k: int| 0 <= k < paths@.len() && #[trigger] paths@[k].0@ == ".gitignore"@,
{
    let gi = ".gitignore";
    let mut k: usize = 0;
    while k < paths.len()
        invariant
            k <= paths@.len(),
            gi@ == ".gitignore"@,
            forall|j: int| 0 <= j < k ==> #[trigger] paths@[j].0@ != ".gitignore"@,
        decreases paths@.len() - k,
    {
        if crate::text::str_eq(paths[k].0.as_str(), gi) {
            return true;
        }
        k = k + 1;
    }
    false
}

impl WatcherState {
    /// Drops the least recently used entry; returns its index.
    fn evict_lru(&mut self) -> (v: usize)
        requires
            old(self)@.entries.len() > 0,
            watcher_wf(old(self)@),
        ensures
            is_lru_victim(old(self)@, v as int),
            final(self)@ == spec_evict(old(self)@, v as int),
            watcher_wf(final(self)@),
            ignores(*final(self)) == ignores(*old(self)).update(v as int, ignores(*old(self)).last()).drop_last(),
    {
        let ghost ig = ignores(*self);
        let mut victim: usize = 0;
        let mut oldest = self.entries[0].last_touch;
        let mut i: usize = 1;
        assert(self@.entries[0].last_touch == oldest);
        while i < self.entries.len()
            invariant
                1 <= i <= self@.entries.len(),
                self@ == old(self)@,
                victim < i,
                oldest as nat == self@.entries[victim as int].last_touch,
                forall|j: int| 0 <= j < i ==> oldest <= #[trigger] self@.entries[j].last_touch,
                forall|j: int| 0 <= j < victim ==> oldest < #[trigger] self@.entries[j].last_touch,
            decreases self@.entries.len() - i,
        {
            assert(self@.entries[i as int].last_touch == self.entries@[i as int].last_touch);
            if self.entries[i].last_touch < oldest {
                oldest = self.entries[i].last_touch;
                victim = i;
            }
            i = i + 1;
        }
        let ghost m = self@;
        let _ = self.entries.swap_remove(victim);
        assert(self@.entries =~= spec_evict(m, victim as int).entries);
        assert(ignores(*self) =~= ig.update(victim as int, ig.last()).drop_last());
        proof {
            let es = m.entries;
            let r = spec_evict(m, victim as int).entries;
            assert forall|a: int, b: int|
                0 <= a < r.len() && 0 <= b < r.len() && a != b implies !same_path(#[trigger] r[a].root, #[trigger] r[b].root) by {
                let ia = if a == victim { es.len() - 1 } else { a };
                let ib = if b == victim { es.len() - 1 } else { b };
                assert(r[a] == es[ia] && r[b] == es[ib]);
            }
            assert forall|a: int| 0 <= a < r.len() implies 1 <= #[trigger] r[a].version < m.epoch && r[a].last_touch < m.touch by {
                let ia = if a == victim { es.len() - 1 } else { a };
                assert(r[a] == es[ia]);
            }
        }
        victim
    }

    /// Makes sure `repo_root` is watched, and marks it as just used.
    pub fn ensure(&mut self, repo_root: &str) -> (step: EnsureStep)
        requires
            watcher_wf(old(self)@),
            old(self).touch < u64::MAX,
        ensures
            watcher_wf(final(self)@),
            match step {
                EnsureStep::Ready(i) => i < old(self)@.entries.len() && same_path(old(self)@.entries[i as int].root, repo_root@)
                    && old(self)@.entries[i as int].armed && final(self)@ == spec_touch(
                    old(self)@,
                    i as int,
                ),
                EnsureStep::Rearm(i) => i < old(self)@.entries.len() && same_path(old(self)@.entries[i as int].root, repo_root@)
                    && !old(self)@.entries[i as int].armed && final(self)@ == spec_touch(
                    old(self)@,
                    i as int,
                ),
                EnsureStep::Open(None) => !is_watched(old(self)@, repo_root@)
                    && old(self)@.entries.len() < MAX_WATCHED_REPOS && final(self)@ == old(self)@,
                EnsureStep::Open(Some(v)) => !is_watched(old(self)@, repo_root@)
                    && old(self)@.entries.len() == MAX_WATCHED_REPOS && is_lru_victim(old(self)@, v as int)
                    && final(self)@ == spec_evict(old(self)@, v as int),
            },
            match step {
                EnsureStep::Open(Some(v)) => ignores(*final(self)) == ignores(*old(self)).update(
                    v as int,
                    ignores(*old(self)).last(),
                ).drop_last(),
                _ => ignores(*final(self)) == ignores(*old(self)),
            },
    {
        match self.find(repo_root) {
            Some(i) => {
                let t = self.touch;
                let ghost m = self@;
                let ghost ig = ignores(*self);
                self.entries[i].last_touch = t;
                self.touch = t + 1;
                assert(ignores(*self) =~= ig);
                assert(self@.entries =~= spec_touch(m, i as int).entries);
                proof {
                    let r = spec_touch(m, i as int).entries;
                    assert forall|a: int, b: int|
                        0 <= a < r.len() && 0 <= b < r.len() && a != b implies !same_path(#[trigger] r[a].root, #[trigger] r[b].root) by {
                        assert(!same_path(m.entries[a].root, m.entries[b].root));
                    }
                    assert forall|a: int| 0 <= a < r.len() implies 1 <= #[trigger] r[a].version < m.epoch && r[a].last_touch < m.touch + 1 by {
                        assert(m.entries[a].version == r[a].version);
                    }
                }
                if self.entries[i].armed {
                    EnsureStep::Ready(i)
                } else {
                    EnsureStep::Rearm(i)
                }
            },
            None => {
                if self.entries.len() >= MAX_WATCHED_REPOS {
                    let v = self.evict_lru();
                    EnsureStep::Open(Some(v))
                } else {
                    EnsureStep::Open(None)
                }
            },
        }
    }

    /// Records the outcome of re-arming the watch of entry `idx`; the entry is pending
    /// either way.
    pub fn rearm_result(&mut self, idx: usize, armed: bool)
        requires
            watcher_wf(old(self)@),
            idx < old(self)@.entries.len(),
        ensures
            watcher_wf(final(self)@),
            final(self)@ == spec_rearm(old(self)@, idx as int, armed),
            ignores(*final(self)) == ignores(*old(self)),
    {
        let ghost m = self@;
        let ghost ig = ignores(*self);
        self.entries[idx].armed = armed;
        self.entries[idx].pending = true;
        assert(ignores(*self) =~= ig);
        assert(self@.entries =~= spec_rearm(m, idx as int, armed).entries);
        proof {
            let r = spec_rearm(m, idx as int, armed).entries;
            assert forall|a: int, b: int|
                0 <= a < r.len() && 0 <= b < r.len() && a != b implies !same_path(#[trigger] r[a].root, #[trigger] r[b].root) by {
                assert(!same_path(m.entries[a].root, m.entries[b].root));
            }
            assert forall|a: int| 0 <= a < r.len() implies 1 <= #[trigger] r[a].version < m.epoch && r[a].last_touch < m.touch by {
                assert(m.entries[a].version == r[a].version);
            }
        }
    }

    /// Starts tracking `repo_root` after its watch was opened: it gets the next version.
    pub fn add_entry(&mut self, repo_root: String, ignore: Option<GitignoreFilter>, armed: bool)
        requires
            watcher_wf(old(self)@),
            !is_watched(old(self)@, repo_root@),
            old(self)@.entries.len() < MAX_WATCHED_REPOS,
            old(self).epoch < u64::MAX,
            old(self).touch < u64::MAX,
        ensures
            watcher_wf(final(self)@),
            final(self)@ == spec_add(old(self)@, repo_root@, armed),
            ignores(*final(self)) == ignores(*old(self)).push(ignore),
    {
        let ghost m = self@;
        let ghost ig = ignores(*self);
        let e = WatchEntry {
            repo_root,
            ignore,
            pending: !armed,
            armed,
            last_touch: self.touch,
            version: self.epoch,
        };
        let ghost eig = e.ignore;
        self.entries.push(e);
        assert(ignores(*self) =~= ig.push(eig));
        self.epoch = self.epoch + 1;
        self.touch = self.touch + 1;
        assert(self@.entries =~= spec_add(m, e.repo_root@, armed).entries);
    }

    /// Replaces the gitignore filter of entry `idx`.
    pub fn set_ignore(&mut self, idx: usize, ignore: Option<GitignoreFilter>)
        requires
            idx < old(self)@.entries.len(),
        ensures
            final(self)@ == old(self)@,
            ignores(*final(self)) == ignores(*old(self)).update(idx as int, ignore),
    {
        let ghost m = self@;
        let ghost ig = ignores(*self);
        self.entries[idx].ignore = ignore;
        assert(self@.entries =~= m.entries);
        assert(ignores(*self) =~= ig.update(idx as int, ignore));
    }

    /// Whether a completed watch of entry `idx` counts as a change, as
    /// `spec_completion_changed` states with the entry's current gitignore filter.
    pub fn completion_changed(
        &self,
        idx: usize,
        ok: bool,
        bytes: u32,
        paths: &Vec<(String, u32)>,
        reload: bool,
    ) -> (r: bool)
        requires
            idx < self@.entries.len(),
        ensures
            r == spec_completion_changed(ok, bytes, paths_view(paths@), reload, self.entries@[idx as int].ignore),
    {
        if !ok || bytes == 0 || reload {
            return true;
        }
        let ghost pv = paths_view(paths@);
        let ghost ig = self.entries@[idx as int].ignore;
        let mut k: usize = 0;
        while k < paths.len()
            invariant
                k <= paths@.len(),
                pv == paths_view(paths@),
                ig == self.entries@[idx as int].ignore,
                idx < self@.entries.len(),
                forall|j: int| 0 <= j < k ==> !path_visible(#[trigger] pv[j].0, ig),
            decreases paths@.len() - k,
        {
            let p = paths[k].0.as_str();
            assert(pv[k as int].0 == p@);
            let visible = if is_git_internal(p) {
                false
            } else {
                match &self.entries[idx].ignore {
                    Some(f) => !is_ignored_str(f, p),
                    None => true,
                }
            };
            if visible {
                return true;
            }
            k = k + 1;
        }
        false
    }

    /// How many of the records were git-internal, and how many a gitignore filter of entry
    /// `idx` dropped, for the diagnostic counters.
    pub fn count_dropped(&self, idx: usize, paths: &Vec<(String, u32)>) -> (r: (u64, u64))
        requires
            idx < self@.entries.len(),
        ensures
            r.0 == dropped_internal(paths_view(paths@)),
            r.1 == dropped_ignored(paths_view(paths@), self.entries@[idx as int].ignore),
    {
        let ghost pv = paths_view(paths@);
        let ghost ig = self.entries@[idx as int].ignore;
        let mut internal: u64 = 0;
        let mut ignored: u64 = 0;
        let mut k: usize = 0;
        while k < paths.len()
            invariant
                k <= paths@.len(),
                pv == paths_view(paths@),
                ig == self.entries@[idx as int].ignore,
                idx < self@.entries.len(),
                internal == dropped_internal(pv.take(k as int)),
                ignored == dropped_ignored(pv.take(k as int), ig),
                internal + ignored <= k,
            decreases paths@.len() - k,
        {
            let p = paths[k].0.as_str();
            assert(pv[k as int].0 == p@);
            assert(pv.take(k + 1).drop_last() =~= pv.take(k as int));
            if is_git_internal(p) {
                internal = internal + 1;
            } else {
                match &self.entries[idx].ignore {
                    Some(f) => {
                        if is_ignored_str(f, p) {
                            ignored = ignored + 1;
                        }
                    },
                    None => {},
                }
            }
            k = k + 1;
        }
        assert(pv.take(pv.len() as int) =~= pv);
        (internal, ignored)
    }

    /// Records the outcome of a completed watch of entry `idx`: whether it counted as a
    /// change and whether the watch could be started again.
    pub fn record_completion(&mut self, idx: usize, changed: bool, rearmed: bool)
        requires
            watcher_wf(old(self)@),
            idx < old(self)@.entries.len(),
        ensures
            watcher_wf(final(self)@),
            final(self)@ == spec_record(old(self)@, idx as int, changed, rearmed),
            ignores(*final(self)) == ignores(*old(self)),
    {
        let ghost m = self@;
        let ghost ig = ignores(*self);
        self.entries[idx].armed = rearmed;
        if changed || !rearmed {
            self.entries[idx].pending = true;
        }
        assert(ignores(*self) =~= ig);
        assert(self@.entries =~= spec_record(m, idx as int, changed, rearmed).entries);
        proof {
            let r = spec_record(m, idx as int, changed, rearmed).entries;
            assert forall|a: int, b: int|
                0 <= a < r.len() && 0 <= b < r.len() && a != b implies !same_path(#[trigger] r[a].root, #[trigger] r[b].root) by {
                assert(!same_path(m.entries[a].root, m.entries[b].root));
            }
            assert forall|a: int| 0 <= a < r.len() implies 1 <= #[trigger] r[a].version < m.epoch && r[a].last_touch < m.touch by {
                assert(m.entries[a].version == r[a].version);
            }
        }
    }

    /// The next version to hand out.
    pub fn epoch(&self) -> (e: u64)
        ensures
            e as nat == self@.epoch,
    {
        self.epoch
    }

    /// The next use stamp to hand out.
    pub fn touch(&self) -> (t: u64)
        ensures
            t as nat == self@.touch,
    {
        self.touch
    }
}

/// A completed watch as the tracker takes it in: whether the read succeeded, how many
/// bytes it returned, the change records read, and whether one of them names
/// `.gitignore`.
pub struct Completion {
    pub ok: bool,
    pub bytes: u32,
    pub paths: Vec<(String, u32)>,
    pub reload: bool,
}

/// The change records of a completed watch: those in the first `bytes` bytes of the
/// buffer (at most the whole buffer) where the read succeeded with some bytes; none
/// otherwise (a failed or overflowing read counts as a change without them).
pub open spec fn spec_completion_paths(ok: bool, bytes: u32, buf: Seq<u8>) -> Seq<(Seq<char>, u32)> {
    if ok && bytes != 0 {
        spec_watcher_paths(buf.take(if bytes < buf.len() { bytes as int } else { buf.len() as int }), 0)
    } else {
        Seq::empty()
    }
}

/// Reads a completed watch whose read ended with `ok` and `bytes` into `buf`: its change
/// records, as `spec_completion_paths` states, and whether the repository's `.gitignore`
/// must be read again before they are filtered.
pub fn read_completion(ok: bool, bytes: u32, buf: &[u8]) -> (c: Completion)
    ensures
        c.ok == ok,
        c.bytes == bytes,
        paths_view(c.paths@) == spec_completion_paths(ok, bytes, buf@),
        c.reload == (ok && bytes != 0 && exists|k: int|
            0 <= k < c.paths@.len() && #[trigger] c.paths@[k].0@ == ".gitignore"@),
{
    if ok && bytes != 0 {
        let n = bytes as usize;
        let len = if n < buf.len() { n } else { buf.len() };
        let part = &buf[0..len];
        assert(part@ == buf@.take(len as int));
        let paths = extract_watcher_paths(part);
        let reload = needs_gitignore_reload(&paths);
        let c = Completion { ok, bytes, paths, reload };
        assert(c.paths@ == paths@);
        c
    } else {
        let paths: Vec<(String, u32)> = Vec::new();
        assert(paths_view(paths@) =~= Seq::<(Seq<char>, u32)>::empty());
        Completion { ok, bytes, paths, reload: false }
    }
}

impl WatcherState {
    /// Takes in the completed watch `c` of entry `idx`: first the gitignore filter read
    /// again, where `reloaded` holds one (the caller reads it where `c.reload` asks for
    /// it), then whether the completion counts as a change under the entry's filter, then
    /// the outcome `rearmed` of starting the watch again. Returns whether it counted.
    pub fn apply_completion(
        &mut self,
        idx: usize,
        c: &Completion,
        reloaded: Option<Option<GitignoreFilter>>,
        rearmed: bool,
    ) -> (changed: bool)
        requires
            watcher_wf(old(self)@),
            idx < old(self)@.entries.len(),
        ensures
            ({
                let ig = match reloaded {
                    Some(f) => f,
                    None => old(self).entries@[idx as int].ignore,
                };
                &&& ignores(*final(self)) == ignores(*old(self)).update(idx as int, ig)
                &&& changed == spec_completion_changed(c.ok, c.bytes, paths_view(c.paths@), c.reload, ig)
            }),
            watcher_wf(final(self)@),
            final(self)@ == spec_record(old(self)@, idx as int, changed, rearmed),
    {
        let ghost ig0 = ignores(*self);
        match reloaded {
            Some(f) => self.set_ignore(idx, f),
            None => {
                assert(ig0.update(idx as int, ig0[idx as int]) =~= ig0);
            },
        }
        let ghost mid = self@;
        let ghost ig1 = ignores(*self);
        assert(ig1[idx as int] == self.entries@[idx as int].ignore);
        let changed = self.completion_changed(idx, c.ok, c.bytes, &c.paths, c.reload);
        self.record_completion(idx, changed, rearmed);
        changed
    }
}

/// A repository added after others were evicted gets a version greater than every version
/// held before, so a cache key built for it can never match one from its earlier watch.
pub proof fn lemma_new_entry_is_freshest(m: WatcherModel, root: Seq<char>, armed: bool)
    requires
        watcher_wf(m),
        !is_watched(m, root),
        m.entries.len() < MAX_WATCHED_REPOS,
    ensures
        watcher_wf(spec_add(m, root, armed)),
        spec_version(spec_add(m, root, armed), root) == m.epoch,
        forall|i: int| 0 <= i < m.entries.len() ==> #[trigger] m.entries[i].version < spec_version(spec_add(m, root, armed), root),
{
    let a = spec_add(m, root, armed);
    lemma_version_in_last(m.entries, root, a.entries[m.entries.len() as int]);
    assert(a.entries =~= m.entries.push(a.entries[m.entries.len() as int]));
}

/// Looking up a repository that only the appended entry holds finds that entry.
proof fn lemma_version_in_last(es: Seq<EntryModel>, root: Seq<char>, e: EntryModel)
    requires
        forall|i: int| 0 <= i < es.len() ==> !same_path(#[trigger] es[i].root, root),
        same_path(e.root, root),
    ensures
        version_in(es.push(e), root) == e.version,
    decreases es.len(),
{
    if es.len() > 0 {
        assert(es.push(e).drop_first() =~= es.drop_first().push(e));
        lemma_version_in_last(es.drop_first(), root, e);
    }
}

/// The tracker after entry `i` recorded each of the completions `outs` in turn, each a
/// pair of whether it counted as a change and whether the watch started again.
pub open spec fn spec_records(m: WatcherModel, i: int, outs: Seq<(bool, bool)>) -> WatcherModel
    decreases outs.len(),
{
    if outs.len() == 0 {
        m
    } else {
        let prev = spec_records(m, i, outs.drop_last());
        spec_record(prev, i, outs.last().0, outs.last().1)
    }
}

/// Whether any of the completions counts: a change was seen or the watch was lost.
pub open spec fn any_counts(outs: Seq<(bool, bool)>) -> bool {
    exists|k: int| 0 <= k < outs.len() && (#[trigger] outs[k].0 || !outs[k].1)
}

/// Recording completions touches entry `i` only, and only its pending mark and watch
/// state: the mark is set exactly where some completion counts.
proof fn lemma_records(m: WatcherModel, i: int, outs: Seq<(bool, bool)>)
    requires
        0 <= i < m.entries.len(),
    ensures
        spec_records(m, i, outs).entries.len() == m.entries.len(),
        spec_records(m, i, outs).epoch == m.epoch,
        spec_records(m, i, outs).touch == m.touch,
        forall|j: int| 0 <= j < m.entries.len() && j != i ==> #[trigger] spec_records(m, i, outs).entries[j] == m.entries[j],
        spec_records(m, i, outs).entries[i].root == m.entries[i].root,
        spec_records(m, i, outs).entries[i].version == m.entries[i].version,
        spec_records(m, i, outs).entries[i].last_touch == m.entries[i].last_touch,
        spec_records(m, i, outs).entries[i].pending == (m.entries[i].pending || any_counts(outs)),
    decreases outs.len(),
{
    if outs.len() > 0 {
        let d = outs.drop_last();
        lemma_records(m, i, d);
        let l = outs.len() - 1;
        if any_counts(outs) && !any_counts(d) && !(outs.last().0 || !outs.last().1) {
            let k = choose|k: int| 0 <= k < outs.len() && (#[trigger] outs[k].0 || !outs[k].1);
            assert(k != l);
            assert(d[k] == outs[k]);
        }
        if any_counts(d) {
            let k = choose|k: int| 0 <= k < d.len() && (#[trigger] d[k].0 || !d[k].1);
            assert(outs[k] == d[k]);
        }
        if outs.last().0 || !outs.last().1 {
            assert(outs[l] == outs.last());
        }
    }
}

/// A burst of changes in one repository between two flushes bumps its version once: after
/// a flush left nothing pending, any number of completions of which at least one counts
/// make the next flush give that repository exactly the next version, and move the next
/// version on by one; completions none of which counts leave every version as it was.
pub proof fn lemma_burst_bumps_once(m: WatcherModel, i: int, outs: Seq<(bool, bool)>)
    requires
        watcher_wf(m),
        0 <= i < m.entries.len(),
        forall|j: int| 0 <= j < m.entries.len() ==> !#[trigger] m.entries[j].pending,
    ensures
        any_counts(outs) ==> spec_flush(spec_records(m, i, outs)).entries[i].version == m.epoch,
        any_counts(outs) ==> spec_flush(spec_records(m, i, outs)).epoch == m.epoch + 1,
        !any_counts(outs) ==> spec_flush(spec_records(m, i, outs)).epoch == m.epoch,
        forall|j: int|
            0 <= j < m.entries.len() && (j != i || !any_counts(outs)) ==> #[trigger] spec_flush(
                spec_records(m, i, outs),
            ).entries[j].version == m.entries[j].version,
{
    lemma_records(m, i, outs);
    let r = spec_records(m, i, outs);
    lemma_flush_entries(r.entries, r.epoch);
    if any_counts(outs) {
        lemma_single_pending_bumps_once(r, i);
    } else {
        assert forall|j: int| 0 <= j < r.entries.len() implies !#[trigger] r.entries[j].pending by {
            if j != i {
                assert(r.entries[j] == m.entries[j]);
            }
        }
        lemma_count_none_pending(r.entries);
    }
    assert forall|j: int|
        0 <= j < m.entries.len() && (j != i || !any_counts(outs)) implies #[trigger] spec_flush(r).entries[j].version
            == m.entries[j].version by {
        if j != i {
            assert(r.entries[j] == m.entries[j]);
        }
        assert(!r.entries[j].pending);
    }
}

} // verus!
