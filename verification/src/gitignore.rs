//! A subset of `.gitignore` matching: `*` and `?` inside a path component, `**` across
//! components, `!` negation, a trailing `/` for directory-only rules and anchoring by a
//! leading or middle `/`.
use vstd::prelude::*;

use crate::text::{
    lemma_split_nonempty, seqs_of, split_chars, split_on, str_chars, forward_slash_chars, forward_slashes, starts_with, string_from_chars, trim,
    trim_chars,
};

verus! {

/// One parsed `.gitignore` line.
pub struct Rule {
    /// The pattern split at `/`.
    pub parts: Vec<String>,
    /// The line started with `!`.
    pub negate: bool,
    /// The pattern ended with `/`.
    pub dir_only: bool,
    /// The pattern only matches from the repository root.
    pub anchored: bool,
}

/// The rules of one `.gitignore` file, in file order.
pub struct GitignoreFilter {
    pub rules: Vec<Rule>,
}

/// Whether a single path component `n` matches the glob `p`, where `*` stands for any run
/// of characters and `?` for exactly one.
pub open spec fn glob_match(p: Seq<char>, n: Seq<char>) -> bool
    decreases p.len() + n.len(),
{
    if p.len() == 0 {
        n.len() == 0
    } else if n.len() == 0 {
        forall|i: int| 0 <= i < p.len() ==> p[i] == '*'
    } else if p[0] == '*' {
        glob_match(p.drop_first(), n) || glob_match(p, n.drop_first())
    } else if p[0] == '?' {
        glob_match(p.drop_first(), n.drop_first())
    } else {
        p[0] == n[0] && glob_match(p.drop_first(), n.drop_first())
    }
}

/// `glob_match` on the suffixes of `p` and `n` from `pi` and `ni`.
fn glob_from(p: &Vec<char>, pi: usize, n: &Vec<char>, ni: usize) -> (r: bool)
    requires
        pi <= p@.len(),
        ni <= n@.len(),
    ensures
        r == glob_match(p@.subrange(pi as int, p@.len() as int), n@.subrange(ni as int, n@.len() as int)),
    decreases p@.len() - pi + n@.len() - ni,
{
    let ghost ps = p@.subrange(pi as int, p@.len() as int);
    let ghost ns = n@.subrange(ni as int, n@.len() as int);
    if pi == p.len() {
        return ni == n.len();
    }
    if ni == n.len() {
        let mut k = pi;
        while k < p.len()
            invariant
                pi <= k <= p@.len(),
                ps == p@.subrange(pi as int, p@.len() as int),
                ns == n@.subrange(ni as int, n@.len() as int),
                ni == n@.len(),
                forall|i: int| 0 <= i < k - pi ==> ps[i] == '*',
            decreases p@.len() - k,
        {
            if p[k] != '*' {
                assert(ps[k - pi] != '*');
                assert(ns.len() == 0 && ps.len() > 0);
                assert(!(forall|i: int| 0 <= i < ps.len() ==> ps[i] == '*'));
                return false;
            }
            k = k + 1;
        }
        return true;
    }
    assert(ps.drop_first() =~= p@.subrange(pi + 1, p@.len() as int));
    assert(ns.drop_first() =~= n@.subrange(ni + 1, n@.len() as int));
    let pc = p[pi];
    if pc == '*' {
        glob_from(p, pi + 1, n, ni) || glob_from(p, pi, n, ni + 1)
    } else if pc == '?' {
        glob_from(p, pi + 1, n, ni + 1)
    } else {
        pc == n[ni] && glob_from(p, pi + 1, n, ni + 1)
    }
}

/// Whether the chars `n` match the glob chars `p`.
fn glob_chars(p: &Vec<char>, n: &Vec<char>) -> (r: bool)
    ensures
        r == glob_match(p@, n@),
{
    assert(p@.subrange(0, p@.len() as int) =~= p@);
    assert(n@.subrange(0, n@.len() as int) =~= n@);
    glob_from(p, 0, n, 0)
}

/// Whether the path component `name` matches the glob `pattern`.
pub fn component_match(pattern: &str, name: &str) -> (r: bool)
    ensures
        r == glob_match(pattern@, name@),
{
    let p = str_chars(pattern);
    let n = str_chars(name);
    glob_chars(&p, &n)
}

/// The pattern component `**`.
pub open spec fn double_star() -> Seq<char> {
    seq!['*', '*']
}

/// Whether the pattern parts from `pi` on match exactly the path components from `ci` on,
/// where a `**` part spans any number of components (at least one when it ends a
/// pattern of more than one part).
pub open spec fn walk(parts: Seq<Seq<char>>, comps: Seq<Seq<char>>, pi: int, ci: int) -> bool
    decreases parts.len() - pi, 0int,
{
    if pi >= parts.len() {
        ci == comps.len()
    } else if parts[pi] == double_star() {
        let remaining = parts.len() - pi - 1;
        let min_consume: int = if remaining == 0 && parts.len() > 1 {
            1
        } else {
            0
        };
        let max: int = if comps.len() >= remaining {
            comps.len() - remaining
        } else {
            0
        };
        walk_span(parts, comps, pi + 1, ci + min_consume, max)
    } else {
        0 <= ci < comps.len() && glob_match(parts[pi], comps[ci]) && walk(
            parts,
            comps,
            pi + 1,
            ci + 1,
        )
    }
}

/// Whether the pattern parts from `pi` on match the path components from some start in
/// `lo..=hi` on.
pub open spec fn walk_span(parts: Seq<Seq<char>>, comps: Seq<Seq<char>>, pi: int, lo: int, hi: int) -> bool
    decreases parts.len() - pi, hi - lo + 1,
{
    if lo > hi {
        false
    } else {
        walk(parts, comps, pi, lo) || walk_span(parts, comps, pi, lo + 1, hi)
    }
}

pub(crate) proof fn lemma_walk_span(parts: Seq<Seq<char>>, comps: Seq<Seq<char>>, pi: int, lo: int, hi: int)
    ensures
        walk_span(parts, comps, pi, lo, hi) <==> exists|e: int| lo <= e <= hi && #[trigger] walk(parts, comps, pi, e),
    decreases hi - lo + 1,
{
    if lo <= hi {
        assert(walk_span(parts, comps, pi, lo, hi) == (walk(parts, comps, pi, lo) || walk_span(parts, comps, pi, lo + 1, hi)));
        lemma_walk_span(parts, comps, pi, lo + 1, hi);
        if walk_span(parts, comps, pi, lo + 1, hi) {
            let e = choose|e: int| lo + 1 <= e <= hi && #[trigger] walk(parts, comps, pi, e);
            assert(lo <= e <= hi && walk(parts, comps, pi, e));
        }
        if exists|e: int| lo <= e <= hi && #[trigger] walk(parts, comps, pi, e) {
            let e = choose|e: int| lo <= e <= hi && #[trigger] walk(parts, comps, pi, e);
            if e != lo {
                assert(lo + 1 <= e <= hi && walk(parts, comps, pi, e));
            }
        }
    }
}

/// Whether a rule's pattern parts match a path given as components: a pattern with `**`
/// matches whole paths (from the root when anchored, else from any component); a single
/// part matches the first component when anchored, else any component; several parts
/// match the leading components.
pub open spec fn spec_path_match(parts: Seq<Seq<char>>, comps: Seq<Seq<char>>, anchored: bool) -> bool {
    if parts.contains(double_star()) {
        if anchored {
            walk(parts, comps, 0, 0)
        } else {
            exists|start: int| 0 <= start <= comps.len() && #[trigger] walk(parts, comps, 0, start)
        }
    } else if parts.len() == 1 {
        if anchored {
            comps.len() > 0 && glob_match(parts[0], comps[0])
        } else {
            exists|i: int| 0 <= i < comps.len() && #[trigger] glob_match(parts[0], comps[i])
        }
    } else if parts.len() <= comps.len() {
        forall|i: int| 0 <= i < parts.len() ==> #[trigger] glob_match(parts[i], comps[i])
    } else {
        false
    }
}

fn is_double_star(part: &Vec<char>) -> (r: bool)
    ensures
        r == (part@ == double_star()),
{
    if part.len() == 2 && part[0] == '*' && part[1] == '*' {
        assert(part@ =~= double_star());
        true
    } else {
        false
    }
}

/// `walk` over the first `clen` components of `comps`.
#[verifier::loop_isolation(false)]
fn walk_exec(pi: usize, ci: usize, parts: &Vec<Vec<char>>, comps: &Vec<Vec<char>>, clen: usize) -> (r: bool)
    requires
        pi <= parts@.len(),
        clen <= comps@.len(),
        ci <= clen,
    ensures
        r == walk(seqs_of(parts@), seqs_of(comps@).take(clen as int), pi as int, ci as int),
    decreases parts@.len() - pi,
{
    let ghost pv = seqs_of(parts@);
    let ghost cv = seqs_of(comps@).take(clen as int);
    if pi == parts.len() {
        return ci == clen;
    }
    assert(pv[pi as int] == parts@[pi as int]@);
    assert(pv.len() == parts@.len() && cv.len() == clen);
    if is_double_star(&parts[pi]) {
        let remaining = parts.len() - pi - 1;
        let min_consume: usize = if remaining == 0 && parts.len() > 1 {
            1
        } else {
            0
        };
        let max: usize = if clen >= remaining {
            clen - remaining
        } else {
            0
        };
        if min_consume > max || ci > max - min_consume {
            proof {
                lemma_walk_span(pv, cv, pi + 1, ci + min_consume, max as int);
            }
            return false;
        }
        let lo = ci + min_consume;
        let mut end = lo;
        loop
            invariant
                pi < parts@.len(),
                parts@.len() <= usize::MAX,
                max <= clen,
                lo <= end <= max,
                forall|e: int| lo <= e < end ==> !#[trigger] walk(pv, cv, pi + 1, e),
            decreases max - end,
        {
            if walk_exec(pi + 1, end, parts, comps, clen) {
                proof {
                    lemma_walk_span(pv, cv, pi + 1, lo as int, max as int);
                }
                return true;
            }
            if end == max {
                break;
            }
            end = end + 1;
        }
        proof {
            lemma_walk_span(pv, cv, pi + 1, lo as int, max as int);
        }
        return false;
    }
    if ci >= clen {
        return false;
    }
    assert(cv[ci as int] == comps@[ci as int]@);
    if glob_chars(&parts[pi], &comps[ci]) {
        return walk_exec(pi + 1, ci + 1, parts, comps, clen);
    }
    false
}

fn has_double_star(parts: &Vec<Vec<char>>) -> (r: bool)
    ensures
        r == seqs_of(parts@).contains(double_star()),
{
    let mut i: usize = 0;
    while i < parts.len()
        invariant
            i <= parts@.len(),
            forall|j: int| 0 <= j < i ==> parts@[j]@ != double_star(),
        decreases parts@.len() - i,
    {
        if is_double_star(&parts[i]) {
            assert(seqs_of(parts@)[i as int] == double_star());
            return true;
        }
        i = i + 1;
    }
    assert forall|j: int| 0 <= j < seqs_of(parts@).len() implies seqs_of(parts@)[j] != double_star() by {
        assert(parts@[j]@ != double_star());
    }
    false
}

/// `spec_path_match` against the first `clen` components of `comps`.
#[verifier::loop_isolation(false)]
fn path_match_chars(parts: &Vec<Vec<char>>, comps: &Vec<Vec<char>>, clen: usize, anchored: bool) -> (r: bool)
    requires
        clen <= comps@.len(),
    ensures
        r == spec_path_match(seqs_of(parts@), seqs_of(comps@).take(clen as int), anchored),
{
    let ghost pv = seqs_of(parts@);
    let ghost cv = seqs_of(comps@).take(clen as int);
    assert(cv.len() == clen);
    if has_double_star(parts) {
        if anchored {
            return walk_exec(0, 0, parts, comps, clen);
        }
        let mut start: usize = 0;
        loop
            invariant
                start <= clen,
                forall|e: int| 0 <= e < start ==> !#[trigger] walk(pv, cv, 0, e),
            decreases clen - start,
        {
            if walk_exec(0, start, parts, comps, clen) {
                return true;
            }
            if start == clen {
                break;
            }
            start = start + 1;
        }
        return false;
    }
    if parts.len() == 1 {
        assert(pv[0] == parts@[0]@);
        if anchored {
            if clen == 0 {
                return false;
            }
            assert(cv[0] == comps@[0]@);
            return glob_chars(&parts[0], &comps[0]);
        }
        let mut i: usize = 0;
        while i < clen
            invariant
                i <= clen,
                forall|e: int| 0 <= e < i ==> !#[trigger] glob_match(pv[0], cv[e]),
            decreases clen - i,
        {
            assert(cv[i as int] == comps@[i as int]@);
            if glob_chars(&parts[0], &comps[i]) {
                return true;
            }
            i = i + 1;
        }
        return false;
    }
    if parts.len() <= clen {
        let mut i: usize = 0;
        while i < parts.len()
            invariant
                i <= parts@.len(),
                forall|e: int| 0 <= e < i ==> #[trigger] glob_match(pv[e], cv[e]),
            decreases parts@.len() - i,
        {
            assert(pv[i as int] == parts@[i as int]@);
            assert(cv[i as int] == comps@[i as int]@);
            if !glob_chars(&parts[i], &comps[i]) {
                return false;
            }
            i = i + 1;
        }
        return true;
    }
    false
}

/// The characters of each string.
fn strings_chars(v: &[String]) -> (r: Vec<Vec<char>>)
    ensures
        seqs_of(r@) == v@.map_values(|s: String| s@),
{
    let mut r: Vec<Vec<char>> = Vec::new();
    let mut i: usize = 0;
    while i < v.len()
        invariant
            i <= v@.len(),
            r@.len() == i,
            forall|j: int| 0 <= j < i ==> #[trigger] r@[j]@ == v@[j]@,
        decreases v@.len() - i,
    {
        let c = str_chars(v[i].as_str());
        r.push(c);
        i = i + 1;
    }
    assert(seqs_of(r@) =~= v@.map_values(|s: String| s@));
    r
}

/// The characters of each string slice.
fn strs_chars(v: &[&str]) -> (r: Vec<Vec<char>>)
    ensures
        seqs_of(r@) == v@.map_values(|s: &str| s@),
{
    let mut r: Vec<Vec<char>> = Vec::new();
    let mut i: usize = 0;
    while i < v.len()
        invariant
            i <= v@.len(),
            r@.len() == i,
            forall|j: int| 0 <= j < i ==> #[trigger] r@[j]@ == v@[j]@,
        decreases v@.len() - i,
    {
        let c = str_chars(v[i]);
        r.push(c);
        i = i + 1;
    }
    assert(seqs_of(r@) =~= v@.map_values(|s: &str| s@));
    r
}

/// Whether the pattern `parts` match the path components `path_comps`, as
/// `spec_path_match` states.
pub fn path_match(parts: &[String], path_comps: &[&str], anchored: bool) -> (r: bool)
    ensures
        r == spec_path_match(
            parts@.map_values(|s: String| s@),
            path_comps@.map_values(|s: &str| s@),
            anchored,
        ),
{
    let p = strings_chars(parts);
    let c = strs_chars(path_comps);
    assert(seqs_of(c@).take(c@.len() as int) =~= seqs_of(c@));
    path_match_chars(&p, &c, c.len(), anchored)
}

/// The pattern parts of a rule, as character sequences.
pub open spec fn rule_parts(r: Rule) -> Seq<Seq<char>> {
    r.parts@.map_values(|p: String| p@)
}

/// The verdict of the last rule of the given kind (directory-only or not) that matches
/// `comps`: ignored unless that rule is negated; not ignored where none matches.
pub open spec fn last_verdict(rules: Seq<Rule>, dir_only: bool, comps: Seq<Seq<char>>) -> bool
    decreases rules.len(),
{
    if rules.len() == 0 {
        false
    } else {
        let r = rules.last();
        if r.dir_only == dir_only && spec_path_match(rule_parts(r), comps, r.anchored) {
            !r.negate
        } else {
            last_verdict(rules.drop_last(), dir_only, comps)
        }
    }
}

/// A path (as components) is ignored when a directory-only rule ignores one of its
/// leading sub-paths (an ignored directory hides everything below it, whatever later
/// file rules say), or else when the last file rule matching the whole path ignores it.
pub open spec fn spec_is_ignored(rules: Seq<Rule>, comps: Seq<Seq<char>>) -> bool {
    (exists|d: int| 1 <= d <= comps.len() && #[trigger] last_verdict(rules, true, comps.take(d)))
        || last_verdict(rules, false, comps)
}

/// The pattern parts of every rule, as characters.
fn rules_chars(rules: &Vec<Rule>) -> (r: Vec<Vec<Vec<char>>>)
    ensures
        r@.len() == rules@.len(),
        forall|k: int| 0 <= k < r@.len() ==> #[trigger] seqs_of(r@[k]@) == rule_parts(rules@[k]),
{
    let mut r: Vec<Vec<Vec<char>>> = Vec::new();
    let mut k: usize = 0;
    while k < rules.len()
        invariant
            k <= rules@.len(),
            r@.len() == k,
            forall|j: int| 0 <= j < k ==> #[trigger] seqs_of(r@[j]@) == rule_parts(rules@[j]),
        decreases rules@.len() - k,
    {
        let p = strings_chars(rules[k].parts.as_slice());
        r.push(p);
        k = k + 1;
    }
    r
}

/// `last_verdict` of the rules of one kind against the first `clen` components.
fn verdict(
    parts_all: &Vec<Vec<Vec<char>>>,
    rules: &Vec<Rule>,
    dir_only: bool,
    comps: &Vec<Vec<char>>,
    clen: usize,
) -> (r: bool)
    requires
        parts_all@.len() == rules@.len(),
        forall|k: int| 0 <= k < parts_all@.len() ==> #[trigger] seqs_of(parts_all@[k]@) == rule_parts(rules@[k]),
        clen <= comps@.len(),
    ensures
        r == last_verdict(rules@, dir_only, seqs_of(comps@).take(clen as int)),
{
    let ghost cv = seqs_of(comps@).take(clen as int);
    let mut result = false;
    let mut k: usize = 0;
    assert(rules@.take(0) =~= Seq::<Rule>::empty());
    while k < rules.len()
        invariant
            k <= rules@.len(),
            parts_all@.len() == rules@.len(),
            forall|j: int| 0 <= j < parts_all@.len() ==> #[trigger] seqs_of(parts_all@[j]@) == rule_parts(rules@[j]),
            clen <= comps@.len(),
            cv == seqs_of(comps@).take(clen as int),
            result == last_verdict(rules@.take(k as int), dir_only, cv),
        decreases rules@.len() - k,
    {
        assert(rules@.take(k + 1).drop_last() =~= rules@.take(k as int));
        assert(rules@.take(k + 1).last() == rules@[k as int]);
        let rule = &rules[k];
        assert(seqs_of(parts_all@[k as int]@) == rule_parts(rules@[k as int]));
        if rule.dir_only == dir_only && path_match_chars(&parts_all[k], comps, clen, rule.anchored) {
            result = !rule.negate;
        }
        k = k + 1;
    }
    assert(rules@.take(k as int) =~= rules@);
    result
}

/// Whether a repository-relative path with `/` separators is ignored, as
/// `spec_is_ignored` states for its components.
pub fn is_ignored_str(ig: &GitignoreFilter, event_path: &str) -> (r: bool)
    ensures
        r == spec_is_ignored(ig.rules@, split_on(event_path@, '/')),
{
    let chars = str_chars(event_path);
    let comps = split_chars(&chars, '/');
    let ghost cv = seqs_of(comps@);
    proof {
        lemma_split_nonempty(event_path@, '/');
    }
    assert(cv.len() == comps@.len());
    let parts_all = rules_chars(&ig.rules);
    let n = comps.len();
    let mut depth = n;
    while depth > 0
        invariant
            depth <= n,
            n == comps@.len(),
            cv == seqs_of(comps@),
            cv == split_on(event_path@, '/'),
            parts_all@.len() == ig.rules@.len(),
            forall|k: int| 0 <= k < parts_all@.len() ==> #[trigger] seqs_of(parts_all@[k]@) == rule_parts(ig.rules@[k]),
            forall|d: int| depth < d <= n ==> !#[trigger] last_verdict(ig.rules@, true, cv.take(d)),
        decreases depth,
    {
        if verdict(&parts_all, &ig.rules, true, &comps, depth) {
            assert(last_verdict(ig.rules@, true, cv.take(depth as int)));
            return true;
        }
        depth = depth - 1;
    }
    assert(cv.take(n as int) =~= cv);
    verdict(&parts_all, &ig.rules, false, &comps, n)
}

/// Whether a path is ignored, backslashes read as separators.
pub fn is_ignored(ig: &GitignoreFilter, event_path: &str) -> (r: bool)
    ensures
        r == spec_is_ignored(ig.rules@, split_on(forward_slashes(event_path@), '/')),
{
    let chars = str_chars(event_path);
    let out = forward_slash_chars(&chars);
    let normalized = string_from_chars(&out);
    is_ignored_str(ig, normalized.as_str())
}

/// `s` without one leading `c`, if it starts with one.
pub open spec fn strip_prefix_char(s: Seq<char>, c: char) -> Seq<char> {
    if s.len() > 0 && s[0] == c {
        s.drop_first()
    } else {
        s
    }
}

/// `s` without one trailing `c`, if it ends with one.
pub open spec fn strip_suffix_char(s: Seq<char>, c: char) -> Seq<char> {
    if s.len() > 0 && s.last() == c {
        s.drop_last()
    } else {
        s
    }
}

/// A rule as plain values: its pattern parts, then whether it negates, whether it only
/// matches directories and whether it is anchored.
pub open spec fn rule_view(r: Rule) -> (Seq<Seq<char>>, bool, bool, bool) {
    (rule_parts(r), r.negate, r.dir_only, r.anchored)
}

/// The rule one `.gitignore` line gives, if any: blank lines and comments give none; a
/// leading `!` negates; a leading `/` anchors; a trailing `/` restricts to directories; a
/// pattern with an inner `/` is anchored unless it starts with `**/`.
pub open spec fn parse_line(line: Seq<char>) -> Option<(Seq<Seq<char>>, bool, bool, bool)> {
    let t = trim(line);
    if t.len() == 0 || t[0] == '#' {
        None
    } else {
        let trimmed = strip_prefix_char(t, '!');
        let stripped = strip_prefix_char(trimmed, '/');
        let pattern = strip_suffix_char(stripped, '/');
        if pattern.len() == 0 {
            None
        } else {
            Some(
                (
                    split_on(pattern, '/'),
                    t != trimmed,
                    stripped != pattern,
                    trimmed != stripped || (pattern.contains('/') && !starts_with(
                        pattern,
                        seq!['*', '*', '/'],
                    )),
                ),
            )
        }
    }
}

/// The rules of the given lines, in order.
pub open spec fn parsed_rules(lines: Seq<Seq<char>>) -> Seq<(Seq<Seq<char>>, bool, bool, bool)>
    decreases lines.len(),
{
    if lines.len() == 0 {
        Seq::empty()
    } else {
        let prev = parsed_rules(lines.drop_last());
        match parse_line(lines.last()) {
            Some(r) => prev.push(r),
            None => prev,
        }
    }
}

/// The rules of a `.gitignore` file's text, or `None` where it has none.
pub open spec fn spec_parse_gitignore(content: Seq<char>) -> Option<Seq<(Seq<Seq<char>>, bool, bool, bool)>> {
    let rules = parsed_rules(split_on(content, '\n'));
    if rules.len() == 0 {
        None
    } else {
        Some(rules)
    }
}

/// Strings holding the given character vectors.
fn strings_from(v: &Vec<Vec<char>>) -> (r: Vec<String>)
    ensures
        r@.map_values(|p: String| p@) == seqs_of(v@),
{
    let mut r: Vec<String> = Vec::new();
    let mut i: usize = 0;
    while i < v.len()
        invariant
            i <= v@.len(),
            r@.len() == i,
            forall|j: int| 0 <= j < i ==> #[trigger] r@[j]@ == v@[j]@,
        decreases v@.len() - i,
    {
        r.push(string_from_chars(&v[i]));
        i = i + 1;
    }
    assert(r@.map_values(|p: String| p@) =~= seqs_of(v@));
    r
}

/// The rule of one line, as `parse_line` states.
fn parse_line_exec(line: &Vec<char>) -> (r: Option<Rule>)
    ensures
        match r {
            Some(rule) => parse_line(line@) == Some(rule_view(rule)),
            None => parse_line(line@) is None,
        },
{
    let t = trim_chars(line);
    let n = t.len();
    if n == 0 || t[0] == '#' {
        return None;
    }
    let a: usize = if t[0] == '!' {
        1
    } else {
        0
    };
    let b: usize = if a < n && t[a] == '/' {
        a + 1
    } else {
        a
    };
    let e: usize = if b < n && t[n - 1] == '/' {
        n - 1
    } else {
        n
    };
    let ghost tv = t@;
    let ghost trimmed = strip_prefix_char(tv, '!');
    let ghost stripped = strip_prefix_char(trimmed, '/');
    let ghost pattern = strip_suffix_char(stripped, '/');
    assert(trimmed =~= tv.subrange(a as int, n as int));
    assert(stripped =~= tv.subrange(b as int, n as int));
    assert(pattern =~= tv.subrange(b as int, e as int));
    if e <= b {
        return None;
    }
    let mut pat: Vec<char> = Vec::new();
    let mut k = b;
    let mut has_slash = false;
    while k < e
        invariant
            b <= k <= e <= n,
            n == t@.len(),
            pat@ == t@.subrange(b as int, k as int),
            has_slash == pat@.contains('/'),
        decreases e - k,
    {
        let c = t[k];
        let ghost before = pat@;
        pat.push(c);
        if c == '/' {
            has_slash = true;
            assert(pat@[pat@.len() - 1] == '/');
        }
        k = k + 1;
        assert(pat@ =~= t@.subrange(b as int, k as int));
        if !has_slash {
            assert forall|x: int| 0 <= x < pat@.len() implies pat@[x] != '/' by {
                if x < before.len() {
                    assert(pat@[x] == before[x]);
                }
            }
        }
    }
    assert(pat@ == pattern);
    let starts_glob_dir = pat.len() >= 3 && pat[0] == '*' && pat[1] == '*' && pat[2] == '/';
    assert(starts_glob_dir == starts_with(pattern, seq!['*', '*', '/'])) by {
        if pattern.len() >= 3 {
            if starts_glob_dir {
                assert(pattern.subrange(0, 3) =~= seq!['*', '*', '/']);
            }
        }
    }
    let negate = a == 1;
    assert(negate == (tv != trimmed)) by {
        if !negate {
            assert(tv =~= trimmed);
        } else {
            assert(tv.len() != trimmed.len());
        }
    }
    let dir_only = e < n;
    assert(dir_only == (stripped != pattern)) by {
        if !dir_only {
            assert(stripped =~= pattern);
        } else {
            assert(stripped.len() != pattern.len());
        }
    }
    let anchored = b > a || (has_slash && !starts_glob_dir);
    assert((b > a) == (trimmed != stripped)) by {
        if b == a {
            assert(trimmed =~= stripped);
        } else {
            assert(trimmed.len() != stripped.len());
        }
    }
    let parts_chars = split_chars(&pat, '/');
    let parts = strings_from(&parts_chars);
    let rule = Rule { parts, negate, dir_only, anchored };
    assert(rule_parts(rule) == split_on(pattern, '/'));
    Some(rule)
}

/// The rules of a `.gitignore` file's text, as `spec_parse_gitignore` states.
pub fn parse_gitignore(content: &str) -> (r: Option<GitignoreFilter>)
    ensures
        match r {
            Some(f) => spec_parse_gitignore(content@) == Some(f.rules@.map_values(|x: Rule| rule_view(x))),
            None => spec_parse_gitignore(content@) is None,
        },
{
    let chars = str_chars(content);
    let lines = split_chars(&chars, '\n');
    let ghost lv = seqs_of(lines@);
    let mut rules: Vec<Rule> = Vec::new();
    let mut k: usize = 0;
    assert(lv.take(0) =~= Seq::<Seq<char>>::empty());
    assert(rules@.map_values(|x: Rule| rule_view(x)) =~= parsed_rules(lv.take(0)));
    while k < lines.len()
        invariant
            k <= lines@.len(),
            lv == seqs_of(lines@),
            rules@.map_values(|x: Rule| rule_view(x)) == parsed_rules(lv.take(k as int)),
        decreases lines@.len() - k,
    {
        assert(lv.take(k + 1).drop_last() =~= lv.take(k as int));
        assert(lv.take(k + 1).last() == lines@[k as int]@);
        match parse_line_exec(&lines[k]) {
            Some(rule) => {
                rules.push(rule);
                assert(rules@.map_values(|x: Rule| rule_view(x)) =~= parsed_rules(lv.take(k as int)).push(rule_view(rule)));
            },
            None => {},
        }
        k = k + 1;
    }
    assert(lv.take(k as int) =~= lv);
    if rules.len() == 0 {
        return None;
    }
    Some(GitignoreFilter { rules })
}

} // verus!
