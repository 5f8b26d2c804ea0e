//! What `.gitignore` matching and parsing promise over all inputs.
use vstd::prelude::*;

use crate::gitignore::{double_star, glob_match, lemma_walk_span, parse_line, spec_path_match, walk};
use crate::text::{is_white, split_on, starts_with, trim, trim_end, trim_start};

verus! {

/// A pattern of two or more parts without `**` whose parts match the leading components
/// of a path matches that path and every path below it: matching is closed under
/// appending components, so a rule `docs/gen` ignores everything under `docs/gen`.
pub proof fn lemma_multi_part_match_extends(
    parts: Seq<Seq<char>>,
    comps: Seq<Seq<char>>,
    more: Seq<Seq<char>>,
    anchored: bool,
)
    requires
        parts.len() >= 2,
        !parts.contains(double_star()),
        parts.len() <= comps.len(),
        forall|i: int| 0 <= i < parts.len() ==> #[trigger] glob_match(parts[i], comps[i]),
    ensures
        spec_path_match(parts, comps, anchored),
        spec_path_match(parts, comps + more, anchored),
{
    let c = comps + more;
    assert forall|i: int| 0 <= i < parts.len() implies #[trigger] glob_match(parts[i], c[i]) by {
        assert(c[i] == comps[i]);
    }
}

/// A pattern of two or more parts without `**` only looks at as many leading components
/// as it has parts: what follows them never changes the answer, and a shorter path never
/// matches. Whether the rule is anchored makes no difference.
pub proof fn lemma_multi_part_match_prefix(parts: Seq<Seq<char>>, comps: Seq<Seq<char>>, anchored: bool)
    requires
        parts.len() >= 2,
        !parts.contains(double_star()),
    ensures
        comps.len() < parts.len() ==> !spec_path_match(parts, comps, anchored),
        comps.len() >= parts.len() ==> spec_path_match(parts, comps, anchored) == spec_path_match(
            parts,
            comps.take(parts.len() as int),
            anchored,
        ),
        spec_path_match(parts, comps, anchored) == spec_path_match(parts, comps, !anchored),
{
    if comps.len() >= parts.len() {
        let t = comps.take(parts.len() as int);
        assert forall|i: int| 0 <= i < parts.len() implies t[i] == comps[i] by {}
        if spec_path_match(parts, t, anchored) {
            assert forall|i: int| 0 <= i < parts.len() implies #[trigger] glob_match(parts[i], comps[i]) by {
                assert(glob_match(parts[i], t[i]));
            }
        }
        if spec_path_match(parts, comps, anchored) {
            assert forall|i: int| 0 <= i < parts.len() implies #[trigger] glob_match(parts[i], t[i]) by {
                assert(glob_match(parts[i], comps[i]));
            }
        }
    }
}

/// A pattern that matches from the repository root also matches when it may start at any
/// component: anchoring only ever narrows what a rule matches.
pub proof fn lemma_anchored_match_is_unanchored_match(parts: Seq<Seq<char>>, comps: Seq<Seq<char>>)
    ensures
        spec_path_match(parts, comps, true) ==> spec_path_match(parts, comps, false),
{
    if spec_path_match(parts, comps, true) {
        if parts.contains(double_star()) {
            assert(walk(parts, comps, 0, 0));
        } else if parts.len() == 1 {
            assert(glob_match(parts[0], comps[0]));
        }
    }
}

/// A single pattern part not anchored matches a path wherever the matching component
/// stands: adding components before or after it never loses the match. Anchored, it
/// only looks at the first component, so adding components after it never loses it.
pub proof fn lemma_single_part_match_extends(
    p: Seq<char>,
    pre: Seq<Seq<char>>,
    comps: Seq<Seq<char>>,
    post: Seq<Seq<char>>,
)
    requires
        p != double_star(),
    ensures
        spec_path_match(seq![p], comps, false) ==> spec_path_match(seq![p], pre + comps + post, false),
        spec_path_match(seq![p], comps, true) ==> spec_path_match(seq![p], comps + post, true),
{
    let parts = seq![p];
    assert(!parts.contains(double_star())) by {
        if parts.contains(double_star()) {
            let k = choose|k: int| 0 <= k < parts.len() && parts[k] == double_star();
            assert(parts[k] == p);
        }
    }
    let u = pre + comps + post;
    if spec_path_match(parts, comps, false) {
        let i = choose|i: int| 0 <= i < comps.len() && #[trigger] glob_match(parts[0], comps[i]);
        assert(u[pre.len() + i] == comps[i]);
        assert(glob_match(parts[0], u[pre.len() + i]));
    }
    if spec_path_match(parts, comps, true) {
        assert((comps + post)[0] == comps[0]);
    }
}

/// `**` alone matches every path, anchored or not.
pub proof fn lemma_double_star_matches_all(comps: Seq<Seq<char>>, anchored: bool)
    ensures
        spec_path_match(seq![double_star()], comps, anchored),
{
    let parts = seq![double_star()];
    assert(parts[0] == double_star());
    assert(parts.contains(double_star()));
    lemma_walk_span(parts, comps, 1, 0, comps.len() as int);
    assert(walk(parts, comps, 1, comps.len() as int));
    assert(walk(parts, comps, 0, 0));
}

/// `a/**` matches every path strictly below a first component that `a` matches, and
/// never that component alone.
pub proof fn lemma_trailing_double_star(p: Seq<char>, c: Seq<char>, rest: Seq<Seq<char>>)
    requires
        p != double_star(),
    ensures
        glob_match(p, c) && rest.len() >= 1 ==> spec_path_match(seq![p, double_star()], seq![c] + rest, true),
        !spec_path_match(seq![p, double_star()], seq![c], true),
{
    let parts = seq![p, double_star()];
    assert(parts[1] == double_star() && parts[0] == p);
    assert(parts.contains(double_star()));
    let comps = seq![c] + rest;
    assert(comps[0] == c);
    lemma_walk_span(parts, comps, 2, 2, comps.len() as int);
    if rest.len() >= 1 {
        assert(walk(parts, comps, 2, comps.len() as int));
        assert(walk(parts, comps, 1, 1) == crate::gitignore::walk_span(parts, comps, 2, 2, comps.len() as int));
        assert(walk(parts, comps, 1, 1));
        if glob_match(p, c) {
            assert(walk(parts, comps, 0, 0));
        }
    }
    let one = seq![c];
    assert(walk(parts, one, 1, 1) == crate::gitignore::walk_span(parts, one, 2, 2, 1));
    assert(!crate::gitignore::walk_span(parts, one, 2, 2, 1));
    assert(!walk(parts, one, 0, 0));
}

/// `**/a` matches a path whose last component `a` matches, at any depth.
pub proof fn lemma_leading_double_star(p: Seq<char>, pre: Seq<Seq<char>>, c: Seq<char>, anchored: bool)
    requires
        p != double_star(),
        glob_match(p, c),
    ensures
        spec_path_match(seq![double_star(), p], pre.push(c), anchored),
{
    let parts = seq![double_star(), p];
    assert(parts[0] == double_star() && parts[1] == p);
    assert(parts.contains(double_star()));
    let comps = pre.push(c);
    let n = comps.len() as int;
    assert(comps[n - 1] == c);
    assert(walk(parts, comps, 2, n));
    assert(walk(parts, comps, 1, n - 1));
    lemma_walk_span(parts, comps, 1, 0, n - 1);
    assert(walk(parts, comps, 0, 0));
}

/// Whether `p` holds no wildcard.
pub open spec fn is_literal(p: Seq<char>) -> bool {
    forall|i: int| 0 <= i < p.len() ==> p[i] != '*' && p[i] != '?'
}

/// A component pattern without `*` or `?` matches exactly the name it spells.
pub proof fn lemma_glob_literal(p: Seq<char>, n: Seq<char>)
    requires
        is_literal(p),
    ensures
        glob_match(p, n) <==> p == n,
    decreases p.len() + n.len(),
{
    if p.len() == 0 {
        if n.len() == 0 {
            assert(p =~= n);
        }
    } else if n.len() == 0 {
        assert(p[0] != '*');
    } else {
        let pt = p.drop_first();
        assert(is_literal(pt)) by {
            assert forall|i: int| 0 <= i < pt.len() implies pt[i] != '*' && pt[i] != '?' by {
                assert(pt[i] == p[i + 1]);
            }
        }
        lemma_glob_literal(pt, n.drop_first());
        if p == n {
            assert(pt == n.drop_first());
        }
        if p[0] == n[0] && pt == n.drop_first() {
            assert forall|i: int| 0 <= i < p.len() implies p[i] == n[i] by {
                if i > 0 {
                    assert(p[i] == pt[i - 1]);
                    assert(n[i] == n.drop_first()[i - 1]);
                }
            }
            assert(p =~= n);
        }
    }
}

/// `*` matches every name, the empty one included.
pub proof fn lemma_glob_star_matches_all(n: Seq<char>)
    ensures
        glob_match(seq!['*'], n),
    decreases n.len(),
{
    if n.len() > 0 {
        lemma_glob_star_matches_all(n.drop_first());
        assert(seq!['*'].drop_first() =~= Seq::<char>::empty());
    }
}

/// `?` matches exactly the names of one character.
pub proof fn lemma_glob_question(n: Seq<char>)
    ensures
        glob_match(seq!['?'], n) <==> n.len() == 1,
{
    let p = seq!['?'];
    assert(p.len() == 1 && p[0] == '?');
    assert(p.drop_first() =~= Seq::<char>::empty());
    if n.len() > 0 {
        assert(glob_match(p, n) == glob_match(p.drop_first(), n.drop_first()));
        assert(glob_match(Seq::<char>::empty(), n.drop_first()) <==> n.drop_first().len() == 0);
    } else {
        assert(!(p[0] == '*'));
    }
}

/// White space added after a line ends its trimmed text no earlier.
proof fn lemma_trim_end_white_suffix(s: Seq<char>, w: Seq<char>)
    requires
        forall|i: int| 0 <= i < w.len() ==> is_white(#[trigger] w[i]),
    ensures
        trim_end(s + w) == trim_end(s),
    decreases w.len(),
{
    if w.len() > 0 {
        let u = s + w;
        assert(u.last() == w.last());
        assert(u.drop_last() =~= s + w.drop_last());
        lemma_trim_end_white_suffix(s, w.drop_last());
    } else {
        assert(s + w =~= s);
    }
}

/// Trimming the start of a line that ends in `w` keeps `w` at its end, unless the whole
/// line is white.
proof fn lemma_trim_start_append(s: Seq<char>, w: Seq<char>)
    requires
        forall|i: int| 0 <= i < w.len() ==> is_white(#[trigger] w[i]),
    ensures
        trim_start(s + w) == trim_start(s) + w || (trim_start(s).len() == 0 && trim_start(s + w).len() == 0),
    decreases s.len(),
{
    let u = s + w;
    if s.len() == 0 {
        assert(u =~= w);
        lemma_trim_start_all_white(w);
    } else if is_white(s[0]) {
        assert(u[0] == s[0]);
        assert(u.drop_first() =~= s.drop_first() + w);
        lemma_trim_start_append(s.drop_first(), w);
    } else {
        assert(u[0] == s[0]);
    }
}

/// A line of white space trims to nothing at its start.
proof fn lemma_trim_start_all_white(w: Seq<char>)
    requires
        forall|i: int| 0 <= i < w.len() ==> is_white(#[trigger] w[i]),
    ensures
        trim_start(w).len() == 0,
    decreases w.len(),
{
    if w.len() > 0 {
        let t = w.drop_first();
        assert forall|i: int| 0 <= i < t.len() implies is_white(#[trigger] t[i]) by {
            assert(t[i] == w[i + 1]);
        }
        lemma_trim_start_all_white(t);
    }
}

/// Trimming a line is blind to white space added at its end.
pub proof fn lemma_trim_white_suffix(s: Seq<char>, w: Seq<char>)
    requires
        forall|i: int| 0 <= i < w.len() ==> is_white(#[trigger] w[i]),
    ensures
        trim(s + w) == trim(s),
{
    lemma_trim_start_append(s, w);
    if trim_start(s + w) == trim_start(s) + w {
        lemma_trim_end_white_suffix(trim_start(s), w);
    } else {
        assert(trim_start(s + w) =~= trim_start(s));
    }
}

/// Trimming a line is blind to white space added at its start.
pub proof fn lemma_trim_white_prefix(w: Seq<char>, s: Seq<char>)
    requires
        forall|i: int| 0 <= i < w.len() ==> is_white(#[trigger] w[i]),
    ensures
        trim(w + s) == trim(s),
    decreases w.len(),
{
    if w.len() > 0 {
        let u = w + s;
        assert(u[0] == w[0]);
        assert(u.drop_first() =~= w.drop_first() + s);
        let t = w.drop_first();
        assert forall|i: int| 0 <= i < t.len() implies is_white(#[trigger] t[i]) by {
            assert(t[i] == w[i + 1]);
        }
        lemma_trim_white_prefix(t, s);
    } else {
        assert(w + s =~= s);
    }
}

/// A `.gitignore` line means the same whatever white space surrounds it: a line ending in
/// `\r` (a CRLF file), indented, or with trailing blanks gives the same rule (or none) as
/// the bare line.
pub proof fn lemma_parse_line_ignores_surrounding_white(lead: Seq<char>, line: Seq<char>, trail: Seq<char>)
    requires
        forall|i: int| 0 <= i < lead.len() ==> is_white(#[trigger] lead[i]),
        forall|i: int| 0 <= i < trail.len() ==> is_white(#[trigger] trail[i]),
    ensures
        parse_line(lead + line + trail) == parse_line(line),
        parse_line(line + seq!['\r']) == parse_line(line),
{
    lemma_trim_white_suffix(lead + line, trail);
    lemma_trim_white_prefix(lead, line);
    let cr = seq!['\r'];
    assert(is_white(cr[0]));
    lemma_trim_white_suffix(line, cr);
}

/// A text whose ends are not white space trims to itself.
proof fn lemma_trim_trimmed(x: Seq<char>)
    requires
        x.len() > 0,
        !is_white(x[0]),
        !is_white(x.last()),
    ensures
        trim(x) == x,
{
}

/// Text without `/` is one piece when split at `/`.
proof fn lemma_split_no_slash(x: Seq<char>)
    requires
        !x.contains('/'),
    ensures
        split_on(x, '/') == seq![x],
    decreases x.len(),
{
    if x.len() > 0 {
        let d = x.drop_last();
        assert(!d.contains('/')) by {
            if d.contains('/') {
                let k = choose|k: int| 0 <= k < d.len() && d[k] == '/';
                assert(x[k] == '/');
            }
        }
        lemma_split_no_slash(d);
        assert(x.last() != '/') by {
            assert(x[x.len() - 1] == x.last());
        }
        assert(d.push(x.last()) =~= x);
    } else {
        assert(x =~= Seq::<char>::empty());
    }
}

/// Whether `x` can stand as a bare pattern: not empty, not starting with white space,
/// `!`, `#` or `/`, and not ending with white space or `/`.
pub open spec fn bare_pattern(x: Seq<char>) -> bool {
    &&& x.len() > 0
    &&& !is_white(x[0])
    &&& x[0] != '!' && x[0] != '#' && x[0] != '/'
    &&& !is_white(x.last())
    &&& x.last() != '/'
}

/// What the marks around a one-component pattern `x` mean: bare it is a plain rule; with
/// a trailing `/` it only matches directories; with a leading `/` it is anchored; with a
/// leading `!` it negates; with a leading `#` the line is a comment.
pub proof fn lemma_parse_line_marks(x: Seq<char>)
    requires
        bare_pattern(x),
        !x.contains('/'),
    ensures
        parse_line(x) == Some((seq![x], false, false, false)),
        parse_line(x + seq!['/']) == Some((seq![x], false, true, false)),
        parse_line(seq!['/'] + x) == Some((seq![x], false, false, true)),
        parse_line(seq!['!'] + x) == Some((seq![x], true, false, false)),
        parse_line(seq!['#'] + x) is None,
{
    lemma_split_no_slash(x);
    lemma_trim_trimmed(x);
    let ds = x + seq!['/'];
    assert(ds[0] == x[0] && ds.last() == '/');
    assert(!is_white('/'));
    lemma_trim_trimmed(ds);
    assert(ds.drop_last() =~= x);
    let ls = seq!['/'] + x;
    assert(ls[0] == '/' && ls.last() == x.last());
    lemma_trim_trimmed(ls);
    assert(ls.drop_first() =~= x);
    let ng = seq!['!'] + x;
    assert(ng[0] == '!' && ng.last() == x.last());
    assert(!is_white('!'));
    lemma_trim_trimmed(ng);
    assert(ng.drop_first() =~= x);
    let cm = seq!['#'] + x;
    assert(cm[0] == '#' && cm.last() == x.last());
    assert(!is_white('#'));
    lemma_trim_trimmed(cm);
}

/// A bare pattern with a `/` inside is anchored to the repository root, unless it starts
/// with `**/`; it neither negates nor is restricted to directories.
pub proof fn lemma_parse_line_inner_slash_anchors(x: Seq<char>)
    requires
        bare_pattern(x),
        x.contains('/'),
    ensures
        parse_line(x) is Some,
        !parse_line(x).unwrap().1,
        !parse_line(x).unwrap().2,
        parse_line(x).unwrap().3 <==> !starts_with(x, seq!['*', '*', '/']),
{
    lemma_trim_trimmed(x);
}

} // verus!
