//! Paths compared as paths: by their components, the way `Path`'s `==` compares them, not
//! by their characters.
use vstd::prelude::*;

use crate::text::{
    chars_from, equals_at, forward_slash_chars, forward_slashes, seqs_of, split_chars, split_on,
    str_chars,
};

verus! {

/// Whether the piece at index `k` of a path split at its separators is a component: empty
/// pieces (doubled or trailing separators) are not, nor is a `.` after the first piece.
pub open spec fn is_component(p: Seq<char>, k: int) -> bool {
    p.len() > 0 && (k == 0 || p != seq!['.'])
}

/// The pieces of `parts` that are components, in order.
pub open spec fn components_of(parts: Seq<Seq<char>>) -> Seq<Seq<char>>
    decreases parts.len(),
{
    if parts.len() == 0 {
        Seq::empty()
    } else {
        let prev = components_of(parts.drop_last());
        if is_component(parts.last(), parts.len() - 1) {
            prev.push(parts.last())
        } else {
            prev
        }
    }
}

/// What a path is made of: whether it starts at a root (a leading `/` or `\`), and its
/// components with either separator.
pub open spec fn path_key(s: Seq<char>) -> (bool, Seq<Seq<char>>) {
    let f = forward_slashes(s);
    (f.len() > 0 && f[0] == '/', components_of(split_on(f, '/')))
}

/// Whether `a` and `b` name the same path: the same root and the same components, so
/// `C:\a\` is `C:/a` and `a/./b` is `a/b`.
pub open spec fn same_path(a: Seq<char>, b: Seq<char>) -> bool {
    path_key(a) == path_key(b)
}

/// The root flag and the components of `s`, as `path_key` states.
fn path_components(s: &str) -> (r: (bool, Vec<Vec<char>>))
    ensures
        r.0 == path_key(s@).0,
        seqs_of(r.1@) == path_key(s@).1,
{
    let chars = str_chars(s);
    let f = forward_slash_chars(&chars);
    let rooted = f.len() > 0 && f[0] == '/';
    let parts = split_chars(&f, '/');
    let ghost ps = seqs_of(parts@);
    let mut kept: Vec<Vec<char>> = Vec::new();
    let mut i: usize = 0;
    assert(ps.take(0) =~= Seq::<Seq<char>>::empty());
    assert(seqs_of(kept@) =~= Seq::<Seq<char>>::empty());
    while i < parts.len()
        invariant
            i <= parts@.len(),
            ps == seqs_of(parts@),
            seqs_of(kept@) == components_of(ps.take(i as int)),
        decreases parts@.len() - i,
    {
        let p = &parts[i];
        assert(ps[i as int] == p@);
        assert(ps.take(i + 1).drop_last() =~= ps.take(i as int));
        assert(ps.take(i + 1).last() == p@);
        let dot = p.len() == 1 && p[0] == '.';
        assert(dot <==> p@ == seq!['.']) by {
            if p@.len() == 1 && p@[0] == '.' {
                assert(p@ =~= seq!['.']);
            }
        }
        if p.len() > 0 && (i == 0 || !dot) {
            let c = chars_from(p, 0);
            assert(c@ =~= p@);
            let ghost before = kept@;
            kept.push(c);
            assert(seqs_of(kept@) =~= seqs_of(before).push(p@));
        }
        i = i + 1;
    }
    assert(ps.take(parts@.len() as int) =~= ps);
    (rooted, kept)
}

/// Whether `a` and `b` name the same path, as `same_path` states.
pub fn path_eq(a: &str, b: &str) -> (r: bool)
    ensures
        r == same_path(a@, b@),
{
    let (ra, ca) = path_components(a);
    let (rb, cb) = path_components(b);
    if ra != rb || ca.len() != cb.len() {
        assert(seqs_of(ca@).len() != seqs_of(cb@).len() || ra != rb);
        return false;
    }
    let mut i: usize = 0;
    while i < ca.len()
        invariant
            i <= ca@.len(),
            ca@.len() == cb@.len(),
            ra == rb,
            ra == path_key(a@).0,
            rb == path_key(b@).0,
            seqs_of(ca@) == path_key(a@).1,
            seqs_of(cb@) == path_key(b@).1,
            forall|j: int| 0 <= j < i ==> #[trigger] seqs_of(ca@)[j] == seqs_of(cb@)[j],
        decreases ca@.len() - i,
    {
        let same = equals_at(&ca[i], 0, &cb[i]);
        assert(ca[i as int]@.subrange(0, ca[i as int]@.len() as int) =~= ca[i as int]@);
        assert(seqs_of(ca@)[i as int] == ca[i as int]@);
        assert(seqs_of(cb@)[i as int] == cb[i as int]@);
        if !same {
            assert(seqs_of(ca@)[i as int] != seqs_of(cb@)[i as int]);
            assert(path_key(a@).1 != path_key(b@).1);
            return false;
        }
        i = i + 1;
    }
    assert(seqs_of(ca@) =~= seqs_of(cb@));
    true
}

/// Components joined with `/`.
pub open spec fn join_components(parts: Seq<Seq<char>>) -> Seq<char>
    decreases parts.len(),
{
    if parts.len() == 0 {
        Seq::empty()
    } else if parts.len() == 1 {
        parts[0]
    } else {
        join_components(parts.drop_last()) + seq!['/'] + parts.last()
    }
}

/// One spelling for all the spellings of a path: `/` for a root, then the components
/// joined with `/`. Paths that are the same (`same_path`) have the same spelling.
pub open spec fn spec_path_string(s: Seq<char>) -> Seq<char> {
    let k = path_key(s);
    (if k.0 {
        seq!['/']
    } else {
        Seq::<char>::empty()
    }) + join_components(k.1)
}

/// The one spelling of the path `s`, as `spec_path_string` states.
pub fn path_string(s: &str) -> (r: String)
    ensures
        r@ == spec_path_string(s@),
{
    let (rooted, comps) = path_components(s);
    let ghost cs = seqs_of(comps@);
    let mut out: Vec<char> = Vec::new();
    if rooted {
        out.push('/');
    }
    let ghost lead = out@;
    assert(lead == (if rooted { seq!['/'] } else { Seq::<char>::empty() }));
    let mut i: usize = 0;
    assert(cs.take(0) =~= Seq::<Seq<char>>::empty());
    assert(out@ =~= lead + join_components(cs.take(0)));
    while i < comps.len()
        invariant
            i <= comps@.len(),
            cs == seqs_of(comps@),
            out@ == lead + join_components(cs.take(i as int)),
        decreases comps@.len() - i,
    {
        let ghost before = out@;
        assert(cs[i as int] == comps[i as int]@);
        assert(cs.take(i + 1).drop_last() =~= cs.take(i as int));
        assert(cs.take(i + 1).last() == cs[i as int]);
        if i > 0 {
            out.push('/');
        }
        let c = &comps[i];
        let mut j: usize = 0;
        let ghost mid = out@;
        while j < c.len()
            invariant
                j <= c@.len(),
                out@ == mid + c@.take(j as int),
            decreases c@.len() - j,
        {
            out.push(c[j]);
            j = j + 1;
            assert(out@ =~= mid + c@.take(j as int));
        }
        assert(c@.take(j as int) =~= c@);
        if i == 0 {
            assert(cs.take(1) =~= seq![cs[0]]);
            assert(out@ =~= lead + join_components(cs.take(1)));
        } else {
            assert(out@ =~= lead + join_components(cs.take(i + 1)));
        }
        i = i + 1;
    }
    assert(cs.take(comps@.len() as int) =~= cs);
    crate::text::string_from_chars(&out)
}

} // verus!
