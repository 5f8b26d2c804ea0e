//! Which prompt modules a format renders: the variables a format names, the modules that
//! `$all` stands for, and the children of the `custom` and `env_var` modules.
use vstd::prelude::*;

use starship::formatter::{StringFormatter, VariableHolder};

use crate::text::push_str;
use crate::timings::{replace_all, replace_str};

verus! {

/// The variables that a starship format string names, in starship's order; `None` for a
/// format that does not parse.
pub uninterp spec fn format_variables(format: Seq<char>) -> Option<Seq<Seq<char>>>;

/// The variables that `format` names, by calling `StringFormatter::new` and
/// `get_variables` of starship; `None` where the format does not parse.
///
/// Trusted: the result is named `format_variables(format@)`, a function of the format
/// alone.
#[verifier::external_body]
fn variables_of(format: &str) -> (r: Option<Vec<String>>)
    ensures
        match r {
            Some(v) => format_variables(format@) == Some(v@.map_values(|s: String| s@)),
            None => format_variables(format@) is None,
        },
{
    StringFormatter::new(format).ok().map(|f| f.get_variables().into_iter().collect())
}

/// The variables of a format, none where it does not parse.
pub open spec fn vars(format: Seq<char>) -> Seq<Seq<char>> {
    match format_variables(format) {
        Some(v) => v,
        None => Seq::empty(),
    }
}

/// The characters of each string.
pub open spec fn names_view(v: Seq<String>) -> Seq<Seq<char>> {
    v.map_values(|s: String| s@)
}

/// The variables a format names, as strings; none where it does not parse.
fn vars_exec(format: &str) -> (r: Vec<String>)
    ensures
        names_view(r@) == vars(format@),
{
    match variables_of(format) {
        Some(v) => v,
        None => Vec::new(),
    }
}

/// Whether `v` holds `x`.
fn contains_str(v: &Vec<String>, x: &str) -> (r: bool)
    ensures
        r == names_view(v@).contains(x@),
{
    let ghost nv = names_view(v@);
    let mut i: usize = 0;
    while i < v.len()
        invariant
            i <= v@.len(),
            nv == names_view(v@),
            forall|j: int| 0 <= j < i ==> nv[j] != x@,
        decreases v@.len() - i,
    {
        if crate::text::str_eq(v[i].as_str(), x) {
            assert(nv[i as int] == x@);
            return true;
        }
        i = i + 1;
    }
    false
}

/// A sequence with one more item holds what it held and that item.
proof fn lemma_contains_push(s: Seq<Seq<char>>, y: Seq<char>, x: Seq<char>)
    ensures
        s.push(y).contains(x) <==> (s.contains(x) || x == y),
{
    if s.contains(x) {
        let j = choose|j: int| 0 <= j < s.len() && s[j] == x;
        assert(s.push(y)[j] == x);
    }
    if x == y {
        assert(s.push(y)[s.len() as int] == x);
    }
    if s.push(y).contains(x) {
        let j = choose|j: int| 0 <= j < s.push(y).len() && s.push(y)[j] == x;
        if j < s.len() {
            assert(s[j] == x);
        }
    }
}

/// The variables named by the prompt format and by the right prompt format: the modules
/// that a format mentions explicitly.
pub fn explicit_vars(format: &str, right_format: &str) -> (r: Vec<String>)
    ensures
        forall|x: Seq<char>|
            names_view(r@).contains(x) <==> (vars(format@).contains(x) || vars(right_format@).contains(x)),
{
    let mut r = vars_exec(format);
    let right = vars_exec(right_format);
    let ghost start = names_view(r@);
    let ghost rv = names_view(right@);
    let mut i: usize = 0;
    while i < right.len()
        invariant
            i <= right@.len(),
            rv == names_view(right@),
            start == vars(format@),
            rv == vars(right_format@),
            forall|x: Seq<char>| names_view(r@).contains(x) <==> (start.contains(x) || rv.take(i as int).contains(x)),
        decreases right@.len() - i,
    {
        let ghost before = names_view(r@);
        let ghost y = rv[i as int];
        assert(right@[i as int]@ == y);
        let present = contains_str(&r, right[i].as_str());
        if !present {
            r.push(right[i].clone());
            assert(names_view(r@) =~= before.push(y));
        }
        assert(rv.take(i + 1) =~= rv.take(i as int).push(y));
        let ghost prev = rv.take(i as int);
        i = i + 1;
        proof {
            assert forall|x: Seq<char>|
                #[trigger] names_view(r@).contains(x) <==> (start.contains(x) || rv.take(i as int).contains(x)) by {
                lemma_contains_push(prev, y, x);
                lemma_contains_push(before, y, x);
                assert(before.contains(x) <==> (start.contains(x) || prev.contains(x)));
            }
        }
    }
    assert(rv.take(rv.len() as int) =~= rv);
    assert forall|x: Seq<char>|
        #[trigger] names_view(r@).contains(x) <==> (vars(format@).contains(x) || vars(right_format@).contains(x)) by {
        assert(names_view(r@).contains(x) <==> (start.contains(x) || rv.take(i as int).contains(x)));
    }
    r
}

/// `names` after meeting the variable `v`: `all` and repeats are skipped.
pub open spec fn push_var(names: Seq<Seq<char>>, v: Seq<char>) -> Seq<Seq<char>> {
    if v == "all"@ || names.contains(v) {
        names
    } else {
        names.push(v)
    }
}

/// `names` after meeting each of `vs` in turn.
pub open spec fn push_vars(names: Seq<Seq<char>>, vs: Seq<Seq<char>>) -> Seq<Seq<char>>
    decreases vs.len(),
{
    if vs.len() == 0 {
        names
    } else {
        push_var(push_vars(names, vs.drop_last()), vs.last())
    }
}

/// A child of the `custom` or `env_var` module as the config has it: its name, whether it
/// is disabled, and whether its config is a table.
pub struct ChildModule {
    pub name: String,
    pub disabled: bool,
    pub is_table: bool,
}

impl View for ChildModule {
    type V = (Seq<char>, bool, bool);

    open spec fn view(&self) -> (Seq<char>, bool, bool) {
        (self.name@, self.disabled, self.is_table)
    }
}

/// The children of module `kind` that render without being named: `kind.child` for each
/// child that the formats do not name, that is not disabled, and, for `env_var`, whose
/// config is a table.
pub open spec fn implicit_children(
    kind: Seq<char>,
    children: Seq<(Seq<char>, bool, bool)>,
    explicit: Seq<Seq<char>>,
) -> Seq<Seq<char>>
    decreases children.len(),
{
    if children.len() == 0 {
        Seq::empty()
    } else {
        let c = children.last();
        let full = kind + "."@ + c.0;
        let rest = implicit_children(kind, children.drop_last(), explicit);
        if explicit.contains(full) || c.1 || (kind == "env_var"@ && !c.2) {
            rest
        } else {
            rest.push(full)
        }
    }
}

/// The views of child modules.
pub open spec fn children_view(v: Seq<ChildModule>) -> Seq<(Seq<char>, bool, bool)> {
    v.map_values(|c: ChildModule| c@)
}

/// The children of module `kind` that render without being named, as
/// `implicit_children` states.
pub fn implicit_children_of(kind: &str, children: &Vec<ChildModule>, explicit: &Vec<String>) -> (r: Vec<String>)
    ensures
        names_view(r@) == implicit_children(kind@, children_view(children@), names_view(explicit@)),
{
    let ghost cv = children_view(children@);
    let ghost ev = names_view(explicit@);
    let env = crate::text::str_eq(kind, "env_var");
    let mut r: Vec<String> = Vec::new();
    let mut i: usize = 0;
    while i < children.len()
        invariant
            i <= children@.len(),
            cv == children_view(children@),
            ev == names_view(explicit@),
            env == (kind@ == "env_var"@),
            names_view(r@) == implicit_children(kind@, cv.take(i as int), ev),
        decreases children@.len() - i,
    {
        let c = &children[i];
        let mut full = kind.to_owned();
        push_str(&mut full, ".");
        push_str(&mut full, c.name.as_str());
        assert(cv[i as int] == c@);
        assert(cv.take(i + 1).drop_last() =~= cv.take(i as int));
        assert(cv.take(i + 1).last() == c@);
        let skip = contains_str(explicit, full.as_str()) || c.disabled || (env && !c.is_table);
        if !skip {
            let ghost before = names_view(r@);
            r.push(full);
            assert(names_view(r@) =~= before.push(kind@ + "."@ + c.name@));
        }
        i = i + 1;
    }
    assert(cv.take(cv.len() as int) =~= cv);
    r
}

/// The modules that `names` stand for: `custom` for its implicit children, `env_var` for
/// itself and its implicit children, any other name for itself.
pub open spec fn expand_names(
    names: Seq<Seq<char>>,
    custom: Seq<Seq<char>>,
    env_var: Seq<Seq<char>>,
) -> Seq<Seq<char>>
    decreases names.len(),
{
    if names.len() == 0 {
        Seq::empty()
    } else {
        let n = names.last();
        expand_names(names.drop_last(), custom, env_var) + if n == "custom"@ {
            custom
        } else if n == "env_var"@ {
            seq![n] + env_var
        } else {
            seq![n]
        }
    }
}

/// The modules to time for a prompt: the variables of the resolved format and then of the
/// right format, each once and without `all`, with `custom` and `env_var` expanded into
/// their implicit children. Whether a module is disabled is left to the caller.
pub open spec fn spec_module_names(
    resolved_format: Seq<char>,
    right_format: Seq<char>,
    custom: Seq<Seq<char>>,
    env_var: Seq<Seq<char>>,
) -> Seq<Seq<char>> {
    expand_names(
        push_vars(push_vars(Seq::empty(), vars(resolved_format)), vars(right_format)),
        custom,
        env_var,
    )
}

/// Appends each of `vs` that is not `all` and not yet in `names`.
fn push_vars_exec(names: &mut Vec<String>, vs: &Vec<String>)
    ensures
        names_view(final(names)@) == push_vars(names_view(old(names)@), names_view(vs@)),
{
    let ghost start = names_view(names@);
    let ghost vv = names_view(vs@);
    let mut i: usize = 0;
    while i < vs.len()
        invariant
            i <= vs@.len(),
            vv == names_view(vs@),
            names_view(names@) == push_vars(start, vv.take(i as int)),
        decreases vs@.len() - i,
    {
        let v = vs[i].as_str();
        assert(vv[i as int] == v@);
        assert(vv.take(i + 1).drop_last() =~= vv.take(i as int));
        let ghost before = names_view(names@);
        if !crate::text::str_eq(v, "all") && !contains_str(names, v) {
            names.push(vs[i].clone());
            assert(names_view(names@) =~= before.push(v@));
        }
        i = i + 1;
    }
    assert(vv.take(vv.len() as int) =~= vv);
}

/// The modules to time for a prompt, as `spec_module_names` states, given the implicit
/// children of `custom` and `env_var`.
pub fn module_names(
    resolved_format: &str,
    right_format: &str,
    custom: &Vec<String>,
    env_var: &Vec<String>,
) -> (r: Vec<String>)
    ensures
        names_view(r@) == spec_module_names(
            resolved_format@,
            right_format@,
            names_view(custom@),
            names_view(env_var@),
        ),
{
    let mut names: Vec<String> = Vec::new();
    let main = vars_exec(resolved_format);
    push_vars_exec(&mut names, &main);
    let right = vars_exec(right_format);
    push_vars_exec(&mut names, &right);
    let ghost nv = names_view(names@);
    let ghost cv = names_view(custom@);
    let ghost ev = names_view(env_var@);
    let mut out: Vec<String> = Vec::new();
    let mut i: usize = 0;
    while i < names.len()
        invariant
            i <= names@.len(),
            nv == names_view(names@),
            cv == names_view(custom@),
            ev == names_view(env_var@),
            names_view(out@) == expand_names(nv.take(i as int), cv, ev),
        decreases names@.len() - i,
    {
        let n = names[i].as_str();
        assert(nv[i as int] == n@);
        assert(nv.take(i + 1).drop_last() =~= nv.take(i as int));
        let ghost before = names_view(out@);
        if crate::text::str_eq(n, "custom") {
            append_all(&mut out, custom);
            assert(names_view(out@) =~= before + cv);
        } else if crate::text::str_eq(n, "env_var") {
            out.push(names[i].clone());
            assert(names_view(out@) =~= before + seq![n@]);
            let ghost mid = names_view(out@);
            append_all(&mut out, env_var);
            assert(names_view(out@) =~= before + (seq![n@] + ev));
        } else {
            out.push(names[i].clone());
            assert(names_view(out@) =~= before + seq![n@]);
        }
        i = i + 1;
    }
    assert(nv.take(nv.len() as int) =~= nv);
    out
}

/// Appends copies of `v` to `out`.
fn append_all(out: &mut Vec<String>, v: &Vec<String>)
    ensures
        names_view(final(out)@) == names_view(old(out)@) + names_view(v@),
{
    let ghost start = names_view(out@);
    let mut i: usize = 0;
    while i < v.len()
        invariant
            i <= v@.len(),
            names_view(out@) == start + names_view(v@).take(i as int),
        decreases v@.len() - i,
    {
        let ghost before = names_view(out@);
        let c = v[i].clone();
        assert(c@ == names_view(v@)[i as int]);
        out.push(c);
        assert(names_view(out@) =~= before.push(names_view(v@)[i as int]));
        assert(names_view(out@) =~= start + names_view(v@).take(i + 1));
        i = i + 1;
    }
    assert(names_view(v@).take(v@.len() as int) =~= names_view(v@));
}

/// What `$all` stands for: `${m}` for each module of starship's prompt order that the
/// formats do not name and that is not disabled.
pub open spec fn all_replacement(order: Seq<Seq<char>>, disabled: Seq<bool>, explicit: Seq<Seq<char>>) -> Seq<char>
    decreases order.len(),
{
    if order.len() == 0 || disabled.len() < order.len() {
        Seq::empty()
    } else {
        let m = order.last();
        let k = order.len() - 1;
        all_replacement(order.drop_last(), disabled, explicit) + if explicit.contains(m) || disabled[k] {
            Seq::empty()
        } else {
            "${"@ + m + "}"@
        }
    }
}

/// A format with `${all}` and `$all` replaced by what they stand for.
pub open spec fn spec_resolve_format(
    base: Seq<char>,
    order: Seq<Seq<char>>,
    disabled: Seq<bool>,
    explicit: Seq<Seq<char>>,
) -> Seq<char> {
    let rep = all_replacement(order, disabled, explicit);
    replace_all(replace_all(base, "${all}"@, rep), "$all"@, rep)
}

/// The format `base` with `$all` resolved against starship's prompt order `order`, where
/// `disabled[i]` tells whether `order[i]` is disabled in the config.
pub fn resolve_format(base: &str, order: &Vec<String>, disabled: &Vec<bool>, explicit: &Vec<String>) -> (r: String)
    requires
        disabled@.len() == order@.len(),
    ensures
        r@ == spec_resolve_format(base@, names_view(order@), disabled@, names_view(explicit@)),
{
    let ghost ov = names_view(order@);
    let ghost ev = names_view(explicit@);
    let mut rep = String::new();
    let mut i: usize = 0;
    while i < order.len()
        invariant
            i <= order@.len(),
            disabled@.len() == order@.len(),
            ov == names_view(order@),
            ev == names_view(explicit@),
            rep@ == all_replacement(ov.take(i as int), disabled@, ev),
        decreases order@.len() - i,
    {
        let m = order[i].as_str();
        assert(ov[i as int] == m@);
        assert(ov.take(i + 1).drop_last() =~= ov.take(i as int));
        let ghost before = rep@;
        if !contains_str(explicit, m) && !disabled[i] {
            push_str(&mut rep, "${");
            push_str(&mut rep, m);
            push_str(&mut rep, "}");
            assert(rep@ =~= before + ("${"@ + m@ + "}"@));
        } else {
            assert(rep@ =~= before + Seq::<char>::empty());
        }
        i = i + 1;
    }
    assert(ov.take(ov.len() as int) =~= ov);
    proof {
        reveal_strlit("${all}");
        reveal_strlit("$all");
    }
    let once = replace_str(base, "${all}", rep.as_str());
    replace_str(once.as_str(), "$all", rep.as_str())
}

/// What `$all` stands for in a rendered prompt: `$m` for each module of starship's
/// prompt order that is not excluded (named explicitly, or disabled).
pub open spec fn all_core_replacement(order: Seq<Seq<char>>, excluded: Seq<bool>) -> Seq<char>
    decreases order.len(),
{
    if order.len() == 0 || excluded.len() < order.len() {
        Seq::empty()
    } else {
        all_core_replacement(order.drop_last(), excluded) + if excluded[order.len() - 1] {
            Seq::empty()
        } else {
            "$"@ + order.last()
        }
    }
}

/// The format `base` with `${all}` and `$all` replaced by `$m` for each module of
/// `order` that `excluded` does not rule out.
pub fn expand_all_core(base: &str, order: &Vec<String>, excluded: &Vec<bool>) -> (r: String)
    requires
        excluded@.len() == order@.len(),
    ensures
        r@ == replace_all(
            replace_all(base@, "${all}"@, all_core_replacement(names_view(order@), excluded@)),
            "$all"@,
            all_core_replacement(names_view(order@), excluded@),
        ),
{
    let ghost ov = names_view(order@);
    let mut rep = String::new();
    let mut i: usize = 0;
    while i < order.len()
        invariant
            i <= order@.len(),
            excluded@.len() == order@.len(),
            ov == names_view(order@),
            rep@ == all_core_replacement(ov.take(i as int), excluded@),
        decreases order@.len() - i,
    {
        assert(ov[i as int] == order@[i as int]@);
        assert(ov.take(i + 1).drop_last() =~= ov.take(i as int));
        let ghost before = rep@;
        if !excluded[i] {
            push_str(&mut rep, "$");
            push_str(&mut rep, order[i].as_str());
            assert(rep@ =~= before + ("$"@ + ov[i as int]));
        } else {
            assert(rep@ =~= before + Seq::<char>::empty());
        }
        i = i + 1;
    }
    assert(ov.take(ov.len() as int) =~= ov);
    proof {
        reveal_strlit("${all}");
        reveal_strlit("$all");
    }
    let once = replace_str(base, "${all}", rep.as_str());
    replace_str(once.as_str(), "$all", rep.as_str())
}

} // verus!
