//! The text of the timings report: durations, padded rows, the module table, and the cut
//! that keeps a report within one response frame.
use vstd::prelude::*;
use vstd::utf8::{encode_scalar, encode_utf8};

use crate::text::{decimal, decimal_value, digit_value, lemma_decimal_reads_back, push_char, push_decimal, push_str};

verus! {

/// How a duration of `nanos` nanoseconds reads in the report: whole milliseconds, or whole
/// microseconds below one millisecond.
pub open spec fn spec_fmt_dur(nanos: u64) -> Seq<char> {
    if nanos / 1_000_000 == 0 {
        decimal((nanos / 1000) as nat) + "us"@
    } else {
        decimal((nanos / 1_000_000) as nat) + "ms"@
    }
}

/// A duration of `nanos` nanoseconds as the report shows it.
pub fn fmt_dur(nanos: u64) -> (r: String)
    ensures
        r@ == spec_fmt_dur(nanos),
{
    let ms = nanos / 1_000_000;
    let mut r = String::new();
    if ms == 0 {
        push_decimal(&mut r, nanos / 1000);
        push_str(&mut r, "us");
    } else {
        push_decimal(&mut r, ms);
        push_str(&mut r, "ms");
    }
    r
}

/// A duration of at least a millisecond reads as its whole number of milliseconds: a
/// string of digits, without a leading zero, that reads back as `nanos / 1_000_000`,
/// followed by `ms`; below a millisecond it reads as its whole number of microseconds
/// followed by `us`.
pub proof fn lemma_fmt_dur_reads_back(nanos: u64)
    ensures
        ({
            let s = spec_fmt_dur(nanos);
            let k = s.len() - 2;
            &&& s.len() >= 3
            &&& forall|i: int| 0 <= i < k ==> 0 <= #[trigger] digit_value(s[i]) <= 9
            &&& k > 1 ==> s[0] != '0'
            &&& nanos >= 1_000_000 ==> s.subrange(k, s.len() as int) == "ms"@ && decimal_value(
                s.subrange(0, k),
            ) == nanos / 1_000_000
            &&& nanos < 1_000_000 ==> s.subrange(k, s.len() as int) == "us"@ && decimal_value(
                s.subrange(0, k),
            ) == nanos / 1000
        }),
{
    let s = spec_fmt_dur(nanos);
    reveal_strlit("ms");
    reveal_strlit("us");
    let v: nat = if nanos >= 1_000_000 {
        (nanos / 1_000_000) as nat
    } else {
        (nanos / 1000) as nat
    };
    lemma_decimal_reads_back(v);
    let d = decimal(v);
    assert(s.subrange(0, d.len() as int) =~= d);
    assert forall|i: int| 0 <= i < d.len() implies 0 <= #[trigger] digit_value(s[i]) <= 9 by {
        assert(s[i] == d[i]);
    }
    assert(s[0] == d[0]);
    if nanos >= 1_000_000 {
        assert(s.subrange(d.len() as int, s.len() as int) =~= "ms"@);
    } else {
        assert(s.subrange(d.len() as int, s.len() as int) =~= "us"@);
    }
}

/// A longer duration never shows fewer milliseconds: between two durations of at least a
/// millisecond, the number read from the report grows with the duration.
pub proof fn lemma_fmt_dur_monotone(a: u64, b: u64)
    requires
        1_000_000 <= a <= b,
    ensures
        decimal_value(spec_fmt_dur(a).subrange(0, spec_fmt_dur(a).len() - 2)) <= decimal_value(
            spec_fmt_dur(b).subrange(0, spec_fmt_dur(b).len() - 2),
        ),
{
    lemma_fmt_dur_reads_back(a);
    lemma_fmt_dur_reads_back(b);
    assert(a / 1_000_000 <= b / 1_000_000) by (nonlinear_arith)
        requires
            a <= b,
    ;
}

/// `n` spaces.
pub open spec fn spaces(n: nat) -> Seq<char> {
    Seq::new(n, |i: int| ' ')
}

/// `s` padded on the right with spaces to `width` characters, as `{:<width}` formats it.
pub open spec fn pad_right(s: Seq<char>, width: nat) -> Seq<char> {
    if s.len() < width {
        s + spaces((width - s.len()) as nat)
    } else {
        s
    }
}

/// Appends `s` padded on the right with spaces to `width` characters.
fn push_padded(out: &mut String, s: &str, width: usize)
    ensures
        final(out)@ == old(out)@ + pad_right(s@, width as nat),
{
    let ghost start = out@;
    let n = crate::text::str_chars(s).len();
    push_str(out, s);
    let mut k = n;
    while k < width
        invariant
            n == s@.len(),
            n <= k <= width || (k == n && n >= width),
            out@ == start + s@ + spaces((k - n) as nat),
        decreases width - k,
    {
        push_char(out, ' ');
        k = k + 1;
        assert(out@ =~= start + s@ + spaces((k - n) as nat));
    }
    assert(out@ =~= start + pad_right(s@, width as nat));
}

/// One row of the render-path table: the label padded to 42 columns, then the duration.
pub open spec fn path_row(label: Seq<char>, nanos: u64) -> Seq<char> {
    " "@ + pad_right(label, 42) + " "@ + spec_fmt_dur(nanos) + "\n"@
}

/// The render-path table: the cold, warm and render-cache timings, one row each.
pub open spec fn spec_render_path_rows(cold: u64, warm: u64, lru: u64) -> Seq<char> {
    path_row("cold (fresh context, repo open)"@, cold) + path_row(
        "warm (context+repo cache reused)"@,
        warm,
    ) + path_row("lru (daemon render-cache hit)"@, lru)
}

fn push_path_row(out: &mut String, label: &str, nanos: u64)
    ensures
        final(out)@ == old(out)@ + path_row(label@, nanos),
{
    let ghost start = out@;
    push_str(out, " ");
    push_padded(out, label, 42);
    push_str(out, " ");
    let d = fmt_dur(nanos);
    push_str(out, d.as_str());
    push_str(out, "\n");
    assert(out@ =~= start + path_row(label@, nanos));
}

/// The render-path table for cold, warm and render-cache timings, in nanoseconds.
pub fn render_path_rows(cold: u64, warm: u64, lru: u64) -> (r: String)
    ensures
        r@ == spec_render_path_rows(cold, warm, lru),
{
    let mut rows = String::new();
    push_path_row(&mut rows, "cold (fresh context, repo open)", cold);
    push_path_row(&mut rows, "warm (context+repo cache reused)", warm);
    push_path_row(&mut rows, "lru (daemon render-cache hit)", lru);
    assert(rows@ =~= spec_render_path_rows(cold, warm, lru));
    rows
}

/// The time one module took to render, and what it rendered.
pub struct ModuleTiming {
    pub name: String,
    pub value: String,
    pub nanos: u64,
}

impl View for ModuleTiming {
    type V = (Seq<char>, Seq<char>, u64);

    open spec fn view(&self) -> (Seq<char>, Seq<char>, u64) {
        (self.name@, self.value@, self.nanos)
    }
}

/// The heading of the module table.
pub open spec fn module_table_heading() -> Seq<char> {
    "\n Here are the timings of modules in your prompt (warm repo, >=1ms or output):\n"@
}

/// One row of the module table: name, duration and quoted output.
pub open spec fn module_row(m: (Seq<char>, Seq<char>, u64)) -> Seq<char> {
    " "@ + m.0 + "  -  "@ + spec_fmt_dur(m.2) + "  -   \""@ + m.1 + "\"\n"@
}

/// The rows of the module table for `ms`, in order.
pub open spec fn module_rows(ms: Seq<(Seq<char>, Seq<char>, u64)>) -> Seq<char>
    decreases ms.len(),
{
    if ms.len() == 0 {
        Seq::empty()
    } else {
        module_rows(ms.drop_last()) + module_row(ms.last())
    }
}

/// The views of the timings `ms`.
pub open spec fn timings_view(ms: Seq<ModuleTiming>) -> Seq<(Seq<char>, Seq<char>, u64)> {
    ms.map_values(|m: ModuleTiming| m@)
}

/// The module table: the heading, then one row per module in the order given.
pub fn module_table_rows(mods: Vec<ModuleTiming>) -> (r: String)
    ensures
        r@ == module_table_heading() + module_rows(timings_view(mods@)),
{
    let mut rows = String::new();
    push_str(&mut rows, "\n Here are the timings of modules in your prompt (warm repo, >=1ms or output):\n");
    let ghost tv = timings_view(mods@);
    let mut i: usize = 0;
    while i < mods.len()
        invariant
            i <= mods@.len(),
            tv == timings_view(mods@),
            rows@ == module_table_heading() + module_rows(tv.take(i as int)),
        decreases mods@.len() - i,
    {
        let m = &mods[i];
        let ghost before = rows@;
        push_str(&mut rows, " ");
        push_str(&mut rows, m.name.as_str());
        push_str(&mut rows, "  -  ");
        let d = fmt_dur(m.nanos);
        push_str(&mut rows, d.as_str());
        push_str(&mut rows, "  -   \"");
        push_str(&mut rows, m.value.as_str());
        push_str(&mut rows, "\"\n");
        assert(tv.take(i + 1).drop_last() =~= tv.take(i as int));
        assert(tv[i as int] == m@);
        assert(rows@ =~= before + module_row(m@));
        i = i + 1;
    }
    assert(tv.take(mods@.len() as int) =~= tv);
    rows
}

/// A module timing as plain values: name, output, nanoseconds.
pub type TimingView = (Seq<char>, Seq<char>, u64);

/// The timings that took exactly `d` nanoseconds.
pub open spec fn took(d: u64) -> spec_fn(TimingView) -> bool {
    |m: TimingView| m.2 == d
}

/// Slowest first.
pub open spec fn slowest_first(s: Seq<TimingView>) -> bool {
    forall|i: int, j: int| 0 <= i < j < s.len() ==> #[trigger] s[i].2 >= #[trigger] s[j].2
}

/// A filter keeps nothing of a sequence none of whose items it accepts.
proof fn lemma_filter_none(s: Seq<TimingView>, p: spec_fn(TimingView) -> bool)
    requires
        forall|i: int| 0 <= i < s.len() ==> !p(#[trigger] s[i]),
    ensures
        s.filter(p) == Seq::<TimingView>::empty(),
    decreases s.len(),
{
    reveal(Seq::filter);
    if s.len() > 0 {
        lemma_filter_none(s.drop_last(), p);
    }
    assert(s.filter(p) =~= Seq::<TimingView>::empty());
}

/// Filtering a sequence with one more item at the end.
proof fn lemma_filter_push(s: Seq<TimingView>, x: TimingView, p: spec_fn(TimingView) -> bool)
    ensures
        s.push(x).filter(p) == if p(x) {
            s.filter(p).push(x)
        } else {
            s.filter(p)
        },
{
    reveal(Seq::filter);
    assert(s.push(x).drop_last() =~= s);
}

/// Inserting `x` into a slowest-first sequence right before the first faster item keeps
/// it slowest first, and adds `x` after every item that took as long.
proof fn lemma_insert_slowest_first(s: Seq<TimingView>, p: int, x: TimingView)
    requires
        slowest_first(s),
        0 <= p <= s.len(),
        forall|i: int| 0 <= i < p ==> #[trigger] s[i].2 >= x.2,
        p < s.len() ==> s[p].2 < x.2,
    ensures
        slowest_first(s.insert(p, x)),
        forall|d: u64| #[trigger] s.insert(p, x).filter(took(d)) == if d == x.2 {
            s.filter(took(d)).push(x)
        } else {
            s.filter(took(d))
        },
{
    let r = s.insert(p, x);
    assert forall|i: int, j: int| 0 <= i < j < r.len() implies #[trigger] r[i].2 >= #[trigger] r[j].2 by {
        if j < p {
        } else if j == p {
        } else if i < p {
            assert(r[j] == s[j - 1]);
        } else if i == p {
            assert(r[j] == s[j - 1]);
            assert(s[p].2 >= s[j - 1].2);
        } else {
            assert(r[i] == s[i - 1] && r[j] == s[j - 1]);
        }
    }
    assert forall|d: u64| #[trigger] r.filter(took(d)) == if d == x.2 {
        s.filter(took(d)).push(x)
    } else {
        s.filter(took(d))
    } by {
        let a = s.subrange(0, p);
        let b = s.subrange(p, s.len() as int);
        assert(r =~= a.push(x) + b);
        assert(s =~= a + b);
        Seq::filter_distributes_over_add(a.push(x), b, took(d));
        Seq::filter_distributes_over_add(a, b, took(d));
        lemma_filter_push(a, x, took(d));
        if d == x.2 {
            assert forall|i: int| 0 <= i < b.len() implies !took(d)(#[trigger] b[i]) by {
                assert(b[i] == s[p + i]);
                if i > 0 {
                    assert(s[p].2 >= s[p + i].2);
                }
            }
            lemma_filter_none(b, took(d));
            assert(b.filter(took(d)) =~= Seq::<TimingView>::empty());
            assert(a.filter(took(d)) + b.filter(took(d)) =~= a.filter(took(d)));
            assert(a.filter(took(d)).push(x) + b.filter(took(d)) =~= a.filter(took(d)).push(x));
        }
    }
}

/// The timings slowest first; timings that took as long keep their order.
pub fn sort_slowest_first(mods: Vec<ModuleTiming>) -> (r: Vec<ModuleTiming>)
    ensures
        r@.len() == mods@.len(),
        slowest_first(timings_view(r@)),
        forall|d: u64| #[trigger] timings_view(r@).filter(took(d)) == timings_view(mods@).filter(took(d)),
{
    let ghost orig = timings_view(mods@);
    let n = mods.len();
    assert(orig.len() == n);
    let mut rest = mods;
    let mut r: Vec<ModuleTiming> = Vec::new();
    let mut k: usize = 0;
    proof {
        reveal(Seq::filter);
    }
    assert(orig.take(0) =~= Seq::<TimingView>::empty());
    while rest.len() > 0
        invariant
            k <= orig.len(),
            orig.len() <= usize::MAX,
            timings_view(rest@) == orig.skip(k as int),
            r@.len() == k,
            slowest_first(timings_view(r@)),
            forall|d: u64| #[trigger] timings_view(r@).filter(took(d)) == orig.take(k as int).filter(took(d)),
        decreases rest@.len(),
    {
        let ghost before = rest@;
        assert(timings_view(before).len() == before.len());
        let x = rest.remove(0);
        assert(timings_view(before)[0] == before[0]@);
        assert(orig.skip(k as int)[0] == orig[k as int]);
        assert(x@ == orig[k as int]);
        assert forall|i: int| 0 <= i < rest@.len() implies #[trigger] timings_view(rest@)[i] == orig.skip(k + 1)[i] by {
            assert(rest@[i] == before[i + 1]);
            assert(timings_view(before)[i + 1] == before[i + 1]@);
            assert(orig.skip(k as int)[i + 1] == orig[k + 1 + i]);
        }
        assert(timings_view(rest@) =~= orig.skip(k + 1));
        let ghost rv = timings_view(r@);
        let mut p: usize = 0;
        while p < r.len() && r[p].nanos >= x.nanos
            invariant
                p <= r@.len(),
                rv == timings_view(r@),
                forall|i: int| 0 <= i < p ==> #[trigger] rv[i].2 >= x@.2,
            decreases r@.len() - p,
        {
            assert(rv[p as int] == r@[p as int]@);
            p = p + 1;
        }
        proof {
            if p < r@.len() {
                assert(rv[p as int] == r@[p as int]@);
            }
            lemma_insert_slowest_first(rv, p as int, x@);
            assert(orig.take(k + 1) =~= orig.take(k as int).push(x@));
            assert forall|d: u64| #[trigger] orig.take(k + 1).filter(took(d)) == if d == x@.2 {
                orig.take(k as int).filter(took(d)).push(x@)
            } else {
                orig.take(k as int).filter(took(d))
            } by {
                lemma_filter_push(orig.take(k as int), x@, took(d));
            }
        }
        let ghost xv = x@;
        r.insert(p, x);
        assert(timings_view(r@) =~= rv.insert(p as int, xv));
        k = k + 1;
    }
    assert(orig.take(k as int) =~= orig);
    r
}

/// `s` with every newline written as the two characters `\\n`, so that a module's output
/// stays on its row.
pub open spec fn escape_newlines(s: Seq<char>) -> Seq<char>
    decreases s.len(),
{
    if s.len() == 0 {
        s
    } else {
        escape_newlines(s.drop_last()) + if s.last() == '\n' {
            seq!['\\', 'n']
        } else {
            seq![s.last()]
        }
    }
}

/// `s` with its newlines escaped.
pub fn escape_newlines_str(s: &str) -> (r: String)
    ensures
        r@ == escape_newlines(s@),
{
    let chars = crate::text::str_chars(s);
    let mut r = String::new();
    let mut i: usize = 0;
    while i < chars.len()
        invariant
            i <= chars@.len(),
            chars@ == s@,
            r@ == escape_newlines(chars@.take(i as int)),
        decreases chars@.len() - i,
    {
        let ghost before = r@;
        if chars[i] == '\n' {
            push_char(&mut r, '\\');
            push_char(&mut r, 'n');
        } else {
            push_char(&mut r, chars[i]);
        }
        assert(chars@.take(i + 1).drop_last() =~= chars@.take(i as int));
        assert(r@ =~= escape_newlines(chars@.take(i + 1)));
        i = i + 1;
    }
    assert(chars@.take(chars@.len() as int) =~= chars@);
    r
}

/// The row that a module's render makes in the table: one that rendered output, or took at
/// least a millisecond, is kept with its output escaped; one that rendered nothing, or
/// nothing in under a millisecond, is left out.
pub open spec fn spec_module_row(name: Seq<char>, value: Option<Seq<char>>, nanos: u64) -> Option<TimingView> {
    match value {
        Some(v) => if v.len() > 0 || nanos / 1_000_000 > 0 {
            Some((name, escape_newlines(v), nanos))
        } else {
            None
        },
        None => None,
    }
}

/// The row for module `name`, which rendered `value` in `nanos` nanoseconds.
pub fn module_timing(name: String, value: Option<String>, nanos: u64) -> (r: Option<ModuleTiming>)
    ensures
        match r {
            Some(m) => spec_module_row(name@, crate::text::opt_chars(value), nanos) == Some(m@),
            None => spec_module_row(name@, crate::text::opt_chars(value), nanos) is None,
        },
{
    match value {
        Some(v) => {
            if !v.as_str().is_empty() || nanos / 1_000_000 > 0 {
                Some(ModuleTiming { name, value: escape_newlines_str(v.as_str()), nanos })
            } else {
                None
            }
        },
        None => None,
    }
}

/// The report's opening lines: the directory and whether the render cache had the prompt.
pub open spec fn report_heading(cwd: Seq<char>, hit: bool) -> Seq<char> {
    "\n Render path timing (cwd = "@ + cwd + "):\n cache: "@ + (if hit {
        "HIT"@
    } else {
        "MISS"@
    }) + "\n"@
}

/// The whole timings report before it is cut to fit a response frame.
pub open spec fn spec_report(
    cwd: Seq<char>,
    hit: bool,
    cold: u64,
    warm: u64,
    lru: u64,
    mods: Seq<TimingView>,
) -> Seq<char> {
    report_heading(cwd, hit) + spec_render_path_rows(cold, warm, lru) + module_table_heading()
        + module_rows(mods)
}

/// The timings report for `cwd`: whether the render cache had the prompt, the cold, warm
/// and cached render times, and the module table; cut at a character boundary to fit in
/// one response frame.
pub fn assemble_report(cwd: &str, hit: bool, cold: u64, warm: u64, lru: u64, mods: Vec<ModuleTiming>) -> (r: String)
    ensures
        is_utf8_prefix_within(spec_report(cwd@, hit, cold, warm, lru, timings_view(mods@)), crate::protocol::MAX_TOTAL_LEN as nat, r@),
{
    let ghost tv = timings_view(mods@);
    let mut report = String::new();
    push_str(&mut report, "\n Render path timing (cwd = ");
    push_str(&mut report, cwd);
    push_str(&mut report, "):\n cache: ");
    push_str(&mut report, if hit { "HIT" } else { "MISS" });
    push_str(&mut report, "\n");
    let rows = render_path_rows(cold, warm, lru);
    push_str(&mut report, rows.as_str());
    let table = module_table_rows(mods);
    push_str(&mut report, table.as_str());
    assert(report@ =~= spec_report(cwd@, hit, cold, warm, lru, tv));
    truncate_utf8(report.as_str(), crate::protocol::MAX_TOTAL_LEN)
}

/// `s` with every occurrence of the non-empty `pat` replaced by `rep`, scanning from the
/// left without overlaps, as `str::replace` does.
pub open spec fn replace_all(s: Seq<char>, pat: Seq<char>, rep: Seq<char>) -> Seq<char>
    decreases s.len(),
{
    if pat.len() == 0 || s.len() < pat.len() {
        s
    } else if s.take(pat.len() as int) == pat {
        rep + replace_all(s.skip(pat.len() as int), pat, rep)
    } else {
        seq![s[0]] + replace_all(s.drop_first(), pat, rep)
    }
}

/// `s` with every occurrence of the non-empty `pat` replaced by `rep`.
pub fn replace_str(s: &str, pat: &str, rep: &str) -> (r: String)
    requires
        pat@.len() > 0,
    ensures
        r@ == replace_all(s@, pat@, rep@),
{
    let chars = crate::text::str_chars(s);
    let pchars = crate::text::str_chars(pat);
    let n = chars.len();
    let m = pchars.len();
    let mut out = String::new();
    let mut i: usize = 0;
    assert(chars@.skip(0) =~= chars@);
    while i < n
        invariant
            i <= n,
            n == chars@.len(),
            m == pchars@.len(),
            m > 0,
            chars@ == s@,
            pchars@ == pat@,
            out@ + replace_all(chars@.skip(i as int), pat@, rep@) == replace_all(s@, pat@, rep@),
        decreases n - i,
    {
        let ghost t = chars@.skip(i as int);
        assert(t.len() == n - i);
        if m <= n - i && crate::text::starts_with_at(&chars, i, &pchars) {
            assert(chars@.subrange(i as int, n as int) =~= t);
            assert(t.take(m as int) =~= t.subrange(0, m as int));
            assert(t.skip(m as int) =~= chars@.skip(i + m));
            push_str(&mut out, rep);
            i = i + m;
            assert(out@ + replace_all(chars@.skip(i as int), pat@, rep@) == replace_all(s@, pat@, rep@));
        } else {
            if m <= n - i {
                assert(chars@.subrange(i as int, n as int) =~= t);
                assert(t.take(m as int) =~= t.subrange(0, m as int));
            }
            let c = chars[i];
            assert(t[0] == c);
            assert(t.drop_first() =~= chars@.skip(i + 1));
            let ghost before = out@;
            push_char(&mut out, c);
            i = i + 1;
            if m <= n - (i - 1) {
                assert(replace_all(t, pat@, rep@) == seq![c] + replace_all(t.drop_first(), pat@, rep@));
            } else {
                assert(replace_all(t, pat@, rep@) == t);
                assert(replace_all(t.drop_first(), pat@, rep@) == t.drop_first());
                assert(t =~= seq![c] + t.drop_first());
            }
            assert(out@ =~= before + seq![c]);
        }
    }
    assert(chars@.skip(n as int) =~= Seq::<char>::empty());
    assert(replace_all(Seq::<char>::empty(), pat@, rep@) == Seq::<char>::empty());
    assert(out@ =~= out@ + Seq::<char>::empty());
    out
}

/// The number of bytes that `c` takes in UTF-8.
fn utf8_width(c: char) -> (w: usize)
    ensures
        w == encode_scalar(c as u32).len(),
        1 <= w <= 4,
{
    broadcast use vstd::utf8::char_is_scalar;
    let v = c as u32;
    if v <= 0x7f {
        1
    } else if v <= 0x7ff {
        2
    } else if v <= 0xffff {
        3
    } else {
        4
    }
}

/// The UTF-8 encoding of two runs of characters is the encoding of the first followed by
/// that of the second.
proof fn lemma_encode_utf8_concat(a: Seq<char>, b: Seq<char>)
    ensures
        encode_utf8(a + b) == encode_utf8(a) + encode_utf8(b),
    decreases a.len(),
{
    if a.len() > 0 {
        assert((a + b).drop_first() =~= a.drop_first() + b);
        lemma_encode_utf8_concat(a.drop_first(), b);
        assert(encode_utf8(a + b) =~= encode_scalar(a[0] as u32) + encode_utf8(a.drop_first() + b));
    } else {
        assert(a + b =~= b);
    }
}

/// Encoding one more character adds that character's bytes.
proof fn lemma_encode_utf8_push(s: Seq<char>, n: int)
    requires
        0 <= n < s.len(),
    ensures
        encode_utf8(s.take(n + 1)).len() == encode_utf8(s.take(n)).len() + encode_scalar(s[n] as u32).len(),
{
    let one = seq![s[n]];
    assert(s.take(n + 1) =~= s.take(n) + one);
    lemma_encode_utf8_concat(s.take(n), one);
    assert(one.drop_first() =~= Seq::<char>::empty());
    assert(encode_utf8(one.drop_first()) =~= Seq::<u8>::empty());
    assert(encode_utf8(one) =~= encode_scalar(one[0] as u32) + encode_utf8(one.drop_first()));
}

/// `r` is `s` cut to at most `cap` bytes of UTF-8 at a character boundary, keeping as many
/// characters as fit.
pub open spec fn is_utf8_prefix_within(s: Seq<char>, cap: nat, r: Seq<char>) -> bool {
    exists|n: int|
        0 <= n <= s.len() && r == s.take(n) && encode_utf8(s.take(n)).len() <= cap && (n < s.len()
            ==> encode_utf8(#[trigger] s.take(n + 1)).len() > cap)
}

/// `s` cut to at most `cap` bytes, at a character boundary; a string that fits is kept whole.
pub fn truncate_utf8(s: &str, cap: usize) -> (r: String)
    ensures
        is_utf8_prefix_within(s@, cap as nat, r@),
        encode_utf8(s@).len() <= cap ==> r@ == s@,
{
    let chars = crate::text::str_chars(s);
    let mut out = String::new();
    let mut used: usize = 0;
    let mut n: usize = 0;
    assert(chars@.take(0) =~= Seq::<char>::empty());
    while n < chars.len()
        invariant_except_break
            n <= chars@.len(),
            chars@ == s@,
            used == encode_utf8(chars@.take(n as int)).len(),
            used <= cap,
            out@ == chars@.take(n as int),
        ensures
            n <= chars@.len(),
            chars@ == s@,
            used <= cap,
            used == encode_utf8(chars@.take(n as int)).len(),
            out@ == chars@.take(n as int),
            n < chars@.len() ==> encode_utf8(chars@.take(n + 1)).len() > cap,
        decreases chars@.len() - n,
    {
        let w = utf8_width(chars[n]);
        proof {
            lemma_encode_utf8_push(chars@, n as int);
        }
        if w > cap - used {
            break;
        }
        push_char(&mut out, chars[n]);
        used = used + w;
        n = n + 1;
        assert(out@ =~= chars@.take(n as int));
    }
    assert(chars@.take(chars@.len() as int) =~= chars@);
    if n == chars.len() {
        assert(out@ =~= s@);
    }
    let ghost nn = n as int;
    assert(encode_utf8(s@.take(nn + 1)).len() == encode_utf8(s@.take(nn + 1)).len());
    assert(0 <= nn <= s@.len());
    assert(out@ == s@.take(nn));
    assert(encode_utf8(s@.take(nn)).len() <= cap);
    assert(nn < s@.len() ==> encode_utf8(s@.take(nn + 1)).len() > cap);
    assert(is_utf8_prefix_within(s@, cap as nat, out@));
    proof {
        if encode_utf8(s@).len() <= cap && n < chars@.len() {
            lemma_encode_utf8_concat(chars@.take(n + 1), chars@.skip(n + 1));
            assert(chars@.take(n + 1) + chars@.skip(n + 1) =~= chars@);
        }
    }
    out
}

} // verus!
