//! The client properties in the flat JSON object that earlier clients sent:
//! `{"status_code": 0, "keymap": "vi", "terminal_width": 120, "starship_config": null}`.
//!
//! The reader is lenient: it walks `"key": value` pairs separated by spaces, commas, tabs
//! and newlines, and stops quietly at the first thing that is not a pair. String values run
//! to the next quote, `null` is skipped, and anything else runs to the next comma, brace or
//! space and is read as a decimal number (a value that is not one leaves the field unset).
use vstd::prelude::*;
use vstd::utf8::{decode_utf8, valid_utf8};

use crate::text::{strip_leading, trim};

verus! {

/// Decodes `data` as UTF-8, by calling `std::str::from_utf8` of std; the text comes back
/// owned.
///
/// Trusted: the result is present exactly for valid UTF-8, and is then its decoding, as
/// std documents.
#[verifier::external_body]
fn utf8_text(data: &[u8]) -> (r: Option<String>)
    ensures
        r is Some <==> valid_utf8(data@),
        r is Some ==> r->0@ == decode_utf8(data@),
{
    std::str::from_utf8(data).ok().map(|s| s.to_owned())
}

/// The client properties of a JSON object; a field the object does not set is `None`.
pub struct ClientProps {
    pub status_code: Option<i32>,
    pub keymap: Option<String>,
    pub terminal_width: Option<usize>,
    pub starship_config: Option<String>,
}

/// The properties as plain values.
pub type PropsView = (Option<i32>, Option<Seq<char>>, Option<usize>, Option<Seq<char>>);

impl View for ClientProps {
    type V = PropsView;

    open spec fn view(&self) -> PropsView {
        (self.status_code, crate::text::opt_chars(self.keymap), self.terminal_width, crate::text::opt_chars(self.starship_config))
    }
}

/// `s` without any trailing `c`.
pub open spec fn strip_trailing(s: Seq<char>, c: char) -> Seq<char>
    decreases s.len(),
{
    if s.len() > 0 && s.last() == c {
        strip_trailing(s.drop_last(), c)
    } else {
        s
    }
}

/// The value of a run of decimal digits.
pub open spec fn digits_value(s: Seq<char>) -> int
    decreases s.len(),
{
    if s.len() == 0 {
        0
    } else {
        digits_value(s.drop_last()) * 10 + (s.last() as int - '0' as int)
    }
}

/// Every character of `s` is an ASCII digit.
pub open spec fn all_digits(s: Seq<char>) -> bool {
    forall|i: int| 0 <= i < s.len() ==> '0' <= #[trigger] s[i] <= '9'
}

/// A decimal integer with an optional sign as `str::parse::<i32>` reads it: at least one
/// digit, nothing else, and within range.
pub open spec fn spec_parse_i32(s: Seq<char>) -> Option<i32> {
    let neg = s.len() > 0 && s[0] == '-';
    let signed = s.len() > 0 && (s[0] == '-' || s[0] == '+');
    let ds = if signed {
        s.drop_first()
    } else {
        s
    };
    let v = if neg {
        -digits_value(ds)
    } else {
        digits_value(ds)
    };
    if ds.len() > 0 && all_digits(ds) && i32::MIN <= v <= i32::MAX {
        Some(v as i32)
    } else {
        None
    }
}

/// A decimal integer with an optional `+` as `str::parse::<usize>` reads it: at least one
/// digit, nothing else, and within range.
pub open spec fn spec_parse_usize(s: Seq<char>) -> Option<usize> {
    let ds = if s.len() > 0 && s[0] == '+' {
        s.drop_first()
    } else {
        s
    };
    if ds.len() > 0 && all_digits(ds) && digits_value(ds) <= usize::MAX {
        Some(digits_value(ds) as usize)
    } else {
        None
    }
}

/// Digit values never go negative, and one more digit multiplies by ten and adds it.
proof fn lemma_digits_value_push(s: Seq<char>, c: char)
    requires
        all_digits(s),
        '0' <= c <= '9',
    ensures
        digits_value(s.push(c)) == digits_value(s) * 10 + (c as int - '0' as int),
        digits_value(s) >= 0,
    decreases s.len(),
{
    assert(s.push(c).drop_last() =~= s);
    if s.len() > 0 {
        lemma_digits_value_push(s.drop_last(), s.last());
        assert(s.drop_last().push(s.last()) =~= s);
    }
}

/// Reads the magnitude of the digits `ds[from..]`, at most `limit`; `None` where a
/// character is not a digit, there is none, or the value is over `limit`.
fn parse_magnitude(ds: &Vec<char>, from: usize, limit: u64) -> (r: Option<u64>)
    requires
        from <= ds@.len(),
        limit >= 9,
    ensures
        ({
            let t = ds@.subrange(from as int, ds@.len() as int);
            match r {
                Some(v) => t.len() > 0 && all_digits(t) && v == digits_value(t) && v <= limit,
                None => !(t.len() > 0 && all_digits(t) && digits_value(t) <= limit),
            }
        }),
{
    let ghost t = ds@.subrange(from as int, ds@.len() as int);
    if from == ds.len() {
        return None;
    }
    let mut v: u64 = 0;
    let mut k = from;
    assert(ds@.subrange(from as int, from as int) =~= Seq::<char>::empty());
    while k < ds.len()
        invariant
            from <= k <= ds@.len(),
            t == ds@.subrange(from as int, ds@.len() as int),
            all_digits(ds@.subrange(from as int, k as int)),
            v == digits_value(ds@.subrange(from as int, k as int)),
            v <= limit,
            limit >= 9,
        decreases ds@.len() - k,
    {
        let c = ds[k];
        let ghost pre = ds@.subrange(from as int, k as int);
        assert(ds@.subrange(from as int, k + 1) =~= pre.push(c));
        if c < '0' || c > '9' {
            assert(t[k - from] == c);
            return None;
        }
        let d = (c as u32 - '0' as u32) as u64;
        proof {
            lemma_digits_value_push(pre, c);
        }
        if v > (limit - d) / 10 {
            proof {
                assert(v * 10 + d > limit) by (nonlinear_arith)
                    requires
                        v > (limit - d) / 10,
                        d <= 9,
                        limit >= 9,
                ;
                assert(t.take(k - from + 1) =~= pre.push(c));
                assert(all_digits(pre.push(c)));
                lemma_prefix_value_bound(t, (k - from + 1) as int);
            }
            return None;
        }
        assert(v * 10 + d <= limit) by (nonlinear_arith)
            requires
                v <= (limit - d) / 10,
                d <= limit,
        ;
        v = v * 10 + d;
        k = k + 1;
    }
    assert(ds@.subrange(from as int, k as int) =~= t);
    Some(v)
}

/// A run of digits is worth at least any of its prefixes.
proof fn lemma_prefix_value_bound(t: Seq<char>, n: int)
    requires
        0 <= n <= t.len(),
        all_digits(t.take(n)),
    ensures
        all_digits(t) ==> digits_value(t) >= digits_value(t.take(n)),
    decreases t.len() - n,
{
    if n < t.len() && all_digits(t) {
        lemma_digits_value_push(t.take(n), t[n]);
        assert(t.take(n + 1) =~= t.take(n).push(t[n]));
        lemma_prefix_value_bound(t, n + 1);
    } else if all_digits(t) {
        assert(t.take(n) =~= t);
    }
}

/// Reads a decimal `i32` as `spec_parse_i32` states.
pub fn parse_i32(s: &Vec<char>) -> (r: Option<i32>)
    ensures
        r == spec_parse_i32(s@),
{
    let neg = s.len() > 0 && s[0] == '-';
    let signed = s.len() > 0 && (s[0] == '-' || s[0] == '+');
    let from: usize = if signed {
        1
    } else {
        0
    };
    assert(s@.subrange(from as int, s@.len() as int) =~= if signed {
        s@.drop_first()
    } else {
        s@
    });
    let limit: u64 = if neg {
        2147483648
    } else {
        2147483647
    };
    match parse_magnitude(s, from, limit) {
        Some(m) => {
            if neg {
                Some((0 - (m as i64)) as i32)
            } else {
                Some(m as i32)
            }
        },
        None => None,
    }
}

/// Reads a decimal `usize` as `spec_parse_usize` states.
pub fn parse_usize(s: &Vec<char>) -> (r: Option<usize>)
    ensures
        r == spec_parse_usize(s@),
{
    let from: usize = if s.len() > 0 && s[0] == '+' {
        1
    } else {
        0
    };
    assert(s@.subrange(from as int, s@.len() as int) =~= if s@.len() > 0 && s@[0] == '+' {
        s@.drop_first()
    } else {
        s@
    });
    match parse_magnitude(s, from, usize::MAX as u64) {
        Some(m) => Some(m as usize),
        None => None,
    }
}

/// Whether `c` ends a scan of the given kind: 0 skips separators (space, comma, tab,
/// newline), 1 looks for a quote, 2 for a colon, 3 skips blanks (space, tab), 4 looks for
/// the end of a bare value (comma, closing brace, space).
pub open spec fn stops(c: char, kind: int) -> bool {
    if kind == 0 {
        !(c == ' ' || c == ',' || c == '\t' || c == '\n')
    } else if kind == 1 {
        c == '"'
    } else if kind == 2 {
        c == ':'
    } else if kind == 3 {
        !(c == ' ' || c == '\t')
    } else {
        c == ',' || c == '}' || c == ' '
    }
}

/// The first index from `from` on where a scan of `kind` stops, or the length of `s`.
pub open spec fn first_from(s: Seq<char>, from: int, kind: int) -> int
    decreases s.len() - from,
{
    if from >= s.len() {
        s.len() as int
    } else if stops(s[from], kind) {
        from
    } else {
        first_from(s, from + 1, kind)
    }
}

/// A scan stops at or after where it starts, and within the text.
pub proof fn lemma_first_from(s: Seq<char>, from: int, kind: int)
    requires
        0 <= from,
    ensures
        from <= first_from(s, from, kind) || (from > s.len() && first_from(s, from, kind) == s.len()),
        first_from(s, from, kind) <= s.len() || from > s.len(),
        first_from(s, from, kind) < s.len() ==> stops(s[first_from(s, from, kind)], kind),
    decreases s.len() - from,
{
    if from < s.len() && !stops(s[from], kind) {
        lemma_first_from(s, from + 1, kind);
    }
}

/// The properties after a string value `val` for `key`.
pub open spec fn set_text(st: PropsView, key: Seq<char>, val: Seq<char>) -> PropsView {
    if key == "keymap"@ {
        (st.0, Some(val), st.2, st.3)
    } else if key == "starship_config"@ {
        (st.0, st.1, st.2, Some(val))
    } else {
        st
    }
}

/// The properties after a bare value `val` for `key`.
pub open spec fn set_number(st: PropsView, key: Seq<char>, val: Seq<char>) -> PropsView {
    if key == "status_code"@ {
        (spec_parse_i32(val), st.1, st.2, st.3)
    } else if key == "terminal_width"@ {
        (st.0, st.1, spec_parse_usize(val), st.3)
    } else {
        st
    }
}

/// The properties read from the pairs of `s` from index `i` on, starting from `st`.
pub open spec fn scan_props(s: Seq<char>, i: int, st: PropsView) -> PropsView
    decreases s.len() + 1 - i,
{
    if i < 0 || i >= s.len() {
        st
    } else {
        let a = first_from(s, i, 0);
        if a >= s.len() || s[a] != '"' {
            st
        } else {
            let ke = first_from(s, a + 1, 1);
            if ke >= s.len() {
                st
            } else {
                let key = s.subrange(a + 1, ke);
                let colon = first_from(s, ke + 1, 2);
                if colon >= s.len() {
                    st
                } else {
                    let v0 = first_from(s, colon + 1, 3);
                    if v0 >= s.len() {
                        st
                    } else if s[v0] == '"' {
                        let ve = first_from(s, v0 + 1, 1);
                        proof {
                            lemma_first_from(s, i, 0);
                            lemma_first_from(s, a + 1, 1);
                            lemma_first_from(s, ke + 1, 2);
                            lemma_first_from(s, colon + 1, 3);
                            lemma_first_from(s, v0 + 1, 1);
                        }
                        scan_props(s, ve + 1, set_text(st, key, s.subrange(v0 + 1, ve)))
                    } else if v0 + 3 < s.len() && s.subrange(v0, v0 + 4) == "null"@ {
                        proof {
                            lemma_first_from(s, i, 0);
                            lemma_first_from(s, a + 1, 1);
                            lemma_first_from(s, ke + 1, 2);
                            lemma_first_from(s, colon + 1, 3);
                        }
                        scan_props(s, v0 + 4, st)
                    } else {
                        let ve = first_from(s, v0, 4);
                        proof {
                            lemma_first_from(s, i, 0);
                            lemma_first_from(s, a + 1, 1);
                            lemma_first_from(s, ke + 1, 2);
                            lemma_first_from(s, colon + 1, 3);
                            lemma_first_from(s, v0, 4);
                        }
                        scan_props(s, ve, set_number(st, key, s.subrange(v0, ve)))
                    }
                }
            }
        }
    }
}

/// The text that the pairs are read from: the decoded input, trimmed, without leading
/// `{` and trailing `}`.
pub open spec fn props_text(data: Seq<u8>) -> Seq<char> {
    strip_trailing(strip_leading(trim(decode_utf8(data)), '{'), '}')
}

/// The properties that `data` holds; `None` for input that is not UTF-8.
pub open spec fn spec_parse_json(data: Seq<u8>) -> Option<PropsView> {
    if valid_utf8(data) {
        Some(scan_props(props_text(data), 0, (None, None, None, None)))
    } else {
        None
    }

}

/// Where a scan of `kind` from `from` stops, as `first_from` states.
fn scan_to(s: &Vec<char>, from: usize, kind: u8) -> (k: usize)
    requires
        from <= s@.len(),
    ensures
        k == first_from(s@, from as int, kind as int),
        from <= k <= s@.len(),
{
    let mut k = from;
    while k < s.len()
        invariant
            from <= k <= s@.len(),
            first_from(s@, from as int, kind as int) == first_from(s@, k as int, kind as int),
        decreases s@.len() - k,
    {
        let c = s[k];
        let stop = if kind == 0 {
            !(c == ' ' || c == ',' || c == '\t' || c == '\n')
        } else if kind == 1 {
            c == '"'
        } else if kind == 2 {
            c == ':'
        } else if kind == 3 {
            !(c == ' ' || c == '\t')
        } else {
            c == ',' || c == '}' || c == ' '
        };
        assert(stop == stops(c, kind as int));
        if stop {
            return k;
        }
        k = k + 1;
    }
    k
}

/// The characters `s[a..b]`.
fn chars_between(s: &Vec<char>, a: usize, b: usize) -> (r: Vec<char>)
    requires
        a <= b <= s@.len(),
    ensures
        r@ == s@.subrange(a as int, b as int),
{
    let mut r: Vec<char> = Vec::new();
    let mut k = a;
    while k < b
        invariant
            a <= k <= b <= s@.len(),
            r@ == s@.subrange(a as int, k as int),
        decreases b - k,
    {
        r.push(s[k]);
        k = k + 1;
        assert(r@ =~= s@.subrange(a as int, k as int));
    }
    r
}

/// Whether `v` holds exactly the characters of `t`.
fn is_word(v: &Vec<char>, t: &str) -> (r: bool)
    ensures
        r == (v@ == t@),
{
    let w = crate::text::str_chars(t);
    let r = crate::text::equals_at(v, 0, &w);
    assert(v@.subrange(0, v@.len() as int) =~= v@);
    r
}

impl ClientProps {
    /// Takes up the string value `val` of `key`, as `set_text` states.
    fn set_text_exec(&mut self, key: &Vec<char>, val: &Vec<char>)
        ensures
            final(self)@ == set_text(old(self)@, key@, val@),
    {
        if is_word(key, "keymap") {
            self.keymap = Some(crate::text::string_from_chars(val));
        } else if is_word(key, "starship_config") {
            self.starship_config = Some(crate::text::string_from_chars(val));
        }
    }

    /// Takes up the bare value `val` of `key`, as `set_number` states.
    fn set_number_exec(&mut self, key: &Vec<char>, val: &Vec<char>)
        ensures
            final(self)@ == set_number(old(self)@, key@, val@),
    {
        if is_word(key, "status_code") {
            self.status_code = parse_i32(val);
        } else if is_word(key, "terminal_width") {
            self.terminal_width = parse_usize(val);
        }
    }

    /// Reads the client properties of a flat JSON object, as `spec_parse_json` states;
    /// `None` for input that is not UTF-8.
    pub fn parse_json(data: &[u8]) -> (r: Option<ClientProps>)
        ensures
            match r {
                Some(p) => spec_parse_json(data@) == Some(p@),
                None => spec_parse_json(data@) is None,
            },
    {
        let text = match utf8_text(data) {
            Some(t) => t,
            None => return None,
        };
        let all = crate::text::str_chars(text.as_str());
        let trimmed = crate::text::trim_chars(&all);
        let start = crate::text::skip_leading(&trimmed, '{');
        let mut end = trimmed.len();
        assert(trimmed@.subrange(start as int, end as int) =~= trimmed@.subrange(start as int, trimmed@.len() as int));
        while end > start && trimmed[end - 1] == '}'
            invariant
                start <= end <= trimmed@.len(),
                strip_trailing(trimmed@.subrange(start as int, trimmed@.len() as int), '}') == strip_trailing(
                    trimmed@.subrange(start as int, end as int),
                    '}',
                ),
            decreases end,
        {
            assert(trimmed@.subrange(start as int, end as int).drop_last() =~= trimmed@.subrange(
                start as int,
                end - 1,
            ));
            end = end - 1;
        }
        let s = chars_between(&trimmed, start, end);
        assert(s@ == props_text(data@));
        let n = s.len();
        let mut st = ClientProps { status_code: None, keymap: None, terminal_width: None, starship_config: None };
        let ghost init = st@;
        let mut i: usize = 0;
        while i < n
            invariant
                n == s@.len(),
                i <= n + 1,
                s@ == props_text(data@),
                valid_utf8(data@),
                init == (None::<i32>, None::<Seq<char>>, None::<usize>, None::<Seq<char>>),
                scan_props(s@, 0, init) == scan_props(s@, i as int, st@),
            decreases n + 1 - i,
        {
            let ghost i0 = i as int;
            let ghost st0 = st@;
            let a = scan_to(&s, i, 0);
            if a >= n || s[a] != '"' {
                return Some(st);
            }
            let ke = scan_to(&s, a + 1, 1);
            if ke >= n {
                return Some(st);
            }
            let key = chars_between(&s, a + 1, ke);
            let colon = scan_to(&s, ke + 1, 2);
            if colon >= n {
                return Some(st);
            }
            let v0 = scan_to(&s, colon + 1, 3);
            if v0 >= n {
                return Some(st);
            }
            if s[v0] == '"' {
                let ve = scan_to(&s, v0 + 1, 1);
                let val = chars_between(&s, v0 + 1, ve);
                st.set_text_exec(&key, &val);
                assert(scan_props(s@, i0, st0) == scan_props(s@, ve + 1, st@));
                if ve >= n {
                    return Some(st);
                }
                i = ve + 1;
            } else if v0 < n - 3 && crate::text::starts_with_at(&s, v0, &crate::text::str_chars("null")) {
                proof {
                    reveal_strlit("null");
                }
                assert(s@.subrange(v0 as int, n as int).subrange(0, 4) =~= s@.subrange(v0 as int, v0 + 4));
                assert(scan_props(s@, i0, st0) == scan_props(s@, v0 + 4, st@));
                i = v0 + 4;
            } else {
                proof {
                    reveal_strlit("null");
                }
                if v0 < n - 3 {
                    assert(s@.subrange(v0 as int, n as int).subrange(0, 4) =~= s@.subrange(v0 as int, v0 + 4));
                }
                let ve = scan_to(&s, v0, 4);
                let val = chars_between(&s, v0, ve);
                st.set_number_exec(&key, &val);
                assert(scan_props(s@, i0, st0) == scan_props(s@, ve as int, st@));
                i = ve;
            }
        }
        Some(st)
    }
}

} // verus!
