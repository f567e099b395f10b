//! The numbers of def files, read as text. A def names vectors inline, as
//! `(x, y, z)`, or as `x`/`y`/`z` child elements, and colours as three or
//! four numbers. The library decides which texts are well-formed numbers,
//! by the grammar of Rust's float parsing, and keeps their text; turning
//! the text into a float is left to the caller.
use vstd::prelude::*;

use crate::text::{
    chars_of, is_white, is_white_char, lower, string_of, trim, trim_chars, trim_end_by, trim_start_by,
};

verus! {

broadcast use vstd::string::group_string_axioms;

/// An ASCII digit.
pub open spec fn is_digit(c: char) -> bool {
    '0' <= c && c <= '9'
}

pub open spec fn all_digits(s: Seq<char>) -> bool {
    forall|k: int| 0 <= k < s.len() ==> is_digit(#[trigger] s[k])
}

/// `s` without one leading `+` or `-`.
pub open spec fn unsigned(s: Seq<char>) -> Seq<char> {
    if s.len() > 0 && (s[0] == '+' || s[0] == '-') {
        s.drop_first()
    } else {
        s
    }
}

/// Where the first character satisfying `f` is, or the length.
pub open spec fn first_at(s: Seq<char>, f: spec_fn(char) -> bool) -> int
    decreases s.len(),
{
    if s.len() == 0 {
        0
    } else if f(s[0]) {
        0
    } else {
        1 + first_at(s.drop_first(), f)
    }
}

pub open spec fn is_exp_mark(c: char) -> bool {
    c == 'e' || c == 'E'
}

/// Digits with at most one `.` among them, and at least one digit.
pub open spec fn mantissa(m: Seq<char>) -> bool {
    let d = first_at(m, |c: char| c == '.');
    if d >= m.len() {
        m.len() > 0 && all_digits(m)
    } else {
        m.len() > 1 && all_digits(m.take(d)) && all_digits(m.skip(d + 1))
    }
}

/// A mantissa, then optionally `e` or `E`, an optional sign and digits.
pub open spec fn decimal_number(s: Seq<char>) -> bool {
    let e = first_at(s, |c: char| is_exp_mark(c));
    mantissa(s.take(e)) && (e >= s.len() || {
        let x = unsigned(s.skip(e + 1));
        x.len() > 0 && all_digits(x)
    })
}

/// A text that Rust's float parsing accepts, by the grammar its
/// documentation gives: an optional sign, then `inf`, `infinity` or `nan`
/// in any ASCII case, or a decimal number with an optional exponent. No
/// whitespace is allowed.
pub open spec fn float_text(s: Seq<char>) -> bool {
    let u = unsigned(s);
    ||| lower(u) == "inf"@
    ||| lower(u) == "infinity"@
    ||| lower(u) == "nan"@
    ||| decimal_number(u)
}

pub proof fn lemma_first_at(s: Seq<char>, f: spec_fn(char) -> bool, k: int)
    requires
        0 <= k <= s.len(),
        forall|j: int| 0 <= j < k ==> !f(#[trigger] s[j]),
        k == s.len() || f(s[k]),
    ensures
        first_at(s, f) == k,
    decreases k,
{
    if k > 0 {
        let t = s.drop_first();
        assert forall|j: int| 0 <= j < k - 1 implies !f(#[trigger] t[j]) by {
            assert(t[j] == s[j + 1]);
        }
        if k < s.len() {
            assert(t[k - 1] == s[k]);
        }
        lemma_first_at(t, f, k - 1);
    }
}

fn digits_between(s: &Vec<char>, a: usize, b: usize) -> (r: bool)
    requires
        a <= b <= s@.len(),
    ensures
        r == all_digits(s@.subrange(a as int, b as int)),
{
    let mut i: usize = a;
    while i < b
        invariant
            a <= i <= b <= s@.len(),
            forall|k: int| a <= k < i ==> is_digit(#[trigger] s@[k]),
        decreases b - i,
    {
        if !('0' <= s[i] && s[i] <= '9') {
            proof {
                assert(s@.subrange(a as int, b as int)[i - a] == s@[i as int]);
            }
            return false;
        }
        i += 1;
    }
    proof {
        assert forall|k: int| 0 <= k < b - a implies is_digit(#[trigger] s@.subrange(a as int, b as int)[k]) by {
            assert(s@.subrange(a as int, b as int)[k] == s@[k + a]);
        }
    }
    true
}

fn mantissa_between(s: &Vec<char>, a: usize, b: usize) -> (r: bool)
    requires
        a <= b <= s@.len(),
    ensures
        r == mantissa(s@.subrange(a as int, b as int)),
{
    let ghost m = s@.subrange(a as int, b as int);
    let ghost f = |c: char| c == '.';
    let mut d: usize = a;
    while d < b && s[d] != '.'
        invariant
            a <= d <= b <= s@.len(),
            m == s@.subrange(a as int, b as int),
            forall|k: int| a <= k < d ==> s@[k] != '.',
        decreases b - d,
    {
        d += 1;
    }
    proof {
        assert forall|j: int| 0 <= j < d - a implies !f(#[trigger] m[j]) by {
            assert(m[j] == s@[j + a]);
        }
        if d < b {
            assert(m[d - a] == s@[d as int]);
        }
        lemma_first_at(m, f, d - a);
    }
    if d == b {
        b > a && digits_between(s, a, b)
    } else {
        proof {
            assert(m.take(d - a) =~= s@.subrange(a as int, d as int));
            assert(m.skip(d - a + 1) =~= s@.subrange(d + 1, b as int));
        }
        b - a > 1 && digits_between(s, a, d) && digits_between(s, d + 1, b)
    }
}

fn decimal_number_of(u: &Vec<char>) -> (r: bool)
    ensures
        r == decimal_number(u@),
{
    let ghost f = |c: char| is_exp_mark(c);
    let mut e: usize = 0;
    while e < u.len() && u[e] != 'e' && u[e] != 'E'
        invariant
            e <= u@.len(),
            forall|k: int| 0 <= k < e ==> !is_exp_mark(#[trigger] u@[k]),
        decreases u.len() - e,
    {
        e += 1;
    }
    proof {
        assert forall|j: int| 0 <= j < e implies !f(#[trigger] u@[j]) by {}
        lemma_first_at(u@, f, e as int);
        assert(u@.take(e as int) =~= u@.subrange(0, e as int));
    }
    if !mantissa_between(u, 0, e) {
        return false;
    }
    if e == u.len() {
        return true;
    }
    let mut x: usize = e + 1;
    if x < u.len() && (u[x] == '+' || u[x] == '-') {
        x += 1;
    }
    proof {
        let t = u@.skip(e + 1);
        if e + 1 < u@.len() && (u@[e + 1] == '+' || u@[e + 1] == '-') {
            assert(t[0] == u@[e + 1]);
            assert(unsigned(t) =~= u@.subrange(x as int, u@.len() as int));
        } else {
            if t.len() > 0 {
                assert(t[0] == u@[e + 1]);
            }
            assert(unsigned(t) =~= u@.subrange(x as int, u@.len() as int));
        }
    }
    x < u.len() && digits_between(u, x, u.len())
}

/// Whether Rust's float parsing accepts the text.
pub fn is_float_text(s: &str) -> (r: bool)
    ensures
        r == float_text(s@),
{
    let c = chars_of(s);
    let start: usize = if c.len() > 0 && (c[0] == '+' || c[0] == '-') { 1 } else { 0 };
    let mut u: Vec<char> = Vec::new();
    let mut i: usize = start;
    while i < c.len()
        invariant
            start <= i <= c@.len(),
            u@ == c@.subrange(start as int, i as int),
        decreases c.len() - i,
    {
        u.push(c[i]);
        proof {
            assert(c@.subrange(start as int, i + 1) =~= c@.subrange(start as int, i as int).push(c@[i as int]));
        }
        i += 1;
    }
    proof {
        assert(u@ =~= unsigned(s@));
    }
    let low = crate::text::lower_chars(u.as_slice());
    if crate::text::chars_eq(low.as_slice(), chars_of("inf").as_slice())
        || crate::text::chars_eq(low.as_slice(), chars_of("infinity").as_slice())
        || crate::text::chars_eq(low.as_slice(), chars_of("nan").as_slice())
    {
        return true;
    }
    decimal_number_of(&u)
}

/// `str::split(sep)`: the pieces between separators, empty ones included.
pub open spec fn split_on(s: Seq<char>, sep: char) -> Seq<Seq<char>>
    decreases s.len(),
{
    if s.len() == 0 {
        seq![Seq::<char>::empty()]
    } else {
        let p = split_on(s.drop_last(), sep);
        if s.last() == sep {
            p.push(Seq::<char>::empty())
        } else {
            p.update(p.len() - 1, p.last().push(s.last()))
        }
    }
}

/// The text between the brackets of an inline vector: trimmed, then every
/// leading `(` and trailing `)` removed.
pub open spec fn unbracketed(input: Seq<char>) -> Seq<char> {
    trim_end_by(trim_start_by(trim(input), |c: char| c == '('), |c: char| c == ')')
}

/// The trimmed, comma-separated parts of an inline vector.
pub open spec fn inline_parts(input: Seq<char>) -> Seq<Seq<char>> {
    split_on(unbracketed(input), ',').map_values(|p: Seq<char>| trim(p))
}

/// The first `n` parts of an inline vector, when it has that many and each
/// is a number.
pub open spec fn inline_vector(input: Seq<char>, n: int) -> Option<Seq<Seq<char>>> {
    let parts = inline_parts(input);
    if parts.len() >= n && forall|k: int| 0 <= k < n ==> float_text(#[trigger] parts[k]) {
        Some(parts.take(n))
    } else {
        None
    }
}

pub open spec fn strings_view(v: Seq<String>) -> Seq<Seq<char>> {
    v.map_values(|s: String| s@)
}

fn unbracket_chars(input: &str) -> (r: Vec<char>)
    ensures
        r@ == unbracketed(input@),
{
    let t = trim_chars(chars_of(input).as_slice());
    let ghost open_f = |c: char| c == '(';
    let ghost close_f = |c: char| c == ')';
    let mut a: usize = 0;
    while a < t.len() && t[a] == '('
        invariant
            a <= t@.len(),
            forall|j: int| 0 <= j < a ==> t@[j] == '(',
        decreases t.len() - a,
    {
        a += 1;
    }
    proof {
        assert forall|j: int| 0 <= j < a implies open_f(#[trigger] t@[j]) by {}
        crate::text::lemma_trim_start(t@, open_f, a as int);
    }
    let ghost u = t@.skip(a as int);
    let mut b: usize = t.len();
    while b > a && t[b - 1] == ')'
        invariant
            a <= b <= t@.len(),
            u == t@.skip(a as int),
            forall|j: int| b <= j < t@.len() ==> t@[j] == ')',
        decreases b - a,
    {
        b -= 1;
    }
    proof {
        assert forall|j: int| (b - a) <= j < u.len() implies close_f(#[trigger] u[j]) by {
            assert(u[j] == t@[j + a]);
        }
        if b > a {
            assert(u[b - a - 1] == t@[b - 1]);
        }
        crate::text::lemma_trim_end(u, close_f, (b - a) as int);
    }
    let mut out: Vec<char> = Vec::new();
    let mut i: usize = a;
    while i < b
        invariant
            a <= i <= b,
            b <= t@.len(),
            out@ == t@.subrange(a as int, i as int),
        decreases b - i,
    {
        out.push(t[i]);
        proof {
            assert(t@.subrange(a as int, i + 1) == t@.subrange(a as int, i as int).push(t@[i as int]));
        }
        i += 1;
    }
    proof {
        assert(out@ =~= u.take((b - a) as int));
    }
    out
}

/// The trimmed, comma-separated parts of an inline vector.
pub fn inline_parts_of(input: &str) -> (r: Vec<String>)
    ensures
        strings_view(r@) == inline_parts(input@),
{
    let s = unbracket_chars(input);
    let mut parts: Vec<Vec<char>> = Vec::new();
    parts.push(Vec::new());
    let ghost mut pv: Seq<Seq<char>> = seq![Seq::<char>::empty()];
    let mut i: usize = 0;
    proof {
        assert(s@.take(0) =~= Seq::<char>::empty());
    }
    while i < s.len()
        invariant
            i <= s@.len(),
            parts@.len() >= 1,
            pv == split_on(s@.take(i as int), ','),
            pv.len() == parts@.len(),
            forall|k: int| 0 <= k < pv.len() ==> #[trigger] pv[k] == parts@[k]@,
        decreases s.len() - i,
    {
        let c = s[i];
        proof {
            assert(s@.take(i + 1).drop_last() =~= s@.take(i as int));
            assert(s@.take(i + 1).last() == c);
        }
        if c == ',' {
            parts.push(Vec::new());
            proof {
                pv = pv.push(Seq::<char>::empty());
            }
        } else {
            let last = parts.len() - 1;
            let mut cur = parts.pop().unwrap();
            cur.push(c);
            parts.push(cur);
            proof {
                pv = pv.update(pv.len() - 1, pv.last().push(c));
                assert forall|k: int| 0 <= k < pv.len() implies #[trigger] pv[k] == parts@[k]@ by {
                    if k < last {
                        assert(pv[k] == split_on(s@.take(i as int), ',')[k]);
                    }
                }
            }
        }
        i += 1;
    }
    proof {
        assert(s@.take(s@.len() as int) =~= s@);
    }
    let mut out: Vec<String> = Vec::new();
    let mut k: usize = 0;
    while k < parts.len()
        invariant
            k <= parts@.len(),
            pv == split_on(s@, ','),
            s@ == unbracketed(input@),
            pv.len() == parts@.len(),
            forall|q: int| 0 <= q < pv.len() ==> #[trigger] pv[q] == parts@[q]@,
            out@.len() == k,
            strings_view(out@) == pv.take(k as int).map_values(|p: Seq<char>| trim(p)),
        decreases parts.len() - k,
    {
        let t = trim_chars(parts[k].as_slice());
        let ghost before = out@;
        out.push(string_of(t.as_slice()));
        proof {
            let want = pv.take(k + 1).map_values(|p: Seq<char>| trim(p));
            assert forall|q: int| 0 <= q < k + 1 implies #[trigger] strings_view(out@)[q] == want[q] by {
                if q < k {
                    assert(out@[q] == before[q]);
                    assert(strings_view(before)[q] == pv.take(k as int).map_values(|p: Seq<char>| trim(p))[q]);
                }
            }
            assert(strings_view(out@) =~= want);
        }
        k += 1;
    }
    proof {
        assert(pv.take(pv.len() as int) =~= pv);
    }
    out
}

/// The first `n` parts of an inline vector such as `(0, 0.5, -1)`, when it
/// has at least `n` parts and each of those is a number.
pub fn inline_vector_of(input: &str, n: usize) -> (r: Option<Vec<String>>)
    ensures
        match r {
            Some(v) => inline_vector(input@, n as int) == Some(strings_view(v@)),
            None => inline_vector(input@, n as int) is None,
        },
{
    let parts = inline_parts_of(input);
    let ghost pv = strings_view(parts@);
    if parts.len() < n {
        return None;
    }
    let mut out: Vec<String> = Vec::new();
    let mut k: usize = 0;
    while k < n
        invariant
            k <= n <= parts@.len(),
            pv == strings_view(parts@),
            pv == inline_parts(input@),
            forall|q: int| 0 <= q < k ==> float_text(#[trigger] pv[q]),
            out@.len() == k,
            strings_view(out@) == pv.take(k as int),
        decreases n - k,
    {
        if !is_float_text(parts[k].as_str()) {
            proof {
                assert(!float_text(pv[k as int]));
            }
            return None;
        }
        let ghost before = out@;
        out.push(parts[k].clone());
        proof {
            assert forall|q: int| 0 <= q < k + 1 implies #[trigger] strings_view(out@)[q] == pv.take(k + 1)[q] by {
                if q < k {
                    assert(out@[q] == before[q]);
                    assert(strings_view(before)[q] == pv.take(k as int)[q]);
                }
            }
            assert(strings_view(out@) =~= pv.take(k + 1));
        }
        k += 1;
    }
    Some(out)
}

/// A separator between the numbers of a colour: whitespace or a comma.
pub open spec fn color_sep(c: char) -> bool {
    is_white(c) || c == ','
}

/// The runs of characters between separators, as `split_whitespace`
/// yields them once commas are spaces.
pub open spec fn color_tokens(s: Seq<char>) -> Seq<Seq<char>>
    decreases s.len(),
{
    if s.len() == 0 {
        Seq::empty()
    } else {
        let t = color_tokens(s.drop_last());
        if color_sep(s.last()) {
            t
        } else if s.len() >= 2 && !color_sep(s[s.len() - 2]) {
            t.update(t.len() - 1, t.last().push(s.last()))
        } else {
            t.push(seq![s.last()])
        }
    }
}

/// The numbers of a colour: red, green and blue must be numbers; the
/// fourth, alpha, is kept when it is one.
pub open spec fn color_numbers(input: Seq<char>) -> Option<Seq<Seq<char>>> {
    let t = color_tokens(input);
    if t.len() >= 3 && float_text(t[0]) && float_text(t[1]) && float_text(t[2]) {
        Some(if t.len() >= 4 && float_text(t[3]) {
            t.take(4)
        } else {
            t.take(3)
        })
    } else {
        None
    }
}

fn color_tokens_of(input: &str) -> (r: Vec<String>)
    ensures
        strings_view(r@) == color_tokens(input@),
{
    let s = chars_of(input);
    let mut toks: Vec<Vec<char>> = Vec::new();
    let ghost mut tv: Seq<Seq<char>> = Seq::empty();
    let mut prev_sep = true;
    let mut i: usize = 0;
    proof {
        assert(s@.take(0) =~= Seq::<char>::empty());
    }
    while i < s.len()
        invariant
            i <= s@.len(),
            s@ == input@,
            tv == color_tokens(s@.take(i as int)),
            tv.len() == toks@.len(),
            forall|k: int| 0 <= k < tv.len() ==> #[trigger] tv[k] == toks@[k]@,
            prev_sep == (i == 0 || color_sep(s@[i - 1])),
            !prev_sep ==> tv.len() >= 1,
        decreases s.len() - i,
    {
        let c = s[i];
        let sep = is_white_char(c) || c == ',';
        proof {
            assert(s@.take(i + 1).drop_last() =~= s@.take(i as int));
            assert(s@.take(i + 1).last() == c);
            if i >= 1 {
                assert(s@.take(i + 1)[i - 1] == s@[i - 1]);
            }
        }
        if sep {
        } else if !prev_sep {
            let last = toks.len() - 1;
            let mut cur = toks.pop().unwrap();
            cur.push(c);
            toks.push(cur);
            proof {
                let old_tv = tv;
                tv = tv.update(tv.len() - 1, tv.last().push(c));
                assert forall|k: int| 0 <= k < tv.len() implies #[trigger] tv[k] == toks@[k]@ by {
                    if k < last {
                        assert(tv[k] == old_tv[k]);
                    }
                }
            }
        } else {
            let mut cur: Vec<char> = Vec::new();
            cur.push(c);
            toks.push(cur);
            proof {
                tv = tv.push(seq![c]);
                assert(toks@[toks@.len() - 1]@ =~= seq![c]);
            }
        }
        prev_sep = sep;
        i += 1;
    }
    proof {
        assert(s@.take(s@.len() as int) =~= s@);
    }
    let mut out: Vec<String> = Vec::new();
    let mut k: usize = 0;
    while k < toks.len()
        invariant
            k <= toks@.len(),
            tv == color_tokens(input@),
            tv.len() == toks@.len(),
            forall|q: int| 0 <= q < tv.len() ==> #[trigger] tv[q] == toks@[q]@,
            out@.len() == k,
            strings_view(out@) == tv.take(k as int),
        decreases toks.len() - k,
    {
        let ghost before = out@;
        out.push(string_of(toks[k].as_slice()));
        proof {
            assert forall|q: int| 0 <= q < k + 1 implies #[trigger] strings_view(out@)[q] == tv.take(k + 1)[q] by {
                if q < k {
                    assert(out@[q] == before[q]);
                    assert(strings_view(before)[q] == tv.take(k as int)[q]);
                }
            }
            assert(strings_view(out@) =~= tv.take(k + 1));
        }
        k += 1;
    }
    proof {
        assert(tv.take(tv.len() as int) =~= tv);
    }
    out
}

/// The numbers of a colour written as `r g b [a]`, with commas or
/// whitespace between them.
pub fn color_numbers_of(input: &str) -> (r: Option<Vec<String>>)
    ensures
        match r {
            Some(v) => color_numbers(input@) == Some(strings_view(v@)),
            None => color_numbers(input@) is None,
        },
{
    let t = color_tokens_of(input);
    let ghost tv = strings_view(t@);
    if t.len() < 3 || !is_float_text(t[0].as_str()) || !is_float_text(t[1].as_str()) || !is_float_text(t[2].as_str()) {
        return None;
    }
    let mut out: Vec<String> = Vec::new();
    out.push(t[0].clone());
    out.push(t[1].clone());
    out.push(t[2].clone());
    if t.len() >= 4 && is_float_text(t[3].as_str()) {
        out.push(t[3].clone());
        proof {
            assert(strings_view(out@) =~= tv.take(4));
        }
    } else {
        proof {
            assert(strings_view(out@) =~= tv.take(3));
        }
    }
    Some(out)
}

} // verus!
