//! Character-level string helpers shared by the path and name logic.
//! Strings are handled through their view, a `Seq<char>`.
use vstd::prelude::*;

use crate::assets::index_text::{decimal, decimal_chars};

verus! {

broadcast use vstd::string::group_string_axioms;

/// `to_ascii_lowercase` of one character.
pub open spec fn lower_char(c: char) -> char {
    if 'A' <= c && c <= 'Z' {
        ((c as u32) + 32) as char
    } else {
        c
    }
}

/// `to_ascii_lowercase` of a string.
pub open spec fn lower(s: Seq<char>) -> Seq<char> {
    s.map_values(|c: char| lower_char(c))
}

/// The part of `s` after the last `sep` (all of `s` when there is none),
/// as `rsplit(sep).next()` yields it.
pub open spec fn after_last(s: Seq<char>, sep: char) -> Seq<char>
    decreases s.len(),
{
    if s.len() == 0 {
        s
    } else if s.last() == sep {
        Seq::empty()
    } else {
        after_last(s.drop_last(), sep).push(s.last())
    }
}

pub open spec fn starts_with(s: Seq<char>, p: Seq<char>) -> bool {
    p.len() <= s.len() && s.subrange(0, p.len() as int) == p
}

pub open spec fn ends_with(s: Seq<char>, p: Seq<char>) -> bool {
    p.len() <= s.len() && s.subrange(s.len() - p.len(), s.len() as int) == p
}

/// `p` occurs in `s` starting at `i`.
pub open spec fn occurs_at(s: Seq<char>, p: Seq<char>, i: int) -> bool {
    0 <= i && i + p.len() <= s.len() && s.subrange(i, i + p.len()) == p
}

pub open spec fn contains(s: Seq<char>, p: Seq<char>) -> bool {
    exists|i: int| occurs_at(s, p, i)
}

/// `char::is_whitespace`: the Unicode White_Space property.
pub open spec fn is_white(c: char) -> bool {
    ||| '\t' <= c && c <= '\r'
    ||| c == ' '
    ||| c == '\u{85}'
    ||| c == '\u{a0}'
    ||| c == '\u{1680}'
    ||| '\u{2000}' <= c && c <= '\u{200a}'
    ||| c == '\u{2028}'
    ||| c == '\u{2029}'
    ||| c == '\u{202f}'
    ||| c == '\u{205f}'
    ||| c == '\u{3000}'
}

/// `s` with the leading run of characters satisfying `f` removed.
pub open spec fn trim_start_by(s: Seq<char>, f: spec_fn(char) -> bool) -> Seq<char>
    decreases s.len(),
{
    if s.len() > 0 && f(s[0]) {
        trim_start_by(s.drop_first(), f)
    } else {
        s
    }
}

/// `s` with the trailing run of characters satisfying `f` removed.
pub open spec fn trim_end_by(s: Seq<char>, f: spec_fn(char) -> bool) -> Seq<char>
    decreases s.len(),
{
    if s.len() > 0 && f(s.last()) {
        trim_end_by(s.drop_last(), f)
    } else {
        s
    }
}

/// `str::trim`.
pub open spec fn trim(s: Seq<char>) -> Seq<char> {
    trim_end_by(trim_start_by(s, |c: char| is_white(c)), |c: char| is_white(c))
}

/// The characters of a string slice.
pub fn chars_of(s: &str) -> (r: Vec<char>)
    ensures
        r@ == s@,
{
    let mut v: Vec<char> = Vec::new();
    for c in it: s.chars()
        invariant
            it.seq() == s@,
            v@ == it.seq().take(it.index()),
    {
        v.push(c);
    }
    v
}

/// Calls `String::push`, which appends one character to the string, as its
/// documentation says; the contract claims exactly that of the string's
/// characters.
#[verifier::external_body]
fn push_char(s: &mut String, c: char)
    ensures
        final(s)@ == old(s)@.push(c),
{
    s.push(c);
}

/// A string holding exactly the given characters.
pub fn string_of(chars: &[char]) -> (r: String)
    ensures
        r@ == chars@,
{
    let mut s = String::new();
    let mut i: usize = 0;
    while i < chars.len()
        invariant
            i <= chars@.len(),
            s@ == chars@.take(i as int),
        decreases chars.len() - i,
    {
        push_char(&mut s, chars[i]);
        proof {
            assert(chars@.take(i + 1) == chars@.take(i as int).push(chars@[i as int]));
        }
        i += 1;
    }
    proof {
        assert(chars@.take(chars@.len() as int) == chars@);
    }
    s
}

pub fn chars_eq(a: &[char], b: &[char]) -> (r: bool)
    ensures
        r == (a@ == b@),
{
    if a.len() != b.len() {
        return false;
    }
    let mut i: usize = 0;
    while i < a.len()
        invariant
            a@.len() == b@.len(),
            i <= a@.len(),
            forall|j: int| 0 <= j < i ==> a@[j] == b@[j],
        decreases a.len() - i,
    {
        if a[i] != b[i] {
            return false;
        }
        i += 1;
    }
    proof {
        assert(a@ =~= b@);
    }
    true
}

/// String equality by characters.
pub fn str_eq(a: &str, b: &str) -> (r: bool)
    ensures
        r == (a@ == b@),
{
    let x = chars_of(a);
    let y = chars_of(b);
    chars_eq(x.as_slice(), y.as_slice())
}

pub fn lower_chars(s: &[char]) -> (r: Vec<char>)
    ensures
        r@ == lower(s@),
{
    let mut v: Vec<char> = Vec::new();
    let mut i: usize = 0;
    while i < s.len()
        invariant
            i <= s@.len(),
            v@ == lower(s@.take(i as int)),
        decreases s.len() - i,
    {
        let c = s[i];
        let l = if 'A' <= c && c <= 'Z' {
            char_plus_32(c)
        } else {
            c
        };
        v.push(l);
        proof {
            assert(s@.take(i + 1) == s@.take(i as int).push(c));
            assert(lower(s@.take(i + 1)) =~= lower(s@.take(i as int)).push(lower_char(c)));
        }
        i += 1;
    }
    proof {
        assert(s@.take(s@.len() as int) == s@);
    }
    v
}

fn char_plus_32(c: char) -> (r: char)
    requires
        'A' <= c && c <= 'Z',
    ensures
        r == ((c as u32) + 32) as char,
{
    let u = c as u32 + 32;
    proof {
        assert(97 <= u <= 122);
    }
    // Every value in 'a'..='z' is a valid character.
    char_from_ascii(u)
}

fn char_from_ascii(u: u32) -> (r: char)
    requires
        u < 128,
    ensures
        r == u as char,
{
    let b = u as u8;
    b as char
}

/// The tail of `s` after its last `sep`.
pub fn after_last_chars(s: &[char], sep: char) -> (r: Vec<char>)
    ensures
        r@ == after_last(s@, sep),
{
    let mut start: usize = s.len();
    proof {
        assert(s@.take(start as int) =~= s@);
        assert(s@ + s@.subrange(start as int, s@.len() as int) =~= s@);
    }
    while start > 0 && s[start - 1] != sep
        invariant
            start <= s@.len(),
            after_last(s@, sep) == after_last(s@.take(start as int), sep) + s@.subrange(
                start as int,
                s@.len() as int,
            ),
        decreases start,
    {
        proof {
            let t = s@.take(start as int);
            assert(t.drop_last() == s@.take(start - 1));
            assert(s@.subrange(start - 1, s@.len() as int) == seq![t.last()] + s@.subrange(
                start as int,
                s@.len() as int,
            ));
        }
        start -= 1;
    }
    proof {
        if start > 0 {
            assert(s@.take(start as int).last() == sep);
        }
    }
    let mut v: Vec<char> = Vec::new();
    let mut i = start;
    while i < s.len()
        invariant
            start <= i <= s@.len(),
            v@ == s@.subrange(start as int, i as int),
        decreases s.len() - i,
    {
        v.push(s[i]);
        i += 1;
    }
    v
}

pub fn starts_with_chars(s: &[char], p: &[char]) -> (r: bool)
    ensures
        r == starts_with(s@, p@),
{
    if p.len() > s.len() {
        return false;
    }
    occurs_at_chars(s, p, 0)
}

pub fn ends_with_chars(s: &[char], p: &[char]) -> (r: bool)
    ensures
        r == ends_with(s@, p@),
{
    if p.len() > s.len() {
        return false;
    }
    occurs_at_chars(s, p, s.len() - p.len())
}

pub fn occurs_at_chars(s: &[char], p: &[char], at: usize) -> (r: bool)
    ensures
        r == occurs_at(s@, p@, at as int),
{
    let n = s.len();
    if at > n || p.len() > n - at {
        return false;
    }
    let mut i: usize = 0;
    while i < p.len()
        invariant
            n == s@.len(),
            at + p@.len() <= n,
            i <= p@.len(),
            forall|j: int| 0 <= j < i ==> s@[at + j] == p@[j],
        decreases p.len() - i,
    {
        if s[at + i] != p[i] {
            proof {
                assert(s@.subrange(at as int, at + p@.len())[i as int] != p@[i as int]);
            }
            return false;
        }
        i += 1;
    }
    proof {
        assert(s@.subrange(at as int, at + p@.len()) =~= p@);
    }
    true
}

pub fn contains_chars(s: &[char], p: &[char]) -> (r: bool)
    ensures
        r == contains(s@, p@),
{
    if p.len() > s.len() {
        proof {
            assert forall|i: int| !occurs_at(s@, p@, i) by {}
        }
        return false;
    }
    let last = s.len() - p.len();
    let mut i: usize = 0;
    while i < last
        invariant
            last == s@.len() - p@.len(),
            i <= last,
            forall|j: int| 0 <= j < i ==> !occurs_at(s@, p@, j),
        decreases last - i,
    {
        if occurs_at_chars(s, p, i) {
            return true;
        }
        i += 1;
    }
    if occurs_at_chars(s, p, last) {
        return true;
    }
    proof {
        assert forall|j: int| !occurs_at(s@, p@, j) by {
            if 0 <= j < i {
            }
        }
    }
    false
}

/// `a` followed by the characters of `b`, as a vector.
pub fn append_str(a: &[char], b: &str) -> (r: Vec<char>)
    ensures
        r@ == a@ + b@,
{
    let mut v: Vec<char> = Vec::new();
    let mut i: usize = 0;
    while i < a.len()
        invariant
            i <= a@.len(),
            v@ == a@.take(i as int),
        decreases a.len() - i,
    {
        v.push(a[i]);
        proof {
            assert(a@.take(i + 1) == a@.take(i as int).push(a@[i as int]));
        }
        i += 1;
    }
    proof {
        assert(a@.take(a@.len() as int) == a@);
    }
    let tail = chars_of(b);
    let mut j: usize = 0;
    while j < tail.len()
        invariant
            j <= tail@.len(),
            tail@ == b@,
            v@ == a@ + tail@.take(j as int),
        decreases tail.len() - j,
    {
        v.push(tail[j]);
        proof {
            assert(tail@.take(j + 1) == tail@.take(j as int).push(tail@[j as int]));
            assert(a@ + tail@.take(j + 1) == (a@ + tail@.take(j as int)).push(tail@[j as int]));
        }
        j += 1;
    }
    proof {
        assert(tail@.take(tail@.len() as int) == tail@);
    }
    v
}

/// The string `a` followed by `b`.
pub fn concat_str(a: &[char], b: &str) -> (r: String)
    ensures
        r@ == a@ + b@,
{
    let v = append_str(a, b);
    string_of(v.as_slice())
}

/// `a` followed by `b`.
pub fn append_chars(a: &[char], b: &[char]) -> (r: Vec<char>)
    ensures
        r@ == a@ + b@,
{
    let mut v: Vec<char> = Vec::new();
    let mut i: usize = 0;
    while i < a.len()
        invariant
            i <= a@.len(),
            v@ == a@.take(i as int),
        decreases a.len() - i,
    {
        v.push(a[i]);
        proof {
            assert(a@.take(i + 1) == a@.take(i as int).push(a@[i as int]));
        }
        i += 1;
    }
    let mut j: usize = 0;
    while j < b.len()
        invariant
            i == a@.len(),
            j <= b@.len(),
            v@ == a@ + b@.take(j as int),
        decreases b.len() - j,
    {
        proof {
            assert(a@.take(a@.len() as int) == a@);
        }
        v.push(b[j]);
        proof {
            assert(b@.take(j + 1) == b@.take(j as int).push(b@[j as int]));
            assert(a@ + b@.take(j + 1) == (a@ + b@.take(j as int)).push(b@[j as int]));
        }
        j += 1;
    }
    proof {
        assert(a@.take(a@.len() as int) == a@);
        assert(b@.take(b@.len() as int) == b@);
    }
    v
}

/// `format!("{}")` of a signed number.
pub open spec fn signed_decimal(v: int) -> Seq<char> {
    if v < 0 {
        seq!['-'] + decimal((-v) as nat)
    } else {
        decimal(v as nat)
    }
}

/// Appends the characters of `s` to `out`.
pub fn push_str(out: &mut Vec<char>, s: &str)
    ensures
        final(out)@ == old(out)@ + s@,
{
    let tail = chars_of(s);
    let ghost start = out@;
    let mut j: usize = 0;
    while j < tail.len()
        invariant
            j <= tail@.len(),
            tail@ == s@,
            out@ == start + tail@.take(j as int),
        decreases tail.len() - j,
    {
        out.push(tail[j]);
        proof {
            assert(tail@.take(j + 1) == tail@.take(j as int).push(tail@[j as int]));
            assert(start + tail@.take(j + 1) == (start + tail@.take(j as int)).push(tail@[j as int]));
        }
        j += 1;
    }
    proof {
        assert(tail@.take(tail@.len() as int) == tail@);
    }
}

/// Appends `v` in decimal to `out`.
pub fn push_decimal(out: &mut Vec<char>, v: usize)
    ensures
        final(out)@ == old(out)@ + decimal(v as nat),
{
    let digits = decimal_chars(v);
    let ghost start = out@;
    let mut j: usize = 0;
    while j < digits.len()
        invariant
            j <= digits@.len(),
            digits@ == decimal(v as nat),
            out@ == start + digits@.take(j as int),
        decreases digits.len() - j,
    {
        out.push(digits[j]);
        proof {
            assert(digits@.take(j + 1) == digits@.take(j as int).push(digits@[j as int]));
            assert(start + digits@.take(j + 1) == (start + digits@.take(j as int)).push(digits@[j as int]));
        }
        j += 1;
    }
    proof {
        assert(digits@.take(digits@.len() as int) == digits@);
    }
}

/// Appends `v` in decimal, with a minus sign when negative, to `out`.
pub fn push_signed(out: &mut Vec<char>, v: i32)
    ensures
        final(out)@ == old(out)@ + signed_decimal(v as int),
{
    if v < 0 {
        out.push('-');
        let m: i64 = -(v as i64);
        let ghost mid = out@;
        push_decimal(out, m as usize);
        proof {
            assert(out@ == old(out)@ + signed_decimal(v as int));
        }
    } else {
        push_decimal(out, v as usize);
    }
}

/// Appends the 64-bit `v` in decimal, with a minus sign when negative.
pub fn push_i64(out: &mut Vec<char>, v: i64)
    ensures
        final(out)@ == old(out)@ + signed_decimal(v as int),
{
    let ghost start = out@;
    let digits = if v < 0 {
        out.push('-');
        let m: u64 = if v == i64::MIN {
            9223372036854775808u64
        } else {
            (-v) as u64
        };
        crate::assets::index_text::decimal_chars_u64(m)
    } else {
        crate::assets::index_text::decimal_chars_u64(v as u64)
    };
    let ghost mid = out@;
    let mut j: usize = 0;
    while j < digits.len()
        invariant
            j <= digits@.len(),
            out@ == mid + digits@.take(j as int),
        decreases digits.len() - j,
    {
        out.push(digits[j]);
        proof {
            assert(digits@.take(j + 1) == digits@.take(j as int).push(digits@[j as int]));
            assert(mid + digits@.take(j + 1) == (mid + digits@.take(j as int)).push(digits@[j as int]));
        }
        j += 1;
    }
    proof {
        assert(digits@.take(digits@.len() as int) == digits@);
        if v < 0 {
            assert(mid == start.push('-'));
            assert(out@ =~= start + (seq!['-'] + digits@));
        }
    }
}

pub(crate) proof fn lemma_trim_start(s: Seq<char>, f: spec_fn(char) -> bool, k: int)
    requires
        0 <= k <= s.len(),
        forall|j: int| 0 <= j < k ==> f(#[trigger] s[j]),
        k == s.len() || !f(s[k]),
    ensures
        trim_start_by(s, f) == s.skip(k),
    decreases k,
{
    if k == 0 {
        assert(s.skip(0) =~= s);
    } else {
        let t = s.drop_first();
        assert forall|j: int| 0 <= j < k - 1 implies f(#[trigger] t[j]) by {
            assert(t[j] == s[j + 1]);
        }
        if k - 1 < t.len() {
            assert(t[k - 1] == s[k]);
        }
        lemma_trim_start(t, f, k - 1);
        assert(t.skip(k - 1) =~= s.skip(k));
    }
}

pub(crate) proof fn lemma_trim_end(s: Seq<char>, f: spec_fn(char) -> bool, k: int)
    requires
        0 <= k <= s.len(),
        forall|j: int| k <= j < s.len() ==> f(#[trigger] s[j]),
        k == 0 || !f(s[k - 1]),
    ensures
        trim_end_by(s, f) == s.take(k),
    decreases s.len() - k,
{
    if k == s.len() {
        assert(s.take(k) =~= s);
    } else {
        let t = s.drop_last();
        assert forall|j: int| k <= j < t.len() implies f(#[trigger] t[j]) by {
            assert(t[j] == s[j]);
        }
        if k > 0 {
            assert(t[k - 1] == s[k - 1]);
        }
        lemma_trim_end(t, f, k);
        assert(t.take(k) =~= s.take(k));
    }
}

/// Whether `c` is whitespace.
pub fn is_white_char(c: char) -> (r: bool)
    ensures
        r == is_white(c),
{
    ('\t' <= c && c <= '\r') || c == ' ' || c == '\u{85}' || c == '\u{a0}' || c == '\u{1680}'
        || ('\u{2000}' <= c && c <= '\u{200a}') || c == '\u{2028}' || c == '\u{2029}'
        || c == '\u{202f}' || c == '\u{205f}' || c == '\u{3000}'
}

/// `s` without leading and trailing whitespace.
pub fn trim_chars(s: &[char]) -> (r: Vec<char>)
    ensures
        r@ == trim(s@),
{
    let ghost f = |c: char| is_white(c);
    let mut a: usize = 0;
    while a < s.len() && is_white_char(s[a])
        invariant
            a <= s@.len(),
            forall|j: int| 0 <= j < a ==> is_white(#[trigger] s@[j]),
        decreases s.len() - a,
    {
        a += 1;
    }
    proof {
        assert forall|j: int| 0 <= j < a implies f(#[trigger] s@[j]) by {}
        lemma_trim_start(s@, f, a as int);
    }
    let ghost t = s@.skip(a as int);
    let mut b: usize = s.len();
    while b > a && is_white_char(s[b - 1])
        invariant
            a <= b <= s@.len(),
            t == s@.skip(a as int),
            forall|j: int| b <= j < s@.len() ==> is_white(#[trigger] s@[j]),
        decreases b - a,
    {
        b -= 1;
    }
    proof {
        assert forall|j: int| (b - a) <= j < t.len() implies f(#[trigger] t[j]) by {
            assert(t[j] == s@[j + a]);
            assert(is_white(s@[j + a]));
        }
        if b > a {
            assert(t[b - a - 1] == s@[b - 1]);
        }
        lemma_trim_end(t, f, (b - a) as int);
    }
    let mut out: Vec<char> = Vec::new();
    let mut i: usize = a;
    while i < b
        invariant
            a <= i <= b,
            b <= s@.len(),
            out@ == s@.subrange(a as int, i as int),
        decreases b - i,
    {
        out.push(s[i]);
        proof {
            assert(s@.subrange(a as int, i + 1) == s@.subrange(a as int, i as int).push(s@[i as int]));
        }
        i += 1;
    }
    proof {
        assert(out@ =~= t.take((b - a) as int));
    }
    out
}


/// What `str::to_lowercase` gives for a string: its full Unicode lower
/// case, named here rather than spelled out.
pub uninterp spec fn unicode_lowercase(s: Seq<char>) -> Seq<char>;

/// Calls `str::to_lowercase`. The contract claims only that the result is
/// the named Unicode lower case of `s`; which characters change, and how
/// the length may grow, is left unsaid.
#[verifier::external_body]
pub(crate) fn unicode_lower_str(s: &str) -> (r: String)
    ensures
        r@ == unicode_lowercase(s@),
{
    s.to_lowercase()
}

} // verus!
