//! The text form of the packed texture index cache: a version line, the
//! signature, the name count and names, the container count and paths, one
//! per line.
use vstd::prelude::*;

use crate::assets::packed_index::PackedTextureIndex;
use crate::assets::variants::strings_view;
use crate::text::{chars_eq, chars_of, string_of};

verus! {

/// Number of characters before the first `'\n'` (all of them if none).
pub open spec fn first_line_len(s: Seq<char>) -> nat
    decreases s.len(),
{
    if s.len() == 0 {
        0
    } else if s[0] == '\n' {
        0
    } else {
        1 + first_line_len(s.drop_first())
    }
}

pub proof fn lemma_first_line_len(s: Seq<char>)
    ensures
        first_line_len(s) <= s.len(),
        first_line_len(s) < s.len() ==> s[first_line_len(s) as int] == '\n',
        forall|k: int| 0 <= k < first_line_len(s) ==> s[k] != '\n',
    decreases s.len(),
{
    if s.len() > 0 && s[0] != '\n' {
        lemma_first_line_len(s.drop_first());
        assert forall|k: int| 0 <= k < first_line_len(s) implies s[k] != '\n' by {
            if k > 0 {
                assert(s[k] == s.drop_first()[k - 1]);
            }
        }
    }
}

/// A line without its `'\r'` of a `"\r\n"` ending.
pub open spec fn strip_cr(l: Seq<char>) -> Seq<char> {
    if l.len() > 0 && l.last() == '\r' {
        l.drop_last()
    } else {
        l
    }
}

/// `str::lines`: split at `'\n'`, drop a `'\r'` before it, and no empty
/// line after a final line ending.
pub open spec fn split_lines(s: Seq<char>) -> Seq<Seq<char>>
    decreases s.len(),
{
    if s.len() == 0 {
        Seq::empty()
    } else {
        let n = first_line_len(s);
        if n >= s.len() {
            seq![s]
        } else {
            seq![strip_cr(s.take(n as int))] + split_lines(s.skip(n as int + 1))
        }
    }
}

/// Each line followed by `'\n'`.
pub open spec fn join_lines(ls: Seq<Seq<char>>) -> Seq<char>
    decreases ls.len(),
{
    if ls.len() == 0 {
        Seq::empty()
    } else {
        ls[0] + seq!['\n'] + join_lines(ls.drop_first())
    }
}

/// A line that `str::lines` gives back unchanged.
pub open spec fn plain_line(l: Seq<char>) -> bool {
    &&& forall|k: int| 0 <= k < l.len() ==> l[k] != '\n'
    &&& !(l.len() > 0 && l.last() == '\r')
}

pub open spec fn digit_char(d: int) -> char {
    if d == 0 {
        '0'
    } else if d == 1 {
        '1'
    } else if d == 2 {
        '2'
    } else if d == 3 {
        '3'
    } else if d == 4 {
        '4'
    } else if d == 5 {
        '5'
    } else if d == 6 {
        '6'
    } else if d == 7 {
        '7'
    } else if d == 8 {
        '8'
    } else {
        '9'
    }
}

/// Decimal digits of `v`, as `format!("{}")` writes an unsigned number.
pub open spec fn decimal(v: nat) -> Seq<char>
    decreases v,
{
    if v < 10 {
        seq![digit_char(v as int)]
    } else {
        decimal(v / 10) + seq![digit_char((v % 10) as int)]
    }
}

pub open spec fn is_digit(c: char) -> bool {
    '0' <= c && c <= '9'
}

pub open spec fn digit_value(c: char) -> int {
    (c as int) - ('0' as int)
}

/// Value of a string of decimal digits.
pub open spec fn digits_value(d: Seq<char>) -> int
    decreases d.len(),
{
    if d.len() == 0 {
        0
    } else {
        digits_value(d.drop_last()) * 10 + digit_value(d.last())
    }
}

pub open spec fn parse_digits(d: Seq<char>) -> Option<nat> {
    if d.len() > 0 && (forall|k: int| 0 <= k < d.len() ==> is_digit(#[trigger] d[k]))
        && digits_value(d) <= usize::MAX {
        Some(digits_value(d) as nat)
    } else {
        None
    }
}

/// `str::parse::<usize>`: an optional `'+'`, then one or more decimal
/// digits whose value fits in `usize`.
pub open spec fn spec_parse_usize(s: Seq<char>) -> Option<nat> {
    if s.len() > 0 && s[0] == '+' {
        parse_digits(s.drop_first())
    } else {
        parse_digits(s)
    }
}

/// A count line: its value, or 0 when it does not parse.
pub open spec fn count_of(l: Seq<char>) -> nat {
    match spec_parse_usize(l) {
        Some(v) => v,
        None => 0,
    }
}

pub open spec fn line_or(ls: Seq<Seq<char>>, i: int, default: Seq<char>) -> Seq<char> {
    if 0 <= i < ls.len() {
        ls[i]
    } else {
        default
    }
}

pub open spec fn min_int(a: int, b: int) -> int {
    if a < b {
        a
    } else {
        b
    }
}

pub open spec fn version_line() -> Seq<char> {
    "STITCHLANDS_PACKED_INDEX_V2"@
}

/// Reading the cache text: the version line must match; a missing line
/// reads as empty, a missing or unparsable count as 0, and lists stop
/// early when the lines run out.
pub open spec fn spec_parse_index(input: Seq<char>) -> Option<
    (Seq<char>, Seq<Seq<char>>, Seq<Seq<char>>),
> {
    let ls = split_lines(input);
    if line_or(ls, 0, Seq::empty()) != version_line() {
        None
    } else {
        let sig = line_or(ls, 1, Seq::empty());
        let n = count_of(line_or(ls, 2, "0"@));
        let q = min_int(3 + n as int, ls.len() as int);
        let names = ls.subrange(min_int(3, ls.len() as int), q);
        let m = count_of(line_or(ls, q, "0"@));
        let c0 = min_int(q + 1, ls.len() as int);
        let paths = ls.subrange(c0, min_int(q + 1 + m, ls.len() as int));
        Some((sig, names, paths))
    }
}

/// The lines of the cache text for the given parts.
pub open spec fn index_lines(sig: Seq<char>, names: Seq<Seq<char>>, paths: Seq<Seq<char>>) -> Seq<
    Seq<char>,
> {
    seq![version_line(), sig, decimal(names.len())] + names + seq![decimal(paths.len())] + paths
}

proof fn lemma_split_first(l: Seq<char>, rest: Seq<char>)
    requires
        plain_line(l),
    ensures
        split_lines(l + seq!['\n'] + rest) == seq![l] + split_lines(rest),
{
    let s = l + seq!['\n'] + rest;
    assert(first_line_len(s) == l.len()) by {
        lemma_first_line_len(s);
        let n = first_line_len(s);
        if n < l.len() {
            assert(s[n as int] == l[n as int]);
        } else if n > l.len() {
            assert(s[l.len() as int] == '\n');
        }
    }
    assert(s.take(l.len() as int) =~= l);
    assert(s.skip(l.len() as int + 1) =~= rest);
}

/// Splitting the joined lines gives the lines back.
pub proof fn lemma_split_join(ls: Seq<Seq<char>>)
    requires
        forall|i: int| 0 <= i < ls.len() ==> plain_line(#[trigger] ls[i]),
    ensures
        split_lines(join_lines(ls)) == ls,
    decreases ls.len(),
{
    if ls.len() == 0 {
    } else {
        assert(plain_line(ls[0]));
        lemma_split_join(ls.drop_first());
        lemma_split_first(ls[0], join_lines(ls.drop_first()));
        assert(seq![ls[0]] + ls.drop_first() =~= ls);
    }
}

proof fn lemma_join_push(ls: Seq<Seq<char>>, l: Seq<char>)
    ensures
        join_lines(ls.push(l)) == join_lines(ls) + l + seq!['\n'],
    decreases ls.len(),
{
    if ls.len() == 0 {
        assert(ls.push(l).drop_first() =~= Seq::<Seq<char>>::empty());
        assert(join_lines(Seq::<Seq<char>>::empty()) =~= Seq::<char>::empty());
        assert(ls =~= Seq::<Seq<char>>::empty());
        assert(ls.push(l)[0] == l);
        assert(join_lines(ls.push(l)) =~= join_lines(ls) + l + seq!['\n']);
    } else {
        lemma_join_push(ls.drop_first(), l);
        assert(ls.push(l).drop_first() =~= ls.drop_first().push(l));
        assert(ls.push(l)[0] == ls[0]);
        assert(join_lines(ls.push(l)) =~= join_lines(ls) + l + seq!['\n']);
    }
}

proof fn lemma_decimal_digits(v: nat)
    ensures
        decimal(v).len() > 0,
        forall|k: int| 0 <= k < decimal(v).len() ==> is_digit(#[trigger] decimal(v)[k]),
        digits_value(decimal(v)) == v,
        plain_line(decimal(v)),
        decimal(v)[0] != '+',
    decreases v,
{
    lemma_digit_char((v % 10) as int);
    if v < 10 {
        assert(decimal(v).drop_last() =~= Seq::<char>::empty());
        assert(v % 10 == v);
        assert(digits_value(decimal(v)) == digits_value(decimal(v).drop_last()) * 10 + digit_value(
            decimal(v).last(),
        ));
    }
    if v >= 10 {
        lemma_decimal_digits(v / 10);
        let d = decimal(v);
        assert(d.drop_last() =~= decimal(v / 10));
        assert(d.last() == digit_char((v % 10) as int));
        assert(digits_value(d) == digits_value(d.drop_last()) * 10 + digit_value(d.last()));
        assert(digits_value(d.drop_last()) == v / 10);
        assert(v == (v / 10) * 10 + v % 10);
        assert forall|k: int| 0 <= k < d.len() implies is_digit(#[trigger] d[k]) by {
            if k < d.len() - 1 {
                assert(d[k] == decimal(v / 10)[k]);
            }
        }
    }
}

proof fn lemma_digit_char(k: int)
    requires
        0 <= k < 10,
    ensures
        is_digit(digit_char(k)),
        digit_value(digit_char(k)) == k,
        digit_char(k) != '\n',
        digit_char(k) != '\r',
        digit_char(k) != '+',
{
    assert('0' as int == 48);
    assert('9' as int == 57);
}

/// Parsing a written count gives the count back.
pub proof fn lemma_parse_decimal(v: nat)
    requires
        v <= usize::MAX,
    ensures
        count_of(decimal(v)) == v,
{
    lemma_decimal_digits(v);
}

/// Reading the text written for an index gives back its signature, names
/// and container paths, as long as none of them holds a line break or ends
/// in `'\r'`.
pub proof fn lemma_index_text_roundtrip(
    sig: Seq<char>,
    names: Seq<Seq<char>>,
    paths: Seq<Seq<char>>,
)
    requires
        plain_line(sig),
        forall|i: int| 0 <= i < names.len() ==> plain_line(#[trigger] names[i]),
        forall|i: int| 0 <= i < paths.len() ==> plain_line(#[trigger] paths[i]),
        names.len() <= usize::MAX,
        paths.len() <= usize::MAX,
    ensures
        spec_parse_index(join_lines(index_lines(sig, names, paths))) == Some((sig, names, paths)),
{
    let ls = index_lines(sig, names, paths);
    let n = names.len() as int;
    let m = paths.len() as int;
    lemma_decimal_digits(names.len());
    lemma_decimal_digits(paths.len());
    reveal_strlit("STITCHLANDS_PACKED_INDEX_V2");
    assert forall|i: int| 0 <= i < ls.len() implies plain_line(#[trigger] ls[i]) by {
        if i == 0 {
            assert(ls[0] == version_line());
        } else if i == 1 {
        } else if i == 2 {
        } else if i < 3 + n {
            assert(ls[i] == names[i - 3]);
        } else if i == 3 + n {
        } else {
            assert(ls[i] == paths[i - 4 - n]);
        }
    }
    lemma_split_join(ls);
    lemma_parse_decimal(names.len());
    lemma_parse_decimal(paths.len());
    assert(ls[2] == decimal(names.len()));
    assert(ls[3 + n] == decimal(paths.len()));
    assert(ls.subrange(3, 3 + n) =~= names);
    assert(ls.subrange(4 + n, 4 + n + m) =~= paths);
}

/// Views of a list of character vectors.
pub open spec fn lines_view(v: Seq<Vec<char>>) -> Seq<Seq<char>> {
    v.map_values(|l: Vec<char>| l@)
}

/// `str::lines` on characters.
pub fn split_lines_exec(s: &[char]) -> (r: Vec<Vec<char>>)
    ensures
        lines_view(r@) == split_lines(s@),
{
    let mut out: Vec<Vec<char>> = Vec::new();
    let mut pos: usize = 0;
    proof {
        assert(s@.skip(0) =~= s@);
    }
    while pos < s.len()
        invariant
            pos <= s@.len(),
            split_lines(s@) == lines_view(out@) + split_lines(s@.skip(pos as int)),
        decreases s.len() - pos,
    {
        let ghost rest = s@.skip(pos as int);
        let mut j = pos;
        while j < s.len() && s[j] != '\n'
            invariant
                pos <= j <= s@.len(),
                forall|k: int| pos <= k < j ==> s@[k] != '\n',
            decreases s.len() - j,
        {
            j += 1;
        }
        proof {
            lemma_first_line_len(rest);
            let n = first_line_len(rest);
            assert(n == j - pos) by {
                if n < j - pos {
                    assert(rest[n as int] == s@[pos + n]);
                } else if n > j - pos {
                    assert(rest[j - pos] == s@[j as int]);
                }
            }
        }
        let mut line: Vec<char> = Vec::new();
        let mut k = pos;
        while k < j
            invariant
                pos <= k <= j <= s@.len(),
                line@ == s@.subrange(pos as int, k as int),
            decreases j - k,
        {
            line.push(s[k]);
            k += 1;
        }
        let ghost old_out = out@;
        if j < s.len() {
            if line.len() > 0 && line[line.len() - 1] == '\r' {
                line.pop();
            }
            out.push(line);
            proof {
                assert(rest.take(j - pos) =~= s@.subrange(pos as int, j as int));
                assert(rest.skip(j - pos + 1) =~= s@.skip(j + 1));
                assert(lines_view(out@) =~= lines_view(old_out).push(
                    strip_cr(rest.take(j - pos)),
                ));
            }
            pos = j + 1;
        } else {
            out.push(line);
            proof {
                assert(rest =~= s@.subrange(pos as int, j as int));
                assert(lines_view(out@) =~= lines_view(old_out).push(rest));
                assert(s@.skip(j as int) =~= Seq::<char>::empty());
            }
            pos = j;
        }
    }
    proof {
        assert(s@.skip(pos as int) =~= Seq::<char>::empty());
        assert(lines_view(out@) + Seq::<Seq<char>>::empty() =~= lines_view(out@));
    }
    out
}

/// `str::parse::<usize>` on characters.
pub fn parse_usize(s: &[char]) -> (r: Option<usize>)
    ensures
        match spec_parse_usize(s@) {
            Some(v) => r == Some(v as usize),
            None => r is None,
        },
{
    let start: usize = if s.len() > 0 && s[0] == '+' {
        1
    } else {
        0
    };
    let ghost d = s@.skip(start as int);
    proof {
        if start == 1 {
            assert(d =~= s@.drop_first());
        } else {
            assert(d =~= s@);
        }
    }
    if start >= s.len() {
        proof {
            assert(d.len() == 0);
            assert(parse_digits(d) is None);
            if start == 0 {
                assert(s@.len() == 0);
            }
            assert(spec_parse_usize(s@) is None);
        }
        return None;
    }
    let mut value: usize = 0;
    let mut i = start;
    while i < s.len()
        invariant
            start <= i <= s@.len(),
            d == s@.skip(start as int),
            spec_parse_usize(s@) == parse_digits(d),
            forall|k: int| start <= k < i ==> is_digit(#[trigger] s@[k]),
            value == digits_value(s@.subrange(start as int, i as int)),
        decreases s.len() - i,
    {
        let c = s[i];
        if !('0' <= c && c <= '9') {
            proof {
                assert(d[i - start] == c);
                assert(!is_digit(d[i - start]));
                assert(parse_digits(d) is None);
                assert(spec_parse_usize(s@) is None);
            }
            return None;
        }
        let digit = (c as u32 - '0' as u32) as usize;
        proof {
            let t = s@.subrange(start as int, i + 1);
            assert(t.drop_last() =~= s@.subrange(start as int, i as int));
            assert(t.last() == c);
        }
        if value > (usize::MAX - digit) / 10 {
            proof {
                let t = s@.subrange(start as int, i + 1);
                assert(digits_value(t) == value * 10 + digit);
                if forall|k: int| 0 <= k < d.len() ==> is_digit(#[trigger] d[k]) {
                    assert(d.take(i + 1 - start) =~= t);
                    lemma_digits_prefix_le(d, i + 1 - start);
                }
                assert(digits_value(s@.subrange(start as int, i + 1)) > usize::MAX) by (
                nonlinear_arith)
                    requires
                        value > (usize::MAX - digit) / 10,
                        digits_value(s@.subrange(start as int, i + 1)) == value * 10 + digit,
                        0 <= digit <= 9,
                ;
            }
            return None;
        }
        value = value * 10 + digit;
        i += 1;
    }
    proof {
        assert(s@.subrange(start as int, s@.len() as int) =~= d);
    }
    Some(value)
}

proof fn lemma_digits_nonneg(d: Seq<char>)
    requires
        forall|k: int| 0 <= k < d.len() ==> is_digit(#[trigger] d[k]),
    ensures
        digits_value(d) >= 0,
    decreases d.len(),
{
    if d.len() > 0 {
        lemma_digits_nonneg(d.drop_last());
        assert(is_digit(d[d.len() - 1]));
    }
}

proof fn lemma_parse_bound(s: Seq<char>)
    ensures
        spec_parse_usize(s) matches Some(v) ==> v <= usize::MAX,
{
    let d = if s.len() > 0 && s[0] == '+' {
        s.drop_first()
    } else {
        s
    };
    if parse_digits(d) is Some {
        lemma_digits_nonneg(d);
    }
}

/// Appending digits never lowers the value.
proof fn lemma_digits_prefix_le(d: Seq<char>, j: int)
    requires
        0 <= j <= d.len(),
        forall|k: int| 0 <= k < d.len() ==> is_digit(#[trigger] d[k]),
    ensures
        digits_value(d.take(j)) <= digits_value(d),
    decreases d.len(),
{
    if j < d.len() {
        let e = d.drop_last();
        assert forall|k: int| 0 <= k < e.len() implies is_digit(#[trigger] e[k]) by {
            assert(e[k] == d[k]);
        }
        lemma_digits_prefix_le(e, j);
        assert(e.take(j) =~= d.take(j));
        lemma_digits_nonneg(e);
        assert(is_digit(d[d.len() - 1]));
    } else {
        assert(d.take(j) =~= d);
    }
}

fn digit_char_exec(d: usize) -> (c: char)
    requires
        d < 10,
    ensures
        c == digit_char(d as int),
{
    if d == 0 {
        '0'
    } else if d == 1 {
        '1'
    } else if d == 2 {
        '2'
    } else if d == 3 {
        '3'
    } else if d == 4 {
        '4'
    } else if d == 5 {
        '5'
    } else if d == 6 {
        '6'
    } else if d == 7 {
        '7'
    } else if d == 8 {
        '8'
    } else {
        '9'
    }
}

/// Decimal digits of `v`.
pub fn decimal_chars(v: usize) -> (r: Vec<char>)
    ensures
        r@ == decimal(v as nat),
    decreases v,
{
    if v < 10 {
        vec![digit_char_exec(v)]
    } else {
        let mut r = decimal_chars(v / 10);
        r.push(digit_char_exec(v % 10));
        r
    }
}

/// Decimal digits of a 64-bit `v`.
pub fn decimal_chars_u64(v: u64) -> (r: Vec<char>)
    ensures
        r@ == decimal(v as nat),
    decreases v,
{
    if v < 10 {
        vec![digit_char_exec(v as usize)]
    } else {
        let mut r = decimal_chars_u64(v / 10);
        r.push(digit_char_exec((v % 10) as usize));
        r
    }
}

/// Appends `line` and a line break to `out`.
fn push_line(out: &mut Vec<char>, line: &[char], Ghost(done): Ghost<Seq<Seq<char>>>)
    requires
        old(out)@ == join_lines(done),
    ensures
        final(out)@ == join_lines(done.push(line@)),
{
    let mut i: usize = 0;
    let ghost start = out@;
    while i < line.len()
        invariant
            i <= line@.len(),
            out@ == start + line@.take(i as int),
        decreases line.len() - i,
    {
        out.push(line[i]);
        proof {
            assert(line@.take(i + 1) == line@.take(i as int).push(line@[i as int]));
            assert(start + line@.take(i + 1) =~= (start + line@.take(i as int)).push(line@[i as int]));
        }
        i += 1;
    }
    out.push('\n');
    proof {
        assert(line@.take(line@.len() as int) =~= line@);
        lemma_join_push(done, line@);
        assert(out@ =~= join_lines(done) + line@ + seq!['\n']);
    }
}

/// Appends each string as a line.
fn push_lines(out: &mut Vec<char>, lines: &Vec<String>, Ghost(done): Ghost<Seq<Seq<char>>>)
    requires
        old(out)@ == join_lines(done),
    ensures
        final(out)@ == join_lines(done + strings_view(lines@)),
{
    let mut i: usize = 0;
    proof {
        assert(done + strings_view(lines@).take(0) =~= done);
    }
    while i < lines.len()
        invariant
            i <= lines@.len(),
            out@ == join_lines(done + strings_view(lines@).take(i as int)),
        decreases lines.len() - i,
    {
        let line = chars_of(lines[i].as_str());
        let ghost sofar = done + strings_view(lines@).take(i as int);
        push_line(out, line.as_slice(), Ghost(sofar));
        proof {
            assert(sofar.push(line@) =~= done + strings_view(lines@).take(i + 1));
        }
        i += 1;
    }
    proof {
        assert(strings_view(lines@).take(lines@.len() as int) =~= strings_view(lines@));
    }
}

fn line_at<'a>(ls: &'a Vec<Vec<char>>, i: usize, default: &'a Vec<char>) -> (r: &'a Vec<char>)
    ensures
        r@ == line_or(lines_view(ls@), i as int, default@),
{
    if i < ls.len() {
        &ls[i]
    } else {
        default
    }
}

fn count_at(ls: &Vec<Vec<char>>, i: usize) -> (r: usize)
    ensures
        r == count_of(line_or(lines_view(ls@), i as int, "0"@)),
{
    let zero = chars_of("0");
    let line = line_at(ls, i, &zero);
    proof {
        lemma_parse_bound(line@);
    }
    match parse_usize(line.as_slice()) {
        Some(v) => v,
        None => 0,
    }
}

fn strings_from_lines(ls: &Vec<Vec<char>>, from: usize, to: usize) -> (r: Vec<String>)
    requires
        from <= to <= ls@.len(),
    ensures
        strings_view(r@) == lines_view(ls@).subrange(from as int, to as int),
{
    let mut out: Vec<String> = Vec::new();
    let mut i = from;
    while i < to
        invariant
            from <= i <= to <= ls@.len(),
            strings_view(out@) == lines_view(ls@).subrange(from as int, i as int),
        decreases to - i,
    {
        let ghost before = out@;
        out.push(string_of(ls[i].as_slice()));
        proof {
            assert(lines_view(ls@)[i as int] == ls@[i as int]@);
            assert(out@ == before.push(out@[out@.len() - 1]));
            assert(strings_view(out@) =~= strings_view(before).push(ls@[i as int]@));
            assert(strings_view(out@) =~= lines_view(ls@).subrange(from as int, i + 1));
        }
        i += 1;
    }
    out
}

impl PackedTextureIndex {
    /// The cache text for this index.
    pub fn to_text(&self) -> (r: String)
        ensures
            r@ == join_lines(
                index_lines(
                    self.spec_signature(),
                    strings_view(self.spec_names()),
                    strings_view(self.spec_container_paths()),
                ),
            ),
    {
        let names = self.names();
        let paths = self.container_paths();
        let mut out: Vec<char> = Vec::new();
        let version = chars_of("STITCHLANDS_PACKED_INDEX_V2");
        let sig = chars_of(self.signature().as_str());
        let n = decimal_chars(names.len());
        let m = decimal_chars(paths.len());
        let ghost e = Seq::<Seq<char>>::empty();
        proof {
            assert(out@ =~= join_lines(e));
        }
        push_line(&mut out, version.as_slice(), Ghost(e));
        let ghost l1 = e.push(version@);
        push_line(&mut out, sig.as_slice(), Ghost(l1));
        let ghost l2 = l1.push(sig@);
        push_line(&mut out, n.as_slice(), Ghost(l2));
        let ghost l3 = l2.push(n@);
        push_lines(&mut out, names, Ghost(l3));
        let ghost l4 = l3 + strings_view(names@);
        push_line(&mut out, m.as_slice(), Ghost(l4));
        let ghost l5 = l4.push(m@);
        push_lines(&mut out, paths, Ghost(l5));
        proof {
            assert(l5 + strings_view(paths@) =~= index_lines(
                self.spec_signature(),
                strings_view(self.spec_names()),
                strings_view(self.spec_container_paths()),
            ));
        }
        string_of(out.as_slice())
    }

    /// Reads the cache text; `None` when the version line does not match.
    pub fn from_text(input: &str) -> (r: Option<Self>)
        ensures
            match spec_parse_index(input@) {
                None => r is None,
                Some((sig, names, paths)) => r matches Some(idx) && idx.spec_signature() == sig
                    && strings_view(idx.spec_names()) == names && strings_view(
                    idx.spec_container_paths(),
                ) == paths,
            },
    {
        let chars = chars_of(input);
        let ls = split_lines_exec(chars.as_slice());
        let ghost lv = lines_view(ls@);
        let empty: Vec<char> = Vec::new();
        let version = line_at(&ls, 0, &empty);
        let expected = chars_of("STITCHLANDS_PACKED_INDEX_V2");
        if !chars_eq(version.as_slice(), expected.as_slice()) {
            return None;
        }
        let sig = line_at(&ls, 1, &empty);
        let n = count_at(&ls, 2);
        let total = ls.len();
        let base: usize = if total < 3 {
            total
        } else {
            3
        };
        let avail = total - base;
        let q = base + if n < avail {
            n
        } else {
            avail
        };
        let names = strings_from_lines(&ls, base, q);
        let m = count_at(&ls, q);
        let c0: usize = if q < total {
            q + 1
        } else {
            total
        };
        let rest = total - c0;
        let c_end = c0 + if m < rest {
            m
        } else {
            rest
        };
        let paths = strings_from_lines(&ls, c0, c_end);
        Some(PackedTextureIndex::from_parts(string_of(sig.as_slice()), names, paths))
    }
}

} // verus!
