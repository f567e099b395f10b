//! Lexicographic order on strings, as `String`'s `<` compares them: UTF-8
//! bytes compare in the same order as the characters they encode, so the
//! order is character by character, a proper prefix coming first.
use vstd::prelude::*;

use crate::text::{chars_of, starts_with};

verus! {

/// `a` sorts strictly before `b`.
pub open spec fn str_lt(a: Seq<char>, b: Seq<char>) -> bool
    decreases a.len(),
{
    if a.len() == 0 {
        b.len() > 0
    } else if b.len() == 0 {
        false
    } else if a[0] != b[0] {
        a[0] < b[0]
    } else {
        str_lt(a.drop_first(), b.drop_first())
    }
}

/// `a` sorts no later than `b`.
pub open spec fn str_le(a: Seq<char>, b: Seq<char>) -> bool {
    !str_lt(b, a)
}

/// Non-decreasing order.
pub open spec fn sorted(s: Seq<String>) -> bool {
    forall|i: int, j: int| 0 <= i < j < s.len() ==> str_le(#[trigger] s[i]@, #[trigger] s[j]@)
}

/// Strictly increasing order: sorted and without repeats.
pub open spec fn strictly_sorted(s: Seq<String>) -> bool {
    forall|i: int, j: int| 0 <= i < j < s.len() ==> str_lt(#[trigger] s[i]@, #[trigger] s[j]@)
}

pub proof fn lemma_lt_irreflexive(a: Seq<char>)
    ensures
        !str_lt(a, a),
    decreases a.len(),
{
    if a.len() > 0 {
        lemma_lt_irreflexive(a.drop_first());
    }
}

/// Any two strings are equal or one sorts before the other, never both.
pub proof fn lemma_lt_total(a: Seq<char>, b: Seq<char>)
    ensures
        a == b || str_lt(a, b) || str_lt(b, a),
        !(str_lt(a, b) && str_lt(b, a)),
    decreases a.len(),
{
    if a.len() > 0 && b.len() > 0 {
        lemma_lt_total(a.drop_first(), b.drop_first());
        if a[0] == b[0] && a.drop_first() == b.drop_first() {
            assert(a =~= seq![a[0]] + a.drop_first());
            assert(b =~= seq![b[0]] + b.drop_first());
        }
    } else if a.len() == 0 && b.len() == 0 {
        assert(a =~= b);
    }
}

pub proof fn lemma_lt_transitive(a: Seq<char>, b: Seq<char>, c: Seq<char>)
    requires
        str_lt(a, b),
        str_lt(b, c),
    ensures
        str_lt(a, c),
    decreases a.len(),
{
    if a.len() > 0 && b.len() > 0 && c.len() > 0 {
        if a[0] == b[0] && b[0] == c[0] {
            lemma_lt_transitive(a.drop_first(), b.drop_first(), c.drop_first());
        }
    }
}

pub proof fn lemma_le_transitive(a: Seq<char>, b: Seq<char>, c: Seq<char>)
    requires
        str_le(a, b),
        str_le(b, c),
    ensures
        str_le(a, c),
{
    lemma_lt_total(a, b);
    lemma_lt_total(b, c);
    lemma_lt_total(a, c);
    if str_lt(c, a) {
        if str_lt(a, b) {
            lemma_lt_transitive(c, a, b);
        } else if a == b {
        }
    }
}

/// A string sorts no earlier than any of its prefixes.
pub proof fn lemma_prefix_le(x: Seq<char>, p: Seq<char>)
    requires
        starts_with(x, p),
    ensures
        str_le(p, x),
    decreases p.len(),
{
    if p.len() > 0 {
        assert(x[0] == p[0]);
        assert(x.drop_first().subrange(0, p.len() - 1) =~= p.drop_first());
        lemma_prefix_le(x.drop_first(), p.drop_first());
    }
}

/// Strings that sort between a prefix and a string holding it hold the
/// prefix too.
pub proof fn lemma_between_keeps_prefix(p: Seq<char>, x: Seq<char>, y: Seq<char>)
    requires
        str_le(p, x),
        str_le(x, y),
        starts_with(y, p),
    ensures
        starts_with(x, p),
    decreases p.len(),
{
    if p.len() == 0 {
        assert(x.subrange(0, 0) =~= p);
    } else {
        assert(y[0] == p[0]);
        if x.len() == 0 {
            assert(str_lt(x, p));
        } else {
            lemma_lt_total(seq![x[0]], seq![p[0]]);
            if x[0] != p[0] {
                if x[0] < p[0] {
                    assert(str_lt(x, p));
                } else {
                    assert(str_lt(y, x));
                }
            } else {
                assert(y.drop_first().subrange(0, p.len() - 1) =~= p.drop_first());
                lemma_between_keeps_prefix(p.drop_first(), x.drop_first(), y.drop_first());
                assert(x.subrange(0, p.len() as int) =~= seq![x[0]] + x.drop_first().subrange(
                    0,
                    p.len() - 1,
                ));
                assert(p =~= seq![p[0]] + p.drop_first());
            }
        }
    }
}

/// `a` sorts strictly before `b`, character by character.
pub fn chars_lt(a: &[char], b: &[char]) -> (r: bool)
    ensures
        r == str_lt(a@, b@),
{
    let mut i: usize = 0;
    proof {
        assert(a@.skip(0) =~= a@);
        assert(b@.skip(0) =~= b@);
    }
    while i < a.len() && i < b.len() && a[i] == b[i]
        invariant
            i <= a@.len(),
            i <= b@.len(),
            str_lt(a@, b@) == str_lt(a@.skip(i as int), b@.skip(i as int)),
        decreases a.len() - i,
    {
        proof {
            assert(a@.skip(i as int).drop_first() =~= a@.skip(i + 1));
            assert(b@.skip(i as int).drop_first() =~= b@.skip(i + 1));
        }
        i += 1;
    }
    proof {
        assert(a@.skip(i as int).len() == a@.len() - i);
        assert(b@.skip(i as int).len() == b@.len() - i);
        if i < a@.len() && i < b@.len() {
            assert(a@.skip(i as int)[0] == a@[i as int]);
            assert(b@.skip(i as int)[0] == b@[i as int]);
        }
    }
    if i < a.len() && i < b.len() {
        a[i] < b[i]
    } else {
        i == a.len() && i < b.len()
    }
}

/// `a` sorts strictly before `b`.
pub fn string_lt(a: &str, b: &str) -> (r: bool)
    ensures
        r == str_lt(a@, b@),
{
    let x = chars_of(a);
    let y = chars_of(b);
    chars_lt(x.as_slice(), y.as_slice())
}

proof fn lemma_insert_multiset<A>(s: Seq<A>, i: int, x: A)
    requires
        0 <= i <= s.len(),
    ensures
        s.insert(i, x).to_multiset() =~= s.to_multiset().insert(x),
{
    broadcast use vstd::seq_lib::group_seq_properties;

    let t = s.insert(i, x);
    s.insert_ensures(i, x);
    assert(t.remove(i) =~= s);
    t.to_multiset_ensures();
    assert(t.to_multiset().count(x) > 0) by {
        assert(t[i] == x);
        assert(t.contains(x));
    }
}

/// `s` with `x` placed after every entry that sorts no later.
pub open spec fn insert_view(s: Seq<Seq<char>>, x: Seq<char>) -> Seq<Seq<char>>
    decreases s.len(),
{
    if s.len() == 0 {
        seq![x]
    } else if str_le(s.last(), x) {
        s.push(x)
    } else {
        insert_view(s.drop_last(), x).push(s.last())
    }
}

/// `s` sorted.
pub open spec fn sort_views(s: Seq<Seq<char>>) -> Seq<Seq<char>>
    decreases s.len(),
{
    if s.len() == 0 {
        s
    } else {
        insert_view(sort_views(s.drop_last()), s.last())
    }
}

/// Non-decreasing order on character sequences.
pub open spec fn views_sorted(s: Seq<Seq<char>>) -> bool {
    forall|i: int, j: int| 0 <= i < j < s.len() ==> str_le(#[trigger] s[i], #[trigger] s[j])
}

proof fn lemma_le_refl(a: Seq<char>)
    ensures
        str_le(a, a),
{
    lemma_lt_irreflexive(a);
}

proof fn lemma_le_antisymmetric(a: Seq<char>, b: Seq<char>)
    requires
        str_le(a, b),
        str_le(b, a),
    ensures
        a == b,
{
    lemma_lt_total(a, b);
}

/// Every entry of a sorted sequence is no later than its last.
proof fn lemma_sorted_last(s: Seq<Seq<char>>, e: Seq<char>)
    requires
        views_sorted(s),
        s.contains(e),
    ensures
        str_le(e, s.last()),
{
    let j = choose|j: int| 0 <= j < s.len() && s[j] == e;
    if j < s.len() - 1 {
        assert(str_le(s[j], s[s.len() - 1]));
    } else {
        lemma_le_refl(e);
    }
}

/// `insert_view` keeps a sorted sequence sorted and adds `x` to its
/// entries.
proof fn lemma_insert_view_sorted(s: Seq<Seq<char>>, x: Seq<char>)
    requires
        views_sorted(s),
    ensures
        views_sorted(insert_view(s, x)),
        insert_view(s, x).to_multiset() == s.to_multiset().insert(x),
    decreases s.len(),
{
    broadcast use vstd::seq_lib::group_to_multiset_ensures;

    if s.len() == 0 {
        assert(seq![x] =~= Seq::<Seq<char>>::empty().push(x));
    } else if str_le(s.last(), x) {
        assert forall|i: int, j: int| 0 <= i < j < s.len() + 1 implies str_le(
            #[trigger] s.push(x)[i],
            #[trigger] s.push(x)[j],
        ) by {
            if j == s.len() {
                if i < s.len() - 1 {
                    assert(str_le(s[i], s[s.len() - 1]));
                    lemma_le_transitive(s[i], s.last(), x);
                }
            } else {
                assert(str_le(s[i], s[j]));
            }
        }
    } else {
        let l = s.last();
        let d = s.drop_last();
        assert forall|i: int, j: int| 0 <= i < j < d.len() implies str_le(#[trigger] d[i], #[trigger] d[j]) by {
            assert(str_le(s[i], s[j]));
        }
        lemma_insert_view_sorted(d, x);
        let t = insert_view(d, x);
        lemma_lt_total(x, l);
        assert(s =~= d.push(l));
        assert forall|i: int, j: int| 0 <= i < j < t.len() + 1 implies str_le(
            #[trigger] t.push(l)[i],
            #[trigger] t.push(l)[j],
        ) by {
            if j == t.len() {
                let e = t[i];
                assert(t.contains(e));
                assert(t.to_multiset().count(e) > 0);
                if e != x {
                    assert(d.to_multiset().count(e) > 0);
                    assert(d.contains(e));
                    let k = choose|k: int| 0 <= k < d.len() && d[k] == e;
                    assert(str_le(s[k], s[s.len() - 1]));
                }
            } else {
                assert(t.push(l)[i] == t[i] && t.push(l)[j] == t[j]);
            }
        }
        assert(insert_view(s, x) == t.push(l));
        assert(t.push(l).to_multiset() =~= s.to_multiset().insert(x));
    }
}

/// `sort_views` gives a sorted arrangement of the same entries.
pub proof fn lemma_sort_views(s: Seq<Seq<char>>)
    ensures
        views_sorted(sort_views(s)),
        sort_views(s).to_multiset() == s.to_multiset(),
    decreases s.len(),
{
    broadcast use vstd::seq_lib::group_to_multiset_ensures;

    if s.len() > 0 {
        lemma_sort_views(s.drop_last());
        lemma_insert_view_sorted(sort_views(s.drop_last()), s.last());
        assert(s =~= s.drop_last().push(s.last()));
    } else {
        assert(s.to_multiset() =~= vstd::multiset::Multiset::empty());
    }
}

/// Two sorted arrangements of the same entries are the same sequence.
pub proof fn lemma_sorted_unique(a: Seq<Seq<char>>, b: Seq<Seq<char>>)
    requires
        views_sorted(a),
        views_sorted(b),
        a.to_multiset() == b.to_multiset(),
    ensures
        a == b,
    decreases a.len(),
{
    broadcast use vstd::seq_lib::group_to_multiset_ensures;

    vstd::seq_lib::to_multiset_len(a);
    vstd::seq_lib::to_multiset_len(b);
    if a.len() == 0 {
        assert(b.len() == 0);
        assert(a =~= b);
    } else {
        assert(b.len() == a.len());
        assert(a.contains(a.last()));
        assert(b.to_multiset().count(a.last()) > 0);
        assert(b.contains(a.last()));
        assert(b.contains(b.last()));
        assert(a.to_multiset().count(b.last()) > 0);
        assert(a.contains(b.last()));
        lemma_sorted_last(b, a.last());
        lemma_sorted_last(a, b.last());
        lemma_le_antisymmetric(a.last(), b.last());
        let da = a.drop_last();
        let db = b.drop_last();
        assert(a =~= da.push(a.last()));
        assert(b =~= db.push(b.last()));
        assert(da.to_multiset() =~= a.to_multiset().remove(a.last()));
        assert(db.to_multiset() =~= b.to_multiset().remove(b.last()));
        assert forall|i: int, j: int| 0 <= i < j < da.len() implies str_le(#[trigger] da[i], #[trigger] da[j]) by {
            assert(str_le(a[i], a[j]));
        }
        assert forall|i: int, j: int| 0 <= i < j < db.len() implies str_le(#[trigger] db[i], #[trigger] db[j]) by {
            assert(str_le(b[i], b[j]));
        }
        lemma_sorted_unique(da, db);
    }
}

/// Sorting does not depend on the order the entries come in.
pub proof fn lemma_sort_views_order_free(a: Seq<Seq<char>>, b: Seq<Seq<char>>)
    requires
        a.to_multiset() == b.to_multiset(),
    ensures
        sort_views(a) == sort_views(b),
{
    lemma_sort_views(a);
    lemma_sort_views(b);
    lemma_sorted_unique(sort_views(a), sort_views(b));
}

/// Inserting into a sorted sequence at the place after every entry no later
/// than `x` and before the first entry after it.
proof fn lemma_insert_view_at(s: Seq<Seq<char>>, pos: int, x: Seq<char>)
    requires
        0 <= pos <= s.len(),
        forall|i: int, j: int| 0 <= i < j < s.len() ==> str_le(#[trigger] s[i], #[trigger] s[j]),
        forall|k: int| 0 <= k < pos ==> str_le(#[trigger] s[k], x),
        pos < s.len() ==> str_lt(x, s[pos]),
    ensures
        insert_view(s, x) == s.insert(pos, x),
    decreases s.len(),
{
    if s.len() == 0 {
        assert(s.insert(pos, x) =~= seq![x]);
    } else if pos == s.len() {
        assert(str_le(s[s.len() - 1], x));
        assert(s.insert(pos, x) =~= s.push(x));
    } else {
        let l = s.len() - 1;
        if pos < l {
            assert(str_le(s[pos], s[l]));
            lemma_lt_total(s[pos], s[l]);
            if s[pos] != s[l] {
                lemma_lt_transitive(x, s[pos], s[l]);
            }
        }
        assert(str_lt(x, s[l]));
        assert(!str_le(s.last(), x));
        let t = s.drop_last();
        assert forall|i: int, j: int| 0 <= i < j < t.len() implies str_le(#[trigger] t[i], #[trigger] t[j]) by {
            assert(t[i] == s[i] && t[j] == s[j]);
        }
        assert forall|k: int| 0 <= k < pos implies str_le(#[trigger] t[k], x) by {
            assert(t[k] == s[k]);
        }
        lemma_insert_view_at(t, pos, x);
        assert(t.insert(pos, x).push(s.last()) =~= s.insert(pos, x));
    }
}

/// The same strings in non-decreasing order; equal strings keep their
/// relative order.
pub fn sort_strings(v: Vec<String>) -> (r: Vec<String>)
    ensures
        sorted(r@),
        r@.to_multiset() == v@.to_multiset(),
        r@.map_values(|s: String| s@) == sort_views(v@.map_values(|s: String| s@)),
{
    let mut out: Vec<String> = Vec::new();
    let mut i: usize = 0;
    proof {
        assert(v@.take(0) =~= Seq::<String>::empty());
    }
    while i < v.len()
        invariant
            i <= v@.len(),
            sorted(out@),
            out@.to_multiset() == v@.take(i as int).to_multiset(),
            out@.map_values(|s: String| s@) == sort_views(v@.take(i as int).map_values(|s: String| s@)),
        decreases v.len() - i,
    {
        let x = v[i].clone();
        let mut pos: usize = 0;
        while pos < out.len() && !string_lt(x.as_str(), out[pos].as_str())
            invariant
                pos <= out@.len(),
                forall|k: int| 0 <= k < pos ==> str_le(#[trigger] out@[k]@, x@),
            decreases out.len() - pos,
        {
            pos += 1;
        }
        let ghost before = out@;
        proof {
            if pos < out.len() {
                assert(str_lt(x@, before[pos as int]@));
            }
            lemma_insert_keeps_sorted(before, pos as int, x);
        }
        proof {
            let bv = before.map_values(|s: String| s@);
            assert forall|a: int, b: int| 0 <= a < b < bv.len() implies str_le(#[trigger] bv[a], #[trigger] bv[b]) by {
                assert(str_le(before[a]@, before[b]@));
            }
            assert forall|k: int| 0 <= k < pos implies str_le(#[trigger] bv[k], x@) by {
                assert(str_le(before[k]@, x@));
            }
            lemma_insert_view_at(bv, pos as int, x@);
            let vv = v@.take(i + 1).map_values(|s: String| s@);
            assert(vv.drop_last() =~= v@.take(i as int).map_values(|s: String| s@));
            assert(vv.last() == x@);
        }
        out.insert(pos, x);
        proof {
            lemma_insert_multiset(before, pos as int, x);
            lemma_take_push_multiset(v@, i as int);
            assert(out@.map_values(|s: String| s@) =~= before.map_values(|s: String| s@).insert(pos as int, x@));
        }
        i += 1;
    }
    proof {
        assert(v@.take(v@.len() as int) =~= v@);
    }
    out
}

proof fn lemma_take_push_multiset<A>(v: Seq<A>, i: int)
    requires
        0 <= i < v.len(),
    ensures
        v.take(i + 1).to_multiset() =~= v.take(i).to_multiset().insert(v[i]),
{
    assert(v.take(i + 1) =~= v.take(i).push(v[i]));
    v.take(i).to_multiset_ensures();
}

/// Inserting `x` after every string no later than it and before a string
/// after it keeps the order.
proof fn lemma_insert_keeps_sorted(before: Seq<String>, pos: int, x: String)
    requires
        0 <= pos <= before.len(),
        sorted(before),
        forall|k: int| 0 <= k < pos ==> str_le(#[trigger] before[k]@, x@),
        pos < before.len() ==> str_lt(x@, before[pos]@),
    ensures
        sorted(before.insert(pos, x)),
{
    let out = before.insert(pos, x);
    before.insert_ensures(pos, x);
            assert forall|a: int, b: int| 0 <= a < b < out.len() implies str_le(
                #[trigger] out[a]@,
                #[trigger] out[b]@,
            ) by {
                let p = pos;
                if b < p {
                    assert(out[a] == before[a] && out[b] == before[b]);
                } else if b == p {
                    assert(out[a] == before[a]);
                } else if a == p {
                    assert(out[b] == before[b - 1]);
                    assert(str_lt(x@, before[p]@));
                    lemma_lt_total(x@, before[p]@);
                    if b - 1 > p {
                        assert(str_le(before[p]@, before[b - 1]@));
                        lemma_lt_total(before[p]@, before[b - 1]@);
                        lemma_le_transitive(x@, before[p]@, before[b - 1]@);
                    }
                } else if a < p {
                    assert(out[a] == before[a]);
                    assert(out[b] == before[b - 1]);
                    assert(str_le(before[a]@, x@));
                    lemma_lt_total(x@, before[p]@);
                    if b - 1 >= p {
                        lemma_lt_total(before[a]@, before[b - 1]@);
                    }
                } else {
                    assert(out[a] == before[a - 1]);
                    assert(out[b] == before[b - 1]);
                }
            }
}

/// The views held by `s`.
pub open spec fn holds_view(s: Seq<String>, x: Seq<char>) -> bool {
    exists|j: int| 0 <= j < s.len() && (#[trigger] s[j])@ == x
}

/// A sorted list with each run of equal strings reduced to one.
pub fn dedup_sorted(v: Vec<String>) -> (r: Vec<String>)
    requires
        sorted(v@),
    ensures
        strictly_sorted(r@),
        forall|x: Seq<char>| holds_view(r@, x) <==> holds_view(v@, x),
{
    let mut out: Vec<String> = Vec::new();
    let mut i: usize = 0;
    while i < v.len()
        invariant
            i <= v@.len(),
            sorted(v@),
            strictly_sorted(out@),
            i > 0 ==> out@.len() > 0 && out@.last()@ == v@[i - 1]@,
            i == 0 ==> out@.len() == 0,
            forall|x: Seq<char>| holds_view(out@, x) <==> holds_view(v@.take(i as int), x),
        decreases v.len() - i,
    {
        let ghost before = out@;
        let ghost pre = v@.take(i as int);
        let ghost x = v@[i as int]@;
        let fresh = out.len() == 0 || out[out.len() - 1] != v[i];
        if fresh {
            out.push(v[i].clone());
            proof {
                if before.len() > 0 {
                    let last = before.last()@;
                    assert(str_le(v@[i - 1]@, x));
                    lemma_lt_total(last, x);
                    assert forall|a: int, b: int| 0 <= a < b < out@.len() implies str_lt(#[trigger] out@[a]@, #[trigger] out@[b]@) by {
                        if b == out@.len() - 1 {
                            if a < before.len() - 1 {
                                lemma_lt_transitive(out@[a]@, last, x);
                            }
                        } else {
                            assert(out@[a] == before[a] && out@[b] == before[b]);
                        }
                    }
                }
            }
        }
        proof {
            let next = v@.take(i + 1);
            assert(next =~= pre.push(v@[i as int]));
            assert forall|y: Seq<char>| holds_view(out@, y) <==> holds_view(next, y) by {
                if holds_view(out@, y) {
                    let j = choose|j: int| 0 <= j < out@.len() && (#[trigger] out@[j])@ == y;
                    if fresh && j == out@.len() - 1 {
                        assert(next[i as int]@ == y);
                    } else {
                        assert(out@[j] == before[j]);
                        assert(holds_view(before, y));
                        let k = choose|k: int| 0 <= k < pre.len() && (#[trigger] pre[k])@ == y;
                        assert(next[k] == pre[k]);
                    }
                }
                if holds_view(next, y) {
                    let k = choose|k: int| 0 <= k < next.len() && (#[trigger] next[k])@ == y;
                    if k == i {
                        if fresh {
                            assert(out@[out@.len() - 1]@ == y);
                        } else {
                            assert(out@[out@.len() - 1]@ == y);
                        }
                    } else {
                        assert(pre[k] == next[k]);
                        assert(holds_view(pre, y));
                        assert(holds_view(before, y));
                        let j = choose|j: int| 0 <= j < before.len() && (#[trigger] before[j])@ == y;
                        assert(out@[j] == before[j]);
                    }
                }
            }
        }
        i += 1;
    }
    proof {
        assert(v@.take(v@.len() as int) =~= v@);
    }
    out
}

/// The strings sorted, each view kept once.
pub fn sorted_set(v: Vec<String>) -> (r: Vec<String>)
    ensures
        strictly_sorted(r@),
        forall|x: Seq<char>| holds_view(r@, x) <==> holds_view(v@, x),
{
    let ghost joined = v@;
    let sorted_all = sort_strings(v);
    proof {
        assert forall|x: Seq<char>| holds_view(sorted_all@, x) <==> holds_view(joined, x) by {
            if holds_view(sorted_all@, x) {
                let j = choose|j: int| 0 <= j < sorted_all@.len() && (#[trigger] sorted_all@[j])@ == x;
                let e = sorted_all@[j];
                assert(sorted_all@.contains(e));
                vstd::seq_lib::to_multiset_contains(sorted_all@, e);
                vstd::seq_lib::to_multiset_contains(joined, e);
                let k = choose|k: int| 0 <= k < joined.len() && joined[k] == e;
                assert(joined[k]@ == x);
            }
            if holds_view(joined, x) {
                let k = choose|k: int| 0 <= k < joined.len() && (#[trigger] joined[k])@ == x;
                let e = joined[k];
                assert(joined.contains(e));
                vstd::seq_lib::to_multiset_contains(sorted_all@, e);
                vstd::seq_lib::to_multiset_contains(joined, e);
                let j = choose|j: int| 0 <= j < sorted_all@.len() && sorted_all@[j] == e;
                assert(sorted_all@[j]@ == x);
            }
        }
    }
    dedup_sorted(sorted_all)
}

} // verus!
