//! Ranking packed-texture entries for a texture path: container paths that
//! hold one of the wanted patterns, texture names that hold the basename,
//! and the members of a random graphic's folder. Entries are named by their
//! index in the list given.
use vstd::prelude::*;

use super::paths::views;
use super::variants::{lower_basename, spec_prefixed_lower, strings_view, variants_for};
use crate::defs::GraphicKind;
use crate::lexical::{str_le, str_lt, string_lt};
use crate::text::{chars_of, contains, contains_chars, ends_with, ends_with_chars, starts_with, starts_with_chars};
use vstd::string::StringSliceAdditionalSpecFns;

verus! {

/// `a / b` rounded toward zero, as Rust divides signed integers.
pub open spec fn div_toward_zero(a: int, b: int) -> int {
    if a >= 0 {
        a / b
    } else {
        -((-a) / b)
    }
}

pub open spec fn bonus(c: bool, v: int) -> int {
    if c {
        v
    } else {
        0
    }
}

/// `str::len` of `s`: the number of its UTF-8 bytes.
pub open spec fn byte_len(s: &str) -> int {
    (s.spec_bytes().len() as usize) as int
}

/// How well container path `path` fits `candidate`: 120 when it ends with
/// it, 20 more under a `/things/` folder, 10 more for a `.png`, less a
/// hundredth of its byte length (taken as `i32`).
pub open spec fn container_score(path: Seq<char>, len: int, candidate: Seq<char>) -> int {
    bonus(ends_with(path, candidate), 120) + bonus(contains(path, "/things/"@), 20) + bonus(contains(path, ".png"@), 10)
        - div_toward_zero((len as i32) as int, 100)
}

/// The score of container path `asset_path` against wanted path `candidate`.
pub fn container_match_score(asset_path: &str, candidate: &str) -> (r: i32)
    ensures
        r == container_score(asset_path@, byte_len(asset_path), candidate@),
{
    let p = chars_of(asset_path);
    let c = chars_of(candidate);
    let mut score: i32 = 0;
    if ends_with_chars(p.as_slice(), c.as_slice()) {
        score += 120;
    }
    if contains_chars(p.as_slice(), chars_of("/things/").as_slice()) {
        score += 20;
    }
    if contains_chars(p.as_slice(), chars_of(".png").as_slice()) {
        score += 10;
    }
    let len = asset_path.len() as i32;
    let cut = len / 100;
    proof {
        assert(cut == div_toward_zero(len as int, 100));
    }
    score - cut
}

/// `s` with `x` placed after every entry scoring at least as high: one
/// step of a stable sort from high scores to low.
pub open spec fn insert_desc(s: Seq<(i32, usize)>, x: (i32, usize)) -> Seq<(i32, usize)>
    decreases s.len(),
{
    if s.len() == 0 {
        seq![x]
    } else if s.last().0 >= x.0 {
        s.push(x)
    } else {
        insert_desc(s.drop_last(), x).push(s.last())
    }
}

/// `s` stably sorted from high scores to low.
pub open spec fn sort_desc(s: Seq<(i32, usize)>) -> Seq<(i32, usize)>
    decreases s.len(),
{
    if s.len() == 0 {
        s
    } else {
        insert_desc(sort_desc(s.drop_last()), s.last())
    }
}

/// Places `x` after every entry of `out` scoring at least as high.
fn insert_scored(out: &mut Vec<(i32, usize)>, x: (i32, usize))
    ensures
        final(out)@ == insert_desc(old(out)@, x),
{
    let ghost start = out@;
    let mut k: usize = out.len();
    proof {
        assert(start.take(k as int) =~= start);
        assert(start.skip(k as int) =~= Seq::<(i32, usize)>::empty());
        assert(insert_desc(start, x) + Seq::<(i32, usize)>::empty() =~= insert_desc(start, x));
    }
    while k > 0 && out[k - 1].0 < x.0
        invariant
            k <= out@.len(),
            out@ == start,
            insert_desc(start, x) == insert_desc(start.take(k as int), x) + start.skip(k as int),
        decreases k,
    {
        proof {
            let t = start.take(k as int);
            assert(t.drop_last() =~= start.take(k - 1));
            assert(t.last() == start[k - 1]);
            assert(start.skip(k - 1) =~= seq![start[k - 1]] + start.skip(k as int));
            assert(insert_desc(t, x) == insert_desc(start.take(k - 1), x).push(start[k - 1]));
            assert(insert_desc(t, x) + start.skip(k as int) =~= insert_desc(start.take(k - 1), x) + start.skip(k - 1));
        }
        k -= 1;
    }
    proof {
        let t = start.take(k as int);
        if k > 0 {
            assert(t.last() == start[k - 1]);
        }
        assert(insert_desc(t, x) =~= t.push(x));
    }
    out.insert(k, x);
    proof {
        assert(out@ =~= start.take(k as int).push(x) + start.skip(k as int));
    }
}

proof fn lemma_insert_desc_len(s: Seq<(i32, usize)>, x: (i32, usize))
    ensures
        insert_desc(s, x).len() == s.len() + 1,
    decreases s.len(),
{
    if s.len() > 0 && s.last().0 < x.0 {
        lemma_insert_desc_len(s.drop_last(), x);
    }
}

/// The first `n` entries, or all when there are fewer.
pub open spec fn first_at_most<T>(s: Seq<T>, n: int) -> Seq<T> {
    if s.len() <= n {
        s
    } else {
        s.take(n)
    }
}

fn first_indices(v: &Vec<(i32, usize)>, n: usize) -> (r: Vec<usize>)
    ensures
        r@ == first_at_most(v@, n as int).map_values(|e: (i32, usize)| e.1),
{
    let mut out: Vec<usize> = Vec::new();
    let mut i: usize = 0;
    while i < v.len() && i < n
        invariant
            i <= v@.len(),
            i <= n,
            out@ == v@.take(i as int).map_values(|e: (i32, usize)| e.1),
        decreases v.len() - i,
    {
        out.push(v[i].1);
        proof {
            assert(v@.take(i + 1) =~= v@.take(i as int).push(v@[i as int]));
            assert(out@ =~= v@.take(i + 1).map_values(|e: (i32, usize)| e.1));
        }
        i += 1;
    }
    proof {
        if v@.len() <= n {
            assert(v@.take(i as int) =~= v@);
        }
    }
    out
}

/// The scored matches of the first `n` container paths: for each path in
/// order, one entry per wanted pattern it holds.
pub open spec fn container_scored(paths: Seq<String>, lens: Seq<int>, cands: Seq<Seq<char>>, n: int) -> Seq<(i32, usize)>
    decreases n,
{
    if n <= 0 {
        Seq::empty()
    } else {
        container_scored(paths, lens, cands, n - 1) + candidate_scores(paths[n - 1]@, lens[n - 1], cands, n - 1, cands.len() as int)
    }
}

/// The entries for path `i` from the first `m` patterns it holds.
pub open spec fn candidate_scores(path: Seq<char>, len: int, cands: Seq<Seq<char>>, i: int, m: int) -> Seq<(i32, usize)>
    decreases m,
{
    if m <= 0 {
        Seq::empty()
    } else {
        let before = candidate_scores(path, len, cands, i, m - 1);
        if contains(path, cands[m - 1]) {
            before.push((container_score(path, len, cands[m - 1]) as i32, i as usize))
        } else {
            before
        }
    }
}

/// The byte lengths of the paths.
pub open spec fn byte_lens(paths: Seq<String>) -> Seq<int> {
    paths.map_values(|s: String| (vstd::utf8::encode_utf8(s@).len() as usize) as int)
}

/// Up to ten container paths, by index, that best fit `tex_path`: each path
/// once per wanted container pattern it holds, scored, stably sorted from
/// high scores to low.
pub fn find_by_container_paths(container_paths: &[String], tex_path: &str) -> (r: Vec<usize>)
    ensures
        r@ == first_at_most(
            sort_desc(
                container_scored(
                    container_paths@,
                    byte_lens(container_paths@),
                    container_path_views(tex_path@),
                    container_paths@.len() as int,
                ),
            ),
            10,
        ).map_values(|e: (i32, usize)| e.1),
{
    let variants = variants_for(tex_path, GraphicKind::Single);
    let candidates = variants.container_paths();
    proof {
        assert(strings_view(candidates@) =~= container_path_views(tex_path@));
    }
    let ghost cv = strings_view(candidates@);
    let ghost lens = byte_lens(container_paths@);
    let mut sorted: Vec<(i32, usize)> = Vec::new();
    let ghost mut scored: Seq<(i32, usize)> = Seq::empty();
    let mut i: usize = 0;
    while i < container_paths.len()
        invariant
            i <= container_paths@.len(),
            cv == strings_view(candidates@),
            lens == byte_lens(container_paths@),
            scored == container_scored(container_paths@, lens, cv, i as int),
            sorted@ == sort_desc(scored),
        decreases container_paths.len() - i,
    {
        let path = container_paths[i].as_str();
        let p = chars_of(path);
        let mut j: usize = 0;
        let ghost base = scored;
        while j < candidates.len()
            invariant
                j <= candidates@.len(),
                i < container_paths@.len(),
                p@ == container_paths@[i as int]@,
                path@ == container_paths@[i as int]@,
                cv == strings_view(candidates@),
                lens == byte_lens(container_paths@),
                scored == base + candidate_scores(container_paths@[i as int]@, lens[i as int], cv, i as int, j as int),
                sorted@ == sort_desc(scored),
            decreases candidates.len() - j,
        {
            let cand = chars_of(candidates[j].as_str());
            proof {
                assert(cv[j as int] == candidates@[j as int]@);
                assert(lens[i as int] == byte_len(path));
            }
            if contains_chars(p.as_slice(), cand.as_slice()) {
                let score = container_match_score(path, candidates[j].as_str());
                let entry = (score, i);
                proof {
                    let old_scored = scored;
                    scored = scored.push(entry);
                    assert(scored.drop_last() =~= old_scored);
                    assert(sort_desc(scored) == insert_desc(sort_desc(old_scored), entry));
                    assert(base + candidate_scores(container_paths@[i as int]@, lens[i as int], cv, i as int, j + 1)
                        =~= (base + candidate_scores(container_paths@[i as int]@, lens[i as int], cv, i as int, j as int)).push(entry));
                }
                insert_scored(&mut sorted, entry);
            }
            j += 1;
        }
        proof {
            assert(scored == container_scored(container_paths@, lens, cv, i + 1)) by {
                assert(container_scored(container_paths@, lens, cv, i + 1) == container_scored(container_paths@, lens, cv, i as int)
                    + candidate_scores(container_paths@[i as int]@, lens[i as int], cv, i as int, cv.len() as int));
            }
        }
        i += 1;
    }
    first_indices(&sorted, 10)
}

/// The exact container paths wanted for `tex_path`.
pub open spec fn container_path_views(tex_path: Seq<char>) -> Seq<Seq<char>> {
    let p = spec_prefixed_lower(tex_path);
    seq![p, p + ".png"@, p + "_south.png"@, p + "_north.png"@, p + "_east.png"@, p + "_west.png"@]
}

/// How well texture name `name` fits `basename`: 100 when it is the
/// basename, 80 when it starts with it, else 50; less a twentieth of its
/// byte length (taken as `i32`).
pub open spec fn name_score(name: Seq<char>, len: int, basename: Seq<char>) -> int {
    (if name == basename {
        100int
    } else if starts_with(name, basename) {
        80int
    } else {
        50int
    }) - div_toward_zero((len as i32) as int, 20)
}

/// The scored names among the first `n` that hold `basename`.
pub open spec fn names_scored(names: Seq<String>, lens: Seq<int>, basename: Seq<char>, n: int) -> Seq<(i32, usize)>
    decreases n,
{
    if n <= 0 {
        Seq::empty()
    } else {
        let before = names_scored(names, lens, basename, n - 1);
        if contains(names[n - 1]@, basename) {
            before.push((name_score(names[n - 1]@, lens[n - 1], basename) as i32, (n - 1) as usize))
        } else {
            before
        }
    }
}

/// Up to ten texture names, by index, holding the lower-cased basename of
/// `tex_path`, stably sorted from the best score to the worst.
pub fn find_fuzzy_name_matches(names: &[String], tex_path: &str) -> (r: Vec<usize>)
    ensures
        r@ == first_at_most(
            sort_desc(names_scored(names@, byte_lens(names@), lower_basename(tex_path@), names@.len() as int)),
            10,
        ).map_values(|e: (i32, usize)| e.1),
{
    let base = crate::assets::variants::lower_basename_chars(tex_path);
    let ghost lens = byte_lens(names@);
    let mut sorted: Vec<(i32, usize)> = Vec::new();
    let ghost mut scored: Seq<(i32, usize)> = Seq::empty();
    let mut i: usize = 0;
    while i < names.len()
        invariant
            i <= names@.len(),
            base@ == lower_basename(tex_path@),
            lens == byte_lens(names@),
            scored == names_scored(names@, lens, base@, i as int),
            sorted@ == sort_desc(scored),
        decreases names.len() - i,
    {
        let name = names[i].as_str();
        let n = chars_of(name);
        if contains_chars(n.as_slice(), base.as_slice()) {
            let head: i32 = if crate::text::chars_eq(n.as_slice(), base.as_slice()) {
                100
            } else if starts_with_chars(n.as_slice(), base.as_slice()) {
                80
            } else {
                50
            };
            let len = name.len() as i32;
            let cut = len / 20;
            proof {
                assert(cut == div_toward_zero(len as int, 20));
                assert(lens[i as int] == byte_len(name));
            }
            let entry = (head - cut, i);
            proof {
                let old_scored = scored;
                scored = scored.push(entry);
                assert(scored.drop_last() =~= old_scored);
                assert(sort_desc(scored) == insert_desc(sort_desc(old_scored), entry));
            }
            insert_scored(&mut sorted, entry);
        }
        i += 1;
    }
    first_indices(&sorted, 10)
}

/// Container path `path` lies directly in folder `prefix`, and is not a
/// mask texture (ending in `_m`).
pub open spec fn folder_member(path: Seq<char>, prefix: Seq<char>) -> bool {
    &&& starts_with(path, prefix)
    &&& forall|k: int| prefix.len() <= k < path.len() ==> path[k] != '/'
    &&& !ends_with(path.skip(prefix.len() as int), "_m"@)
}

/// `s` with index `x` placed after every index whose path sorts no later:
/// one step of a stable sort by path.
pub open spec fn insert_by_path(s: Seq<usize>, x: usize, paths: Seq<String>) -> Seq<usize>
    decreases s.len(),
{
    if s.len() == 0 {
        seq![x]
    } else if str_le(paths[s.last() as int]@, paths[x as int]@) {
        s.push(x)
    } else {
        insert_by_path(s.drop_last(), x, paths).push(s.last())
    }
}

/// The members among the first `n` paths, stably sorted by path.
pub open spec fn members_sorted(paths: Seq<String>, prefix: Seq<char>, n: int) -> Seq<usize>
    decreases n,
{
    if n <= 0 {
        Seq::empty()
    } else {
        let before = members_sorted(paths, prefix, n - 1);
        if folder_member(paths[n - 1]@, prefix) {
            insert_by_path(before, (n - 1) as usize, paths)
        } else {
            before
        }
    }
}

pub(crate) fn insert_member(out: &mut Vec<usize>, x: usize, paths: &[String])
    requires
        x < paths@.len(),
        forall|q: int| 0 <= q < old(out)@.len() ==> old(out)@[q] < paths@.len(),
    ensures
        final(out)@ == insert_by_path(old(out)@, x, paths@),
        forall|q: int| 0 <= q < final(out)@.len() ==> final(out)@[q] < paths@.len(),
{
    let ghost start = out@;
    let mut k: usize = out.len();
    proof {
        assert(start.take(k as int) =~= start);
        assert(start.skip(k as int) =~= Seq::<usize>::empty());
        assert(insert_by_path(start, x, paths@) + Seq::<usize>::empty() =~= insert_by_path(start, x, paths@));
    }
    while k > 0 && string_lt(paths[x].as_str(), paths[out[k - 1]].as_str())
        invariant
            k <= out@.len(),
            out@ == start,
            x < paths@.len(),
            forall|q: int| 0 <= q < start.len() ==> start[q] < paths@.len(),
            insert_by_path(start, x, paths@) == insert_by_path(start.take(k as int), x, paths@) + start.skip(k as int),
        decreases k,
    {
        proof {
            let t = start.take(k as int);
            assert(t.drop_last() =~= start.take(k - 1));
            assert(t.last() == start[k - 1]);
            assert(start.skip(k - 1) =~= seq![start[k - 1]] + start.skip(k as int));
            assert(insert_by_path(t, x, paths@) == insert_by_path(start.take(k - 1), x, paths@).push(start[k - 1]));
            assert(insert_by_path(t, x, paths@) + start.skip(k as int) =~= insert_by_path(start.take(k - 1), x, paths@)
                + start.skip(k - 1));
        }
        k -= 1;
    }
    proof {
        let t = start.take(k as int);
        if k > 0 {
            assert(t.last() == start[k - 1]);
        }
        assert(insert_by_path(t, x, paths@) =~= t.push(x));
    }
    out.insert(k, x);
    proof {
        assert(out@ =~= start.take(k as int).push(x) + start.skip(k as int));
        assert forall|q: int| 0 <= q < out@.len() implies out@[q] < paths@.len() by {
            if q < k {
                assert(out@[q] == start[q]);
            } else if q > k {
                assert(out@[q] == start[q - 1]);
            }
        }
    }
}

/// The members of a random graphic's folder, by index into
/// `container_paths`: the entries directly in the folder, mask textures left
/// out, stably sorted by path.
pub fn folder_members(container_paths: &[String], tex_path: &str) -> (r: Vec<usize>)
    ensures
        r@ == members_sorted(container_paths@, spec_prefixed_lower(tex_path@) + "/"@, container_paths@.len() as int),
{
    let variants = variants_for(tex_path, GraphicKind::Random);
    let prefix = match variants.folder_prefix() {
        Some(p) => chars_of(p.as_str()),
        None => {
            return Vec::new();
        },
    };
    let mask = chars_of("_m");
    let mut out: Vec<usize> = Vec::new();
    let mut i: usize = 0;
    while i < container_paths.len()
        invariant
            i <= container_paths@.len(),
            prefix@ == spec_prefixed_lower(tex_path@) + "/"@,
            mask@ == "_m"@,
            out@ == members_sorted(container_paths@, prefix@, i as int),
            forall|q: int| 0 <= q < out@.len() ==> out@[q] < container_paths@.len(),
        decreases container_paths.len() - i,
    {
        let p = chars_of(container_paths[i].as_str());
        if starts_with_chars(p.as_slice(), prefix.as_slice()) {
            let mut k: usize = prefix.len();
            let mut nested = false;
            while k < p.len()
                invariant
                    prefix@.len() <= k <= p@.len(),
                    nested == exists|q: int| prefix@.len() <= q < k && p@[q] == '/',
                decreases p.len() - k,
            {
                if p[k] == '/' {
                    nested = true;
                }
                k += 1;
            }
            let mut tail: Vec<char> = Vec::new();
            let mut t: usize = prefix.len();
            while t < p.len()
                invariant
                    prefix@.len() <= t <= p@.len(),
                    tail@ == p@.subrange(prefix@.len() as int, t as int),
                decreases p.len() - t,
            {
                tail.push(p[t]);
                proof {
                    assert(p@.subrange(prefix@.len() as int, t + 1) =~= p@.subrange(prefix@.len() as int, t as int).push(p@[t as int]));
                }
                t += 1;
            }
            proof {
                assert(tail@ =~= p@.skip(prefix@.len() as int));
            }
            if !nested && !ends_with_chars(tail.as_slice(), mask.as_slice()) {
                insert_member(&mut out, i, container_paths);
            }
        }
        i += 1;
    }
    out
}

} // verus!
