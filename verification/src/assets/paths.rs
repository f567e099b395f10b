//! Paths as text, separated by `/`: joining, the parent folder, lists of
//! roots read from one string, and removal of repeated roots.
use vstd::prelude::*;

use crate::lexical::{chars_lt, str_lt};
use crate::text::{chars_of, is_white, string_of, trim, trim_end_by, trim_start_by};

verus! {

/// `child` under `base`: `child` alone when it is absolute; else `base`,
/// a `/` unless `base` is empty or already ends with one, then `child`.
pub open spec fn join_spec(base: Seq<char>, child: Seq<char>) -> Seq<char> {
    if child.len() > 0 && child[0] == '/' {
        child
    } else if base.len() == 0 || base.last() == '/' {
        base + child
    } else {
        base + seq!['/'] + child
    }
}

/// The length of `p.take(n)` once its trailing separators are dropped.
pub open spec fn end_without_separators(p: Seq<char>, n: int) -> int
    decreases n,
{
    if n <= 0 {
        0
    } else if p[n - 1] == '/' {
        end_without_separators(p, n - 1)
    } else {
        n
    }
}

/// The index just past the last separator in `p.take(n)`; 0 when none.
pub open spec fn after_last_separator(p: Seq<char>, n: int) -> int
    decreases n,
{
    if n <= 0 {
        0
    } else if p[n - 1] == '/' {
        n
    } else {
        after_last_separator(p, n - 1)
    }
}

/// The folder holding `p`: none for an empty path or the root; the empty
/// path for a bare name; the root for a name right under it; else the text
/// before the last name, without trailing separators.
pub open spec fn parent_spec(p: Seq<char>) -> Option<Seq<char>> {
    let e = end_without_separators(p, p.len() as int);
    if e == 0 {
        None
    } else {
        let k = after_last_separator(p, e);
        if k == 0 {
            Some(Seq::empty())
        } else {
            let e2 = end_without_separators(p, k);
            if e2 == 0 {
                Some(seq!['/'])
            } else {
                Some(p.take(e2))
            }
        }
    }
}

/// `child` under `base`.
pub fn join_path(base: &str, child: &str) -> (r: String)
    ensures
        r@ == join_spec(base@, child@),
{
    let b = chars_of(base);
    let c = chars_of(child);
    if c.len() > 0 && c[0] == '/' {
        return string_of(c.as_slice());
    }
    let mut out = b;
    if !(out.len() == 0 || out[out.len() - 1] == '/') {
        out.push('/');
    }
    let ghost head = out@;
    let mut i: usize = 0;
    while i < c.len()
        invariant
            i <= c@.len(),
            out@ == head + c@.take(i as int),
        decreases c.len() - i,
    {
        out.push(c[i]);
        proof {
            assert(c@.take(i + 1) == c@.take(i as int).push(c@[i as int]));
            assert(head + c@.take(i + 1) == (head + c@.take(i as int)).push(c@[i as int]));
        }
        i += 1;
    }
    proof {
        assert(c@.take(c@.len() as int) =~= c@);
        assert(out@ =~= join_spec(base@, child@));
    }
    string_of(out.as_slice())
}

fn end_without_separators_exec(p: &[char], n: usize) -> (r: usize)
    requires
        n <= p@.len(),
    ensures
        r as int == end_without_separators(p@, n as int),
        r <= n,
{
    let mut i = n;
    while i > 0 && p[i - 1] == '/'
        invariant
            i <= n,
            n <= p@.len(),
            end_without_separators(p@, n as int) == end_without_separators(p@, i as int),
        decreases i,
    {
        i -= 1;
    }
    i
}

fn after_last_separator_exec(p: &[char], n: usize) -> (r: usize)
    requires
        n <= p@.len(),
    ensures
        r as int == after_last_separator(p@, n as int),
        r <= n,
{
    let mut i = n;
    while i > 0 && p[i - 1] != '/'
        invariant
            i <= n,
            n <= p@.len(),
            after_last_separator(p@, n as int) == after_last_separator(p@, i as int),
        decreases i,
    {
        i -= 1;
    }
    i
}

/// The folder holding `p`, as `parent_spec` describes it.
pub fn parent_dir(p: &str) -> (r: Option<String>)
    ensures
        match r {
            Some(s) => parent_spec(p@) == Some(s@),
            None => parent_spec(p@) is None,
        },
{
    let c = chars_of(p);
    let e = end_without_separators_exec(c.as_slice(), c.len());
    if e == 0 {
        return None;
    }
    let k = after_last_separator_exec(c.as_slice(), e);
    if k == 0 {
        return Some(String::new());
    }
    let e2 = end_without_separators_exec(c.as_slice(), k);
    if e2 == 0 {
        let root = vec!['/'];
        proof {
            assert(root@ =~= seq!['/']);
        }
        return Some(string_of(root.as_slice()));
    }
    let mut out: Vec<char> = Vec::new();
    let mut i: usize = 0;
    while i < e2
        invariant
            i <= e2,
            e2 <= c@.len(),
            out@ == c@.take(i as int),
        decreases e2 - i,
    {
        out.push(c[i]);
        proof {
            assert(c@.take(i + 1) == c@.take(i as int).push(c@[i as int]));
        }
        i += 1;
    }
    Some(string_of(out.as_slice()))
}

pub open spec fn views(v: Seq<String>) -> Seq<Seq<char>> {
    v.map_values(|s: String| s@)
}

/// A part between separators that names something: not empty, not `.`.
pub open spec fn keep_part(p: Seq<char>) -> Seq<Seq<char>> {
    if p.len() == 0 || p == seq!['.'] {
        Seq::empty()
    } else {
        seq![p]
    }
}

/// The parts of `s.take(n)` between separators that name something, and the
/// part still being read.
pub open spec fn scan_parts(s: Seq<char>, n: int) -> (Seq<Seq<char>>, Seq<char>)
    decreases n,
{
    if n <= 0 {
        (Seq::empty(), Seq::empty())
    } else {
        let (done, cur) = scan_parts(s, n - 1);
        if s[n - 1] == '/' {
            (done + keep_part(cur), Seq::empty())
        } else {
            (done, cur.push(s[n - 1]))
        }
    }
}

/// The named parts of a path: repeated separators, `.` parts and a trailing
/// separator leave none.
pub open spec fn path_parts(s: Seq<char>) -> Seq<Seq<char>> {
    scan_parts(s, s.len() as int).0 + keep_part(scan_parts(s, s.len() as int).1)
}

/// A path as `std::path::Path` compares it on Unix, by its components:
/// whether it starts at the root, whether it starts with a `.` part (when
/// it does not start at the root), and its named parts.
pub open spec fn path_key(s: Seq<char>) -> (bool, bool, Seq<Seq<char>>) {
    let root = s.len() > 0 && s[0] == '/';
    let cur = !root && s.len() > 0 && s[0] == '.' && (s.len() == 1 || s[1] == '/');
    (root, cur, path_parts(s))
}

/// A named part as a component: `..` is the parent-folder component (tag
/// 2), any other part a normal one (tag 3) holding its text.
pub open spec fn part_comp(p: Seq<char>) -> (int, Seq<char>) {
    if p == seq!['.', '.'] {
        (2, Seq::empty())
    } else {
        (3, p)
    }
}

/// The components of a path as `std::path::Path` lists them on Unix: the
/// root (tag 0), a leading `.` (tag 1), then its named parts.
pub open spec fn path_comps(s: Seq<char>) -> Seq<(int, Seq<char>)> {
    let k = path_key(s);
    (if k.0 {
        seq![(0int, Seq::<char>::empty())]
    } else {
        Seq::empty()
    }) + (if k.1 {
        seq![(1int, Seq::<char>::empty())]
    } else {
        Seq::empty()
    }) + k.2.map_values(|p: Seq<char>| part_comp(p))
}

/// Component order: by kind (root, `.`, `..`, normal), normal ones by text.
pub open spec fn comp_lt(a: (int, Seq<char>), b: (int, Seq<char>)) -> bool {
    a.0 < b.0 || (a.0 == b.0 && str_lt(a.1, b.1))
}

/// Lexicographic order of component lists, a proper prefix first.
pub open spec fn comps_lt(x: Seq<(int, Seq<char>)>, y: Seq<(int, Seq<char>)>) -> bool
    decreases x.len(),
{
    if y.len() == 0 {
        false
    } else if x.len() == 0 {
        true
    } else if comp_lt(x[0], y[0]) {
        true
    } else if x[0] == y[0] {
        comps_lt(x.drop_first(), y.drop_first())
    } else {
        false
    }
}

/// `a` sorts before `b` as `std::path::Path` orders paths: component by
/// component.
pub open spec fn path_lt(a: Seq<char>, b: Seq<char>) -> bool {
    comps_lt(path_comps(a), path_comps(b))
}

pub open spec fn comps_view(v: Seq<(u8, Vec<char>)>) -> Seq<(int, Seq<char>)> {
    v.map_values(|c: (u8, Vec<char>)| (c.0 as int, c.1@))
}

/// The components of a path.
fn comps_of(s: &str) -> (r: Vec<(u8, Vec<char>)>)
    ensures
        comps_view(r@) == path_comps(s@),
{
    let (root, cur, parts) = path_key_of(s);
    let ghost pv = parts@.map_values(|v: Vec<char>| v@);
    let mut out: Vec<(u8, Vec<char>)> = Vec::new();
    if root {
        out.push((0u8, Vec::new()));
    }
    if cur {
        out.push((1u8, Vec::new()));
    }
    let ghost head = comps_view(out@);
    proof {
        assert(head =~= (if root {
            seq![(0int, Seq::<char>::empty())]
        } else {
            Seq::empty()
        }) + (if cur {
            seq![(1int, Seq::<char>::empty())]
        } else {
            Seq::empty()
        }));
    }
    let mut i: usize = 0;
    while i < parts.len()
        invariant
            i <= parts@.len(),
            pv == parts@.map_values(|v: Vec<char>| v@),
            comps_view(out@) == head + pv.take(i as int).map_values(|p: Seq<char>| part_comp(p)),
        decreases parts.len() - i,
    {
        let p = &parts[i];
        let dots = p.len() == 2 && p[0] == '.' && p[1] == '.';
        let ghost before = comps_view(out@);
        proof {
            assert(pv[i as int] == p@);
            if p@ == seq!['.', '.'] {
                assert(p@[0] == '.' && p@[1] == '.');
            }
            if dots {
                assert(p@ =~= seq!['.', '.']);
            }
        }
        if dots {
            out.push((2u8, Vec::new()));
        } else {
            out.push((3u8, p.clone()));
        }
        proof {
            assert(comps_view(out@) =~= before.push(part_comp(pv[i as int])));
            assert(pv.take(i + 1).map_values(|p: Seq<char>| part_comp(p)) =~= pv.take(i as int).map_values(
                |p: Seq<char>| part_comp(p),
            ).push(part_comp(pv[i as int])));
        }
        i += 1;
    }
    proof {
        assert(pv.take(pv.len() as int) =~= pv);
    }
    out
}

/// Whether component list `x` sorts before `y`.
fn comps_less(x: &Vec<(u8, Vec<char>)>, y: &Vec<(u8, Vec<char>)>) -> (r: bool)
    ensures
        r == comps_lt(comps_view(x@), comps_view(y@)),
{
    let ghost xv = comps_view(x@);
    let ghost yv = comps_view(y@);
    let mut i: usize = 0;
    proof {
        assert(xv.skip(0) =~= xv);
        assert(yv.skip(0) =~= yv);
    }
    while i < x.len() && i < y.len()
        invariant
            i <= x@.len(),
            i <= y@.len(),
            xv == comps_view(x@),
            yv == comps_view(y@),
            comps_lt(xv, yv) == comps_lt(xv.skip(i as int), yv.skip(i as int)),
        decreases x.len() - i,
    {
        let a = &x[i];
        let b = &y[i];
        let ghost sx = xv.skip(i as int);
        let ghost sy = yv.skip(i as int);
        proof {
            assert(sx[0] == (a.0 as int, a.1@));
            assert(sy[0] == (b.0 as int, b.1@));
        }
        if a.0 < b.0 || (a.0 == b.0 && chars_lt(a.1.as_slice(), b.1.as_slice())) {
            return true;
        }
        if !(a.0 == b.0 && crate::text::chars_eq(a.1.as_slice(), b.1.as_slice())) {
            return false;
        }
        proof {
            assert(sx.drop_first() =~= xv.skip(i + 1));
            assert(sy.drop_first() =~= yv.skip(i + 1));
        }
        i += 1;
    }
    proof {
        assert(xv.skip(i as int).len() == 0 || yv.skip(i as int).len() == 0);
    }
    i == x.len() && i < y.len()
}

/// Whether path `a` sorts before path `b`, as `std::path::Path` orders them.
pub fn path_less(a: &str, b: &str) -> (r: bool)
    ensures
        r == path_lt(a@, b@),
{
    let x = comps_of(a);
    let y = comps_of(b);
    comps_less(&x, &y)
}

/// `s` with `x` placed after every entry that does not sort after it.
pub open spec fn insert_path(s: Seq<Seq<char>>, x: Seq<char>) -> Seq<Seq<char>>
    decreases s.len(),
{
    if s.len() == 0 {
        seq![x]
    } else if !path_lt(x, s.last()) {
        s.push(x)
    } else {
        insert_path(s.drop_last(), x).push(s.last())
    }
}

/// `s` stably sorted in path order.
pub open spec fn sort_paths(s: Seq<Seq<char>>) -> Seq<Seq<char>>
    decreases s.len(),
{
    if s.len() == 0 {
        s
    } else {
        insert_path(sort_paths(s.drop_last()), s.last())
    }
}

/// `s` with each entry dropped that names the same path as the entry kept
/// before it.
pub open spec fn dedup_runs(s: Seq<Seq<char>>) -> Seq<Seq<char>>
    decreases s.len(),
{
    if s.len() == 0 {
        s
    } else {
        let d = dedup_runs(s.drop_last());
        if d.len() > 0 && path_key(d.last()) == path_key(s.last()) {
            d
        } else {
            d.push(s.last())
        }
    }
}

fn insert_sorted_path(out: &mut Vec<String>, x: String)
    ensures
        views(final(out)@) == insert_path(views(old(out)@), x@),
{
    let ghost start = views(out@);
    let mut k: usize = out.len();
    proof {
        assert(start.take(k as int) =~= start);
        assert(start.skip(k as int) =~= Seq::<Seq<char>>::empty());
        assert(insert_path(start, x@) + Seq::<Seq<char>>::empty() =~= insert_path(start, x@));
    }
    while k > 0 && path_less(x.as_str(), out[k - 1].as_str())
        invariant
            k <= out@.len(),
            views(out@) == start,
            insert_path(start, x@) == insert_path(start.take(k as int), x@) + start.skip(k as int),
        decreases k,
    {
        proof {
            let t = start.take(k as int);
            assert(out@[k - 1]@ == start[k - 1]);
            assert(t.drop_last() =~= start.take(k - 1));
            assert(t.last() == start[k - 1]);
            assert(start.skip(k - 1) =~= seq![start[k - 1]] + start.skip(k as int));
            assert(insert_path(t, x@) == insert_path(start.take(k - 1), x@).push(start[k - 1]));
            assert(insert_path(t, x@) + start.skip(k as int) =~= insert_path(start.take(k - 1), x@) + start.skip(k - 1));
        }
        k -= 1;
    }
    proof {
        let t = start.take(k as int);
        if k > 0 {
            assert(out@[k - 1]@ == start[k - 1]);
            assert(t.last() == start[k - 1]);
        }
        assert(insert_path(t, x@) =~= t.push(x@));
    }
    out.insert(k, x);
    proof {
        assert(views(out@) =~= start.take(k as int).push(x@) + start.skip(k as int));
    }
}

/// The paths sorted as `std::path::Path` orders them (stably), then each
/// run of the same path reduced to its first entry, as `sort` then `dedup`
/// on a list of `PathBuf` do.
pub fn sort_dedup_paths(paths: Vec<String>) -> (r: Vec<String>)
    ensures
        views(r@) == dedup_runs(sort_paths(views(paths@))),
{
    let mut sorted: Vec<String> = Vec::new();
    let mut i: usize = 0;
    while i < paths.len()
        invariant
            i <= paths@.len(),
            views(sorted@) == sort_paths(views(paths@.take(i as int))),
        decreases paths.len() - i,
    {
        let x = paths[i].clone();
        proof {
            let next = views(paths@.take(i + 1));
            assert(next.drop_last() =~= views(paths@.take(i as int)));
            assert(next.last() == paths@[i as int]@);
        }
        insert_sorted_path(&mut sorted, x);
        i += 1;
    }
    proof {
        assert(paths@.take(paths@.len() as int) =~= paths@);
    }
    let ghost sv = views(sorted@);
    let mut out: Vec<String> = Vec::new();
    let mut j: usize = 0;
    while j < sorted.len()
        invariant
            j <= sorted@.len(),
            sv == views(sorted@),
            views(out@) == dedup_runs(sv.take(j as int)),
        decreases sorted.len() - j,
    {
        let keep = out.len() == 0 || !same_path(out[out.len() - 1].as_str(), sorted[j].as_str());
        let ghost before = views(out@);
        proof {
            assert(sv.take(j + 1).drop_last() =~= sv.take(j as int));
            assert(sv.take(j + 1).last() == sorted@[j as int]@);
            if out@.len() > 0 {
                assert(before.last() == out@[out@.len() - 1]@);
            }
        }
        if keep {
            out.push(sorted[j].clone());
            proof {
                assert(views(out@) =~= before.push(sorted@[j as int]@));
            }
        }
        j += 1;
    }
    proof {
        assert(sv.take(sv.len() as int) =~= sv);
    }
    out
}

/// `x` names the same path as an entry of `d`.
pub open spec fn has_same_path(d: Seq<Seq<char>>, x: Seq<char>) -> bool {
    exists|k: int| 0 <= k < d.len() && path_key(#[trigger] d[k]) == path_key(x)
}

/// The entries of `s` in order, each kept only when no entry before it
/// names the same path.
pub open spec fn dedupe_spec(s: Seq<Seq<char>>) -> Seq<Seq<char>>
    decreases s.len(),
{
    if s.len() == 0 {
        s
    } else {
        let d = dedupe_spec(s.drop_last());
        if has_same_path(d, s.last()) {
            d
        } else {
            d.push(s.last())
        }
    }
}

/// The key of a path: (starts at the root, starts with `.`, named parts).
fn path_key_of(s: &str) -> (r: (bool, bool, Vec<Vec<char>>))
    ensures
        r.0 == path_key(s@).0,
        r.1 == path_key(s@).1,
        r.2@.map_values(|v: Vec<char>| v@) == path_key(s@).2,
{
    let c = chars_of(s);
    let n = c.len();
    let root = n > 0 && c[0] == '/';
    let cur = !root && n > 0 && c[0] == '.' && (n == 1 || c[1] == '/');
    let mut done: Vec<Vec<char>> = Vec::new();
    let mut part: Vec<char> = Vec::new();
    let mut i: usize = 0;
    while i < n
        invariant
            i <= n,
            n == c@.len(),
            c@ == s@,
            done@.map_values(|v: Vec<char>| v@) == scan_parts(s@, i as int).0,
            part@ == scan_parts(s@, i as int).1,
        decreases n - i,
    {
        let ch = c[i];
        if ch == '/' {
            let keep = part.len() > 0 && !(part.len() == 1 && part[0] == '.');
            proof {
                if part@.len() == 1 && part@[0] == '.' {
                    assert(part@ =~= seq!['.']);
                }
                if part@ == seq!['.'] {
                    assert(part@[0] == '.');
                }
            }
            let ghost before = done@.map_values(|v: Vec<char>| v@);
            if keep {
                done.push(part);
                proof {
                    assert(done@.map_values(|v: Vec<char>| v@) =~= before + keep_part(scan_parts(s@, i as int).1));
                }
            } else {
                proof {
                    assert(before + keep_part(scan_parts(s@, i as int).1) =~= before);
                }
            }
            part = Vec::new();
        } else {
            part.push(ch);
        }
        i += 1;
    }
    let keep = part.len() > 0 && !(part.len() == 1 && part[0] == '.');
    proof {
        if part@.len() == 1 && part@[0] == '.' {
            assert(part@ =~= seq!['.']);
        }
        if part@ == seq!['.'] {
            assert(part@[0] == '.');
        }
    }
    let ghost before = done@.map_values(|v: Vec<char>| v@);
    if keep {
        done.push(part);
        proof {
            assert(done@.map_values(|v: Vec<char>| v@) =~= before + keep_part(scan_parts(s@, n as int).1));
        }
    } else {
        proof {
            assert(before + keep_part(scan_parts(s@, n as int).1) =~= before);
        }
    }
    (root, cur, done)
}

/// Whether two paths are the same path, compared as `std::path::Path`
/// compares them: component by component.
pub fn same_path(a: &str, b: &str) -> (r: bool)
    ensures
        r == (path_key(a@) == path_key(b@)),
{
    let ka = path_key_of(a);
    let kb = path_key_of(b);
    let ghost pa = ka.2@.map_values(|v: Vec<char>| v@);
    let ghost pb = kb.2@.map_values(|v: Vec<char>| v@);
    if ka.0 != kb.0 || ka.1 != kb.1 || ka.2.len() != kb.2.len() {
        proof {
            assert(pa.len() == ka.2@.len());
            assert(pb.len() == kb.2@.len());
        }
        return false;
    }
    let mut i: usize = 0;
    while i < ka.2.len()
        invariant
            i <= ka.2@.len(),
            ka.2@.len() == kb.2@.len(),
            pa == ka.2@.map_values(|v: Vec<char>| v@),
            pb == kb.2@.map_values(|v: Vec<char>| v@),
            pa == path_key(a@).2,
            pb == path_key(b@).2,
            path_key(a@).0 == path_key(b@).0,
            path_key(a@).1 == path_key(b@).1,
            forall|k: int| 0 <= k < i ==> pa[k] == pb[k],
        decreases ka.2.len() - i,
    {
        if !crate::text::chars_eq(ka.2[i].as_slice(), kb.2[i].as_slice()) {
            proof {
                assert(pa[i as int] == ka.2@[i as int]@);
                assert(pb[i as int] == kb.2@[i as int]@);
                assert(pa[i as int] != pb[i as int]);
                assert(path_key(a@).2 == pa);
                assert(path_key(b@).2 == pb);
                assert(path_key(a@).2[i as int] != path_key(b@).2[i as int]);
            }
            return false;
        }
        proof {
            assert(pa[i as int] == ka.2@[i as int]@);
            assert(pb[i as int] == kb.2@[i as int]@);
        }
        i += 1;
    }
    proof {
        assert(pa =~= pb);
    }
    true
}

/// The paths in order, each kept only when no path kept before it is the
/// same path, as `std::path::Path` compares paths.
pub fn dedupe_paths(paths: Vec<String>) -> (r: Vec<String>)
    ensures
        views(r@) == dedupe_spec(views(paths@)),
{
    let mut unique: Vec<String> = Vec::new();
    let mut i: usize = 0;
    while i < paths.len()
        invariant
            i <= paths@.len(),
            views(unique@) == dedupe_spec(views(paths@.take(i as int))),
        decreases paths.len() - i,
    {
        let path = &paths[i];
        let mut seen = false;
        let mut j: usize = 0;
        while j < unique.len()
            invariant
                j <= unique@.len(),
                seen == exists|k: int| 0 <= k < j && path_key(#[trigger] unique@[k]@) == path_key(path@),
            decreases unique.len() - j,
        {
            if same_path(unique[j].as_str(), path.as_str()) {
                seen = true;
            }
            j += 1;
        }
        proof {
            let pre = views(paths@.take(i as int));
            let next = views(paths@.take(i + 1));
            assert(next.drop_last() =~= pre);
            assert(next.last() == path@);
            let d = views(unique@);
            if seen {
                let k = choose|k: int| 0 <= k < unique@.len() && path_key(#[trigger] unique@[k]@) == path_key(path@);
                assert(d[k] == unique@[k]@);
                assert(has_same_path(d, path@));
            } else {
                assert forall|k: int| 0 <= k < d.len() implies path_key(#[trigger] d[k]) != path_key(path@) by {
                    assert(d[k] == unique@[k]@);
                }
            }
        }
        if !seen {
            unique.push(path.clone());
            proof {
                assert(views(unique@) =~= views(unique@.drop_last()).push(path@));
            }
        }
        i += 1;
    }
    proof {
        assert(paths@.take(paths@.len() as int) =~= paths@);
    }
    unique
}

/// What is left of a de-duplicated list: no two entries name the same
/// path, every entry is one of the input, and every input entry names the
/// same path as a kept one.
pub proof fn lemma_dedupe(s: Seq<Seq<char>>)
    ensures
        forall|a: int, b: int|
            0 <= a < dedupe_spec(s).len() && 0 <= b < dedupe_spec(s).len() && a != b ==> path_key(
                #[trigger] dedupe_spec(s)[a],
            ) != path_key(#[trigger] dedupe_spec(s)[b]),
        forall|x: Seq<char>| #[trigger] dedupe_spec(s).contains(x) ==> s.contains(x),
        forall|i: int| 0 <= i < s.len() ==> has_same_path(dedupe_spec(s), #[trigger] s[i]),
    decreases s.len(),
{
    if s.len() > 0 {
        let p = s.drop_last();
        lemma_dedupe(p);
        let d = dedupe_spec(p);
        let x = s.last();
        let r = dedupe_spec(s);
        assert forall|y: Seq<char>| #[trigger] r.contains(y) implies s.contains(y) by {
            if d.contains(y) {
                assert(p.contains(y));
                let k = choose|k: int| 0 <= k < p.len() && p[k] == y;
                assert(s[k] == y);
            } else {
                assert(y == x);
                assert(s[s.len() - 1] == y);
            }
        }
        assert forall|i: int| 0 <= i < s.len() implies has_same_path(r, #[trigger] s[i]) by {
            if i < s.len() - 1 {
                assert(s[i] == p[i]);
                assert(has_same_path(d, p[i]));
                let k = choose|k: int| 0 <= k < d.len() && path_key(#[trigger] d[k]) == path_key(p[i]);
                if !has_same_path(d, x) {
                    assert(r[k] == d[k]);
                }
            } else {
                if !has_same_path(d, x) {
                    assert(r[d.len() as int] == x);
                }
            }
        }
        if !has_same_path(d, x) {
            assert forall|a: int, b: int| 0 <= a < r.len() && 0 <= b < r.len() && a != b implies path_key(
                #[trigger] r[a],
            ) != path_key(#[trigger] r[b]) by {
                if a == d.len() {
                    assert(r[b] == d[b]);
                } else if b == d.len() {
                    assert(r[a] == d[a]);
                } else {
                    assert(r[a] == d[a] && r[b] == d[b]);
                }
            }
        }
    }
}

} // verus!
