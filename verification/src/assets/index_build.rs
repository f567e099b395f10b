//! Building the packed-texture index from scanned names, and deciding
//! whether a cached index may be used instead of a new scan.
use vstd::prelude::*;

use super::index_text::{
    decimal, decimal_chars_u64, index_lines, join_lines, lemma_index_text_roundtrip, plain_line, spec_parse_index,
};
use super::packed_index::PackedTextureIndex;
use super::variants::strings_view;
use crate::lexical::{holds_view, lemma_sort_views_order_free, sort_strings, sort_views, sorted_set, strictly_sorted};
use crate::text::{chars_of, lower, lower_chars, push_str, string_of};

verus! {

/// Some scanned name, once lower-cased, is `x`; empty names are skipped
/// when `skip_empty` holds.
pub open spec fn scanned_as(raw: Seq<String>, x: Seq<char>, skip_empty: bool) -> bool {
    exists|j: int| 0 <= j < raw.len() && !(skip_empty && (#[trigger] raw[j])@.len() == 0) && lower(raw[j]@) == x
}

fn lowered_all(raw: &Vec<String>, skip_empty: bool) -> (r: Vec<String>)
    ensures
        forall|x: Seq<char>| holds_view(r@, x) <==> scanned_as(raw@, x, skip_empty),
{
    let mut out: Vec<String> = Vec::new();
    let mut i: usize = 0;
    while i < raw.len()
        invariant
            i <= raw@.len(),
            forall|x: Seq<char>| holds_view(out@, x) <==> scanned_as(raw@.take(i as int), x, skip_empty),
        decreases raw.len() - i,
    {
        let ghost before = out@;
        let ghost pre = raw@.take(i as int);
        let ghost next = raw@.take(i + 1);
        let c = chars_of(raw[i].as_str());
        let keep = !(skip_empty && c.len() == 0);
        if keep {
            let l = lower_chars(c.as_slice());
            out.push(string_of(l.as_slice()));
        }
        proof {
            assert(next =~= pre.push(raw@[i as int]));
            assert forall|x: Seq<char>| holds_view(out@, x) <==> scanned_as(next, x, skip_empty) by {
                if holds_view(out@, x) {
                    let j = choose|j: int| 0 <= j < out@.len() && (#[trigger] out@[j])@ == x;
                    if keep && j == out@.len() - 1 {
                        assert(next[i as int] == raw@[i as int]);
                    } else {
                        assert(out@[j] == before[j]);
                        assert(holds_view(before, x));
                        let k = choose|k: int| 0 <= k < pre.len() && !(skip_empty && (#[trigger] pre[k])@.len() == 0) && lower(pre[k]@) == x;
                        assert(next[k] == pre[k]);
                    }
                }
                if scanned_as(next, x, skip_empty) {
                    let k = choose|k: int| 0 <= k < next.len() && !(skip_empty && (#[trigger] next[k])@.len() == 0) && lower(next[k]@) == x;
                    if k == i {
                        assert(out@[out@.len() - 1]@ == x);
                    } else {
                        assert(pre[k] == next[k]);
                        assert(scanned_as(pre, x, skip_empty));
                        assert(holds_view(before, x));
                        let j = choose|j: int| 0 <= j < before.len() && (#[trigger] before[j])@ == x;
                        assert(out@[j] == before[j]);
                    }
                }
            }
        }
        i += 1;
    }
    proof {
        assert(raw@.take(raw@.len() as int) =~= raw@);
    }
    out
}

impl PackedTextureIndex {
    /// The index for what a scan of packed data found: texture names
    /// lower-cased, empty ones dropped; container paths lower-cased; both
    /// sorted, each once.
    pub fn from_scanned(signature: String, texture_names: Vec<String>, container_paths: Vec<String>) -> (r: Self)
        ensures
            r.spec_signature() == signature@,
            strictly_sorted(r.spec_names()),
            strictly_sorted(r.spec_container_paths()),
            forall|x: Seq<char>| holds_view(r.spec_names(), x) <==> scanned_as(texture_names@, x, true),
            forall|x: Seq<char>| holds_view(r.spec_container_paths(), x) <==> scanned_as(container_paths@, x, false),
    {
        let names = sorted_set(lowered_all(&texture_names, true));
        let paths = sorted_set(lowered_all(&container_paths, false));
        PackedTextureIndex::from_parts(signature, names, paths)
    }

    /// The cached index when it may be used: no rebuild was asked for, the
    /// cache text reads as an index, and it was built from data with the
    /// same signature. `None` means the packed data must be scanned anew.
    pub fn load_or_build(cached_text: Option<&str>, signature: &str, rebuild: bool) -> (r: Option<Self>)
        ensures
            match cached_text {
                None => r is None,
                Some(t) => match spec_parse_index(t@) {
                    None => r is None,
                    Some(parts) => if !rebuild && parts.0 == signature@ {
                        r matches Some(idx) && idx.spec_signature() == parts.0 && strings_view(idx.spec_names())
                            == parts.1 && strings_view(idx.spec_container_paths()) == parts.2
                    } else {
                        r is None
                    },
                },
            },
    {
        if rebuild {
            return None;
        }
        match cached_text {
            None => None,
            Some(t) => match PackedTextureIndex::from_text(t) {
                Some(idx) => {
                    if idx.signature_matches(signature) {
                        Some(idx)
                    } else {
                        None
                    }
                },
                None => None,
            },
        }
    }
}

/// `tag:path|seconds` for one root.
pub open spec fn signature_part(tag: Seq<char>, path: Seq<char>, mtime: u64) -> Seq<char> {
    tag + path + "|"@ + decimal(mtime as nat)
}

/// The parts of a signature: one per data root, then one per type-tree
/// registry.
pub open spec fn signature_parts(roots: Seq<(String, u64)>, registries: Seq<(String, u64)>) -> Seq<Seq<char>> {
    roots.map_values(|e: (String, u64)| signature_part("data:"@, e.0@, e.1)) + registries.map_values(
        |e: (String, u64)| signature_part("typetree:"@, e.0@, e.1),
    )
}

/// `parts` joined by `;`.
pub open spec fn joined(parts: Seq<Seq<char>>) -> Seq<char>
    decreases parts.len(),
{
    if parts.len() == 0 {
        Seq::empty()
    } else if parts.len() == 1 {
        parts[0]
    } else {
        joined(parts.drop_last()) + seq![';'] + parts.last()
    }
}

fn part_string(tag: &str, path: &String, mtime: u64) -> (r: String)
    ensures
        r@ == signature_part(tag@, path@, mtime),
{
    let mut out: Vec<char> = Vec::new();
    push_str(&mut out, tag);
    push_str(&mut out, path.as_str());
    push_str(&mut out, "|");
    let d = decimal_chars_u64(mtime);
    let ghost start = out@;
    let mut i: usize = 0;
    while i < d.len()
        invariant
            i <= d@.len(),
            out@ == start + d@.take(i as int),
        decreases d.len() - i,
    {
        out.push(d[i]);
        proof {
            assert(d@.take(i + 1) == d@.take(i as int).push(d@[i as int]));
            assert(start + d@.take(i + 1) == (start + d@.take(i as int)).push(d@[i as int]));
        }
        i += 1;
    }
    proof {
        assert(d@.take(d@.len() as int) =~= d@);
        assert(out@ =~= signature_part(tag@, path@, mtime));
    }
    string_of(out.as_slice())
}

/// The signature of the packed data: for each data root and each type-tree
/// registry, its resolved path and modification time in seconds (0 when
/// unknown), tagged, sorted, and joined by `;`.
pub fn roots_signature(roots: &[(String, u64)], registries: &[(String, u64)]) -> (r: String)
    ensures
        r@ == joined(sort_views(signature_parts(roots@, registries@))),
{
    let mut parts: Vec<String> = Vec::new();
    let mut i: usize = 0;
    while i < roots.len()
        invariant
            i <= roots@.len(),
            strings_view(parts@) == roots@.take(i as int).map_values(
                |e: (String, u64)| signature_part("data:"@, e.0@, e.1),
            ),
        decreases roots.len() - i,
    {
        let ghost before = parts@;
        let part = part_string("data:", &roots[i].0, roots[i].1);
        parts.push(part);
        proof {
            assert(roots@.take(i + 1) =~= roots@.take(i as int).push(roots@[i as int]));
            assert(strings_view(parts@) =~= strings_view(before).push(part@));
            assert(strings_view(parts@) =~= roots@.take(i + 1).map_values(
                |e: (String, u64)| signature_part("data:"@, e.0@, e.1),
            ));
        }
        i += 1;
    }
    let ghost head = strings_view(parts@);
    let mut j: usize = 0;
    while j < registries.len()
        invariant
            j <= registries@.len(),
            strings_view(parts@) == head + registries@.take(j as int).map_values(
                |e: (String, u64)| signature_part("typetree:"@, e.0@, e.1),
            ),
        decreases registries.len() - j,
    {
        let ghost before = parts@;
        let part = part_string("typetree:", &registries[j].0, registries[j].1);
        parts.push(part);
        proof {
            assert(registries@.take(j + 1) =~= registries@.take(j as int).push(registries@[j as int]));
            assert(strings_view(parts@) =~= strings_view(before).push(part@));
            assert(strings_view(parts@) =~= head + registries@.take(j + 1).map_values(
                |e: (String, u64)| signature_part("typetree:"@, e.0@, e.1),
            ));
        }
        j += 1;
    }
    proof {
        assert(roots@.take(roots@.len() as int) =~= roots@);
        assert(registries@.take(registries@.len() as int) =~= registries@);
        assert(strings_view(parts@) =~= signature_parts(roots@, registries@));
    }
    let ghost all = parts@;
    let ordered = sort_strings(parts);
    let mut out: Vec<char> = Vec::new();
    let mut k: usize = 0;
    while k < ordered.len()
        invariant
            k <= ordered@.len(),
            out@ == joined(strings_view(ordered@.take(k as int))),
        decreases ordered.len() - k,
    {
        proof {
            assert(strings_view(ordered@.take(k + 1)).drop_last() =~= strings_view(ordered@.take(k as int)));
            assert(strings_view(ordered@.take(k + 1)).last() == ordered@[k as int]@);
        }
        if k > 0 {
            out.push(';');
        }
        push_str(&mut out, ordered[k].as_str());
        proof {
            if k == 0 {
                assert(strings_view(ordered@.take(0)) =~= Seq::<Seq<char>>::empty());
                assert(out@ =~= ordered@[0]@);
            }
        }
        k += 1;
    }
    proof {
        assert(ordered@.take(ordered@.len() as int) =~= ordered@);
        assert(strings_view(ordered@) =~= ordered@.map_values(|s: String| s@));
        assert(strings_view(all) =~= all.map_values(|s: String| s@));
    }
    string_of(out.as_slice())
}

proof fn lemma_map_values_multiset<A, B>(a: Seq<A>, b: Seq<A>, f: spec_fn(A) -> B)
    requires
        a.to_multiset() == b.to_multiset(),
    ensures
        a.map_values(f).to_multiset() == b.map_values(f).to_multiset(),
    decreases a.len(),
{
    broadcast use vstd::seq_lib::group_to_multiset_ensures;

    vstd::seq_lib::to_multiset_len(a);
    vstd::seq_lib::to_multiset_len(b);
    if a.len() == 0 {
        assert(a.map_values(f) =~= b.map_values(f));
    } else {
        let x = a.last();
        let d = a.drop_last();
        assert(a =~= d.push(x));
        assert(a.contains(x));
        assert(b.to_multiset().count(x) > 0);
        assert(b.contains(x));
        let j = choose|j: int| 0 <= j < b.len() && b[j] == x;
        let e = b.remove(j);
        assert(e.to_multiset() =~= b.to_multiset().remove(x));
        assert(d.to_multiset() =~= a.to_multiset().remove(x));
        lemma_map_values_multiset(d, e, f);
        assert(a.map_values(f) =~= d.map_values(f).push(f(x)));
        assert(e.map_values(f) =~= b.map_values(f).remove(j));
        assert(b.map_values(f)[j] == f(x));
        assert(b.map_values(f).remove(j).to_multiset() =~= b.map_values(f).to_multiset().remove(f(x)));
        assert(b.map_values(f).to_multiset().count(f(x)) > 0) by {
            assert(b.map_values(f).contains(f(x)));
        }
        assert(a.map_values(f).to_multiset() =~= b.map_values(f).to_multiset());
    }
}

/// The signature does not depend on the order in which the data roots and
/// the type-tree registries are given: the same roots and registries in
/// any order give the same signature.
pub proof fn lemma_signature_order_free(
    roots1: Seq<(String, u64)>,
    registries1: Seq<(String, u64)>,
    roots2: Seq<(String, u64)>,
    registries2: Seq<(String, u64)>,
)
    requires
        roots1.to_multiset() == roots2.to_multiset(),
        registries1.to_multiset() == registries2.to_multiset(),
    ensures
        joined(sort_views(signature_parts(roots1, registries1))) == joined(
            sort_views(signature_parts(roots2, registries2)),
        ),
{
    broadcast use vstd::seq_lib::lemma_multiset_commutative;

    let fd = |e: (String, u64)| signature_part("data:"@, e.0@, e.1);
    let ft = |e: (String, u64)| signature_part("typetree:"@, e.0@, e.1);
    lemma_map_values_multiset(roots1, roots2, fd);
    lemma_map_values_multiset(registries1, registries2, ft);
    let p1 = signature_parts(roots1, registries1);
    let p2 = signature_parts(roots2, registries2);
    assert(p1 == roots1.map_values(fd) + registries1.map_values(ft));
    assert(p2 == roots2.map_values(fd) + registries2.map_values(ft));
    assert(p1.to_multiset() =~= p2.to_multiset());
    lemma_sort_views_order_free(p1, p2);
}

/// The cache text written for an index reads back as the same index, when
/// its signature and entries hold no line break and do not end in a
/// carriage return: `to_text` then `load_or_build` with the same signature
/// gives back the signature, names and container paths.
pub proof fn lemma_cache_round_trip(idx: PackedTextureIndex)
    requires
        plain_line(idx.spec_signature()),
        forall|i: int| 0 <= i < idx.spec_names().len() ==> plain_line(#[trigger] idx.spec_names()[i]@),
        forall|i: int| 0 <= i < idx.spec_container_paths().len() ==> plain_line(#[trigger] idx.spec_container_paths()[i]@),
        idx.spec_names().len() <= usize::MAX,
        idx.spec_container_paths().len() <= usize::MAX,
    ensures
        spec_parse_index(
            join_lines(index_lines(idx.spec_signature(), strings_view(idx.spec_names()), strings_view(idx.spec_container_paths()))),
        ) == Some((idx.spec_signature(), strings_view(idx.spec_names()), strings_view(idx.spec_container_paths()))),
{
    let names = strings_view(idx.spec_names());
    let paths = strings_view(idx.spec_container_paths());
    assert forall|i: int| 0 <= i < names.len() implies plain_line(#[trigger] names[i]) by {
        assert(names[i] == idx.spec_names()[i]@);
    }
    assert forall|i: int| 0 <= i < paths.len() implies plain_line(#[trigger] paths[i]) by {
        assert(paths[i] == idx.spec_container_paths()[i]@);
    }
    lemma_index_text_roundtrip(idx.spec_signature(), names, paths);
}

} // verus!
