//! Reading terrain and hair defs from the game's XML def files. Files that
//! are not well-formed XML are skipped; a def without its required fields
//! is skipped; a def read later replaces an earlier one of the same name.
use vstd::prelude::*;

use super::xml::{child_text, child_text_of, is_tag, nodes_view, opt_view, parse_xml, parsed_xml, NodeSeq, XmlNode};

verus! {

/// A terrain def: its name, surface texture and optional edge texture.
#[derive(Debug, Clone, PartialEq, Eq)]
pub struct TerrainDef {
    pub def_name: String,
    pub texture_path: String,
    pub edge_texture_path: Option<String>,
}

/// A hair def: its name and texture.
#[derive(Debug, Clone, PartialEq, Eq)]
pub struct HairDefRender {
    pub def_name: String,
    pub tex_path: String,
}

pub open spec fn or_else(a: Option<Seq<char>>, b: Option<Seq<char>>) -> Option<Seq<char>> {
    match a {
        Some(x) => Some(x),
        None => b,
    }
}

/// The terrain def at node `i`: `defName`, then `texturePath` or else
/// `texPath`, both required; `edgePath` or else `edgeTexturePath`.
pub open spec fn terrain_at(nodes: NodeSeq, i: int) -> Option<(Seq<char>, Seq<char>, Option<Seq<char>>)> {
    match child_text(nodes, i, "defName"@) {
        None => None,
        Some(name) => match or_else(child_text(nodes, i, "texturePath"@), child_text(nodes, i, "texPath"@)) {
            None => None,
            Some(tex) => Some(
                (name, tex, or_else(child_text(nodes, i, "edgePath"@), child_text(nodes, i, "edgeTexturePath"@))),
            ),
        },
    }
}

/// The hair def at node `i`: `defName` and `texPath`, both required.
pub open spec fn hair_at(nodes: NodeSeq, i: int) -> Option<(Seq<char>, Seq<char>)> {
    match (child_text(nodes, i, "defName"@), child_text(nodes, i, "texPath"@)) {
        (Some(name), Some(tex)) => Some((name, tex)),
        _ => None,
    }
}

/// The position of the entry named `name`, or -1.
pub open spec fn named_at<T>(list: Seq<T>, name: Seq<char>, key: spec_fn(T) -> Seq<char>) -> int
    decreases list.len(),
{
    if list.len() == 0 {
        -1
    } else {
        let p = named_at(list.drop_last(), name, key);
        if p >= 0 {
            p
        } else if key(list.last()) == name {
            list.len() - 1
        } else {
            -1
        }
    }
}

/// `list` with `d` in place of the entry of the same name, or `d` added.
pub open spec fn upsert<T>(list: Seq<T>, d: T, key: spec_fn(T) -> Seq<char>) -> Seq<T> {
    let p = named_at(list, key(d), key);
    if p >= 0 {
        list.update(p, d)
    } else {
        list.push(d)
    }
}

pub open spec fn terrain_key() -> spec_fn((Seq<char>, Seq<char>, Option<Seq<char>>)) -> Seq<char> {
    |d: (Seq<char>, Seq<char>, Option<Seq<char>>)| d.0
}

pub open spec fn hair_key() -> spec_fn((Seq<char>, Seq<char>)) -> Seq<char> {
    |d: (Seq<char>, Seq<char>)| d.0
}

/// The terrain defs after reading the first `n` nodes of a document into
/// `list`.
pub open spec fn terrain_scan(
    list: Seq<(Seq<char>, Seq<char>, Option<Seq<char>>)>,
    nodes: NodeSeq,
    n: int,
) -> Seq<(Seq<char>, Seq<char>, Option<Seq<char>>)>
    decreases n,
{
    if n <= 0 {
        list
    } else {
        let before = terrain_scan(list, nodes, n - 1);
        if is_tag(nodes[n - 1], "TerrainDef"@) {
            match terrain_at(nodes, n - 1) {
                Some(d) => upsert(before, d, terrain_key()),
                None => before,
            }
        } else {
            before
        }
    }
}

/// The hair defs after reading the first `n` nodes of a document into
/// `list`.
pub open spec fn hair_scan(list: Seq<(Seq<char>, Seq<char>)>, nodes: NodeSeq, n: int) -> Seq<(Seq<char>, Seq<char>)>
    decreases n,
{
    if n <= 0 {
        list
    } else {
        let before = hair_scan(list, nodes, n - 1);
        if is_tag(nodes[n - 1], "HairDef"@) {
            match hair_at(nodes, n - 1) {
                Some(d) => upsert(before, d, hair_key()),
                None => before,
            }
        } else {
            before
        }
    }
}

/// The terrain defs of the first `k` documents.
pub open spec fn terrain_defs_of(docs: Seq<Seq<char>>, k: int) -> Seq<(Seq<char>, Seq<char>, Option<Seq<char>>)>
    decreases k,
{
    if k <= 0 {
        Seq::empty()
    } else {
        let before = terrain_defs_of(docs, k - 1);
        match parsed_xml(docs[k - 1]) {
            Some(nodes) => terrain_scan(before, nodes, nodes.len() as int),
            None => before,
        }
    }
}

/// The hair defs of the first `k` documents.
pub open spec fn hair_defs_of(docs: Seq<Seq<char>>, k: int) -> Seq<(Seq<char>, Seq<char>)>
    decreases k,
{
    if k <= 0 {
        Seq::empty()
    } else {
        let before = hair_defs_of(docs, k - 1);
        match parsed_xml(docs[k - 1]) {
            Some(nodes) => hair_scan(before, nodes, nodes.len() as int),
            None => before,
        }
    }
}

pub open spec fn terrain_view(d: TerrainDef) -> (Seq<char>, Seq<char>, Option<Seq<char>>) {
    (d.def_name@, d.texture_path@, opt_view(d.edge_texture_path))
}

pub open spec fn hair_view(d: HairDefRender) -> (Seq<char>, Seq<char>) {
    (d.def_name@, d.tex_path@)
}

pub open spec fn terrain_views(s: Seq<TerrainDef>) -> Seq<(Seq<char>, Seq<char>, Option<Seq<char>>)> {
    s.map_values(|t: TerrainDef| terrain_view(t))
}

pub open spec fn hair_views(s: Seq<HairDefRender>) -> Seq<(Seq<char>, Seq<char>)> {
    s.map_values(|t: HairDefRender| hair_view(t))
}

pub open spec fn docs_view(docs: Seq<String>) -> Seq<Seq<char>> {
    docs.map_values(|d: String| d@)
}

fn or_else_exec(a: Option<String>, b: Option<String>) -> (r: Option<String>)
    ensures
        opt_view(r) == or_else(opt_view(a), opt_view(b)),
{
    match a {
        Some(x) => Some(x),
        None => b,
    }
}

fn terrain_at_exec(nodes: &Vec<XmlNode>, i: usize) -> (r: Option<TerrainDef>)
    ensures
        match r {
            Some(d) => terrain_at(nodes_view(nodes@), i as int) == Some(terrain_view(d)),
            None => terrain_at(nodes_view(nodes@), i as int) is None,
        },
{
    let name = child_text_of(nodes, i, "defName");
    match name {
        None => None,
        Some(def_name) => {
            let tex = or_else_exec(child_text_of(nodes, i, "texturePath"), child_text_of(nodes, i, "texPath"));
            match tex {
                None => None,
                Some(texture_path) => {
                    let edge = or_else_exec(child_text_of(nodes, i, "edgePath"), child_text_of(nodes, i, "edgeTexturePath"));
                    Some(TerrainDef { def_name, texture_path, edge_texture_path: edge })
                },
            }
        },
    }
}

fn hair_at_exec(nodes: &Vec<XmlNode>, i: usize) -> (r: Option<HairDefRender>)
    ensures
        match r {
            Some(d) => hair_at(nodes_view(nodes@), i as int) == Some(hair_view(d)),
            None => hair_at(nodes_view(nodes@), i as int) is None,
        },
{
    let name = child_text_of(nodes, i, "defName");
    let tex = child_text_of(nodes, i, "texPath");
    match (name, tex) {
        (Some(def_name), Some(tex_path)) => Some(HairDefRender { def_name, tex_path }),
        _ => None,
    }
}

fn is_element_named(n: &XmlNode, tag: &str) -> (r: bool)
    ensures
        r == is_tag(super::xml::node_view(*n), tag@),
{
    n.element && crate::text::str_eq(n.name.as_str(), tag)
}

proof fn lemma_named_at<T>(list: Seq<T>, name: Seq<char>, key: spec_fn(T) -> Seq<char>, p: int)
    requires
        -1 <= p < list.len(),
        p >= 0 ==> key(list[p]) == name,
        forall|q: int| 0 <= q < list.len() && (p < 0 || q < p) ==> key(#[trigger] list[q]) != name,
    ensures
        named_at(list, name, key) == p,
    decreases list.len(),
{
    if list.len() > 0 {
        let l = list.drop_last();
        if p == list.len() - 1 {
            lemma_named_at(l, name, key, -1);
        } else {
            lemma_named_at(l, name, key, p);
        }
    }
}

fn upsert_terrain(list: &mut Vec<TerrainDef>, d: TerrainDef)
    ensures
        terrain_views(final(list)@) == upsert(
            terrain_views(old(list)@),
            terrain_view(d),
            terrain_key(),
        ),
{
    let ghost before = terrain_views(list@);
    let mut p: usize = 0;
    while p < list.len()
        invariant
            p <= list@.len(),
            before == terrain_views(list@),
            list@ == old(list)@,
            forall|q: int| 0 <= q < p ==> list@[q].def_name@ != d.def_name@,
        decreases list.len() - p,
    {
        if list[p].def_name == d.def_name {
            proof {
                lemma_named_at(before, d.def_name@, terrain_key(), p as int);
                assert(terrain_key()(terrain_view(d)) == d.def_name@);
            }
            let ghost dv = terrain_view(d);
            list.set(p, d);
            proof {
                assert(named_at(before, terrain_key()(dv), terrain_key()) == p as int);
                assert(upsert(before, dv, terrain_key()) == before.update(p as int, dv));
                assert(terrain_views(list@) =~= before.update(p as int, dv));
            }
            return;
        }
        p += 1;
    }
    proof {
        lemma_named_at(before, d.def_name@, terrain_key(), -1);
        assert(terrain_key()(terrain_view(d)) == d.def_name@);
    }
    list.push(d);
    proof {
        assert(terrain_views(list@) =~= before.push(terrain_view(d)));
    }
}

fn upsert_hair(list: &mut Vec<HairDefRender>, d: HairDefRender)
    ensures
        hair_views(final(list)@) == upsert(
            hair_views(old(list)@),
            hair_view(d),
            hair_key(),
        ),
{
    let ghost before = hair_views(list@);
    let mut p: usize = 0;
    while p < list.len()
        invariant
            p <= list@.len(),
            before == hair_views(list@),
            list@ == old(list)@,
            forall|q: int| 0 <= q < p ==> list@[q].def_name@ != d.def_name@,
        decreases list.len() - p,
    {
        if list[p].def_name == d.def_name {
            proof {
                lemma_named_at(before, d.def_name@, hair_key(), p as int);
                assert(hair_key()(hair_view(d)) == d.def_name@);
            }
            let ghost dv = hair_view(d);
            list.set(p, d);
            proof {
                assert(named_at(before, hair_key()(dv), hair_key()) == p as int);
                assert(upsert(before, dv, hair_key()) == before.update(p as int, dv));
                assert(hair_views(list@) =~= before.update(p as int, dv));
            }
            return;
        }
        p += 1;
    }
    proof {
        lemma_named_at(before, d.def_name@, hair_key(), -1);
        assert(hair_key()(hair_view(d)) == d.def_name@);
    }
    list.push(d);
    proof {
        assert(hair_views(list@) =~= before.push(hair_view(d)));
    }
}

/// Reads the terrain defs from the nodes of one parsed document into `out`:
/// each `TerrainDef` element that holds a def replaces the def of its name in
/// `out`, or is appended.
pub fn scan_terrain_nodes(out: &mut Vec<TerrainDef>, nodes: &Vec<XmlNode>)
    ensures
        terrain_views(final(out)@) == terrain_scan(terrain_views(old(out)@), nodes_view(nodes@), nodes@.len() as int),
{
    let ghost start = terrain_views(out@);
    let ghost nv = nodes_view(nodes@);
    let mut i: usize = 0;
    while i < nodes.len()
        invariant
            i <= nodes@.len(),
            nv == nodes_view(nodes@),
            start == terrain_views(old(out)@),
            terrain_views(out@) == terrain_scan(start, nv, i as int),
        decreases nodes.len() - i,
    {
        proof {
            assert(nv[i as int] == super::xml::node_view(nodes@[i as int]));
        }
        if is_element_named(&nodes[i], "TerrainDef") {
            match terrain_at_exec(nodes, i) {
                Some(d) => upsert_terrain(out, d),
                None => {},
            }
        }
        i += 1;
    }
}

/// The terrain defs in the given XML def files, in the order their names
/// were first read.
pub fn load_terrain_defs(documents: &[String]) -> (r: Vec<TerrainDef>)
    ensures
        terrain_views(r@) == terrain_defs_of(docs_view(documents@), documents@.len() as int),
{
    let mut out: Vec<TerrainDef> = Vec::new();
    let mut k: usize = 0;
    while k < documents.len()
        invariant
            k <= documents@.len(),
            terrain_views(out@) == terrain_defs_of(docs_view(documents@), k as int),
        decreases documents.len() - k,
    {
        proof {
            assert(docs_view(documents@)[k as int] == documents@[k as int]@);
        }
        match parse_xml(documents[k].as_str()) {
            None => {},
            Some(nodes) => scan_terrain_nodes(&mut out, &nodes),
        }
        k += 1;
    }
    out
}

/// Reads the hair defs from the nodes of one parsed document into `out`:
/// each `HairDef` element that holds a def replaces the def of its name in
/// `out`, or is appended.
pub fn scan_hair_nodes(out: &mut Vec<HairDefRender>, nodes: &Vec<XmlNode>)
    ensures
        hair_views(final(out)@) == hair_scan(hair_views(old(out)@), nodes_view(nodes@), nodes@.len() as int),
{
    let ghost start = hair_views(out@);
    let ghost nv = nodes_view(nodes@);
    let mut i: usize = 0;
    while i < nodes.len()
        invariant
            i <= nodes@.len(),
            nv == nodes_view(nodes@),
            start == hair_views(old(out)@),
            hair_views(out@) == hair_scan(start, nv, i as int),
        decreases nodes.len() - i,
    {
        proof {
            assert(nv[i as int] == super::xml::node_view(nodes@[i as int]));
        }
        if is_element_named(&nodes[i], "HairDef") {
            match hair_at_exec(nodes, i) {
                Some(d) => upsert_hair(out, d),
                None => {},
            }
        }
        i += 1;
    }
}

/// The hair defs in the given XML def files, in the order their names were
/// first read.
pub fn load_hair_defs(documents: &[String]) -> (r: Vec<HairDefRender>)
    ensures
        hair_views(r@) == hair_defs_of(docs_view(documents@), documents@.len() as int),
{
    let mut out: Vec<HairDefRender> = Vec::new();
    let mut k: usize = 0;
    while k < documents.len()
        invariant
            k <= documents@.len(),
            hair_views(out@) == hair_defs_of(docs_view(documents@), k as int),
        decreases documents.len() - k,
    {
        proof {
            assert(docs_view(documents@)[k as int] == documents@[k as int]@);
        }
        match parse_xml(documents[k].as_str()) {
            None => {},
            Some(nodes) => scan_hair_nodes(&mut out, &nodes),
        }
        k += 1;
    }
    out
}

/// No two entries share a name.
pub open spec fn distinct_names<T>(list: Seq<T>, key: spec_fn(T) -> Seq<char>) -> bool {
    forall|a: int, b: int| 0 <= a < list.len() && 0 <= b < list.len() && a != b ==> key(#[trigger] list[a]) != key(#[trigger] list[b])
}

proof fn lemma_named_at_facts<T>(list: Seq<T>, name: Seq<char>, key: spec_fn(T) -> Seq<char>)
    ensures
        -1 <= named_at(list, name, key) < list.len(),
        named_at(list, name, key) >= 0 ==> key(list[named_at(list, name, key)]) == name,
        named_at(list, name, key) == -1 ==> forall|q: int| 0 <= q < list.len() ==> key(#[trigger] list[q]) != name,
    decreases list.len(),
{
    if list.len() > 0 {
        let l = list.drop_last();
        lemma_named_at_facts(l, name, key);
        assert forall|q: int| 0 <= q < list.len() - 1 implies #[trigger] list[q] == l[q] by {}
    }
}

pub(crate) proof fn lemma_upsert_distinct<T>(list: Seq<T>, d: T, key: spec_fn(T) -> Seq<char>)
    requires
        distinct_names(list, key),
    ensures
        distinct_names(upsert(list, d, key), key),
{
    lemma_named_at_facts(list, key(d), key);
    let p = named_at(list, key(d), key);
    let next = upsert(list, d, key);
    if p >= 0 {
        assert forall|a: int, b: int| 0 <= a < next.len() && 0 <= b < next.len() && a != b implies key(#[trigger] next[a]) != key(#[trigger] next[b]) by {
            if a == p {
                assert(key(list[p]) == key(d));
                assert(next[b] == list[b]);
            } else if b == p {
                assert(next[a] == list[a]);
            } else {
                assert(next[a] == list[a] && next[b] == list[b]);
            }
        }
    } else {
        assert forall|a: int, b: int| 0 <= a < next.len() && 0 <= b < next.len() && a != b implies key(#[trigger] next[a]) != key(#[trigger] next[b]) by {
            if a == list.len() {
                assert(next[b] == list[b]);
            } else if b == list.len() {
                assert(next[a] == list[a]);
            } else {
                assert(next[a] == list[a] && next[b] == list[b]);
            }
        }
    }
}

proof fn lemma_terrain_scan_distinct(list: Seq<(Seq<char>, Seq<char>, Option<Seq<char>>)>, nodes: NodeSeq, n: int)
    requires
        distinct_names(list, terrain_key()),
    ensures
        distinct_names(terrain_scan(list, nodes, n), terrain_key()),
    decreases n,
{
    if n > 0 {
        lemma_terrain_scan_distinct(list, nodes, n - 1);
        let before = terrain_scan(list, nodes, n - 1);
        if is_tag(nodes[n - 1], "TerrainDef"@) {
            match terrain_at(nodes, n - 1) {
                Some(d) => lemma_upsert_distinct(before, d, terrain_key()),
                None => {},
            }
        }
    }
}

proof fn lemma_hair_scan_distinct(list: Seq<(Seq<char>, Seq<char>)>, nodes: NodeSeq, n: int)
    requires
        distinct_names(list, hair_key()),
    ensures
        distinct_names(hair_scan(list, nodes, n), hair_key()),
    decreases n,
{
    if n > 0 {
        lemma_hair_scan_distinct(list, nodes, n - 1);
        let before = hair_scan(list, nodes, n - 1);
        if is_tag(nodes[n - 1], "HairDef"@) {
            match hair_at(nodes, n - 1) {
                Some(d) => lemma_upsert_distinct(before, d, hair_key()),
                None => {},
            }
        }
    }
}

/// Terrain defs read from any files have distinct names: a def read later
/// replaces the earlier one of its name.
pub proof fn lemma_terrain_defs_distinct(docs: Seq<Seq<char>>, k: int)
    ensures
        distinct_names(terrain_defs_of(docs, k), terrain_key()),
    decreases k,
{
    if k > 0 {
        lemma_terrain_defs_distinct(docs, k - 1);
        match parsed_xml(docs[k - 1]) {
            Some(nodes) => lemma_terrain_scan_distinct(terrain_defs_of(docs, k - 1), nodes, nodes.len() as int),
            None => {},
        }
    }
}

/// Hair defs read from any files have distinct names: a def read later
/// replaces the earlier one of its name.
pub proof fn lemma_hair_defs_distinct(docs: Seq<Seq<char>>, k: int)
    ensures
        distinct_names(hair_defs_of(docs, k), hair_key()),
    decreases k,
{
    if k > 0 {
        lemma_hair_defs_distinct(docs, k - 1);
        match parsed_xml(docs[k - 1]) {
            Some(nodes) => lemma_hair_scan_distinct(hair_defs_of(docs, k - 1), nodes, nodes.len() as int),
            None => {},
        }
    }
}

} // verus!
