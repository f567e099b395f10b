//! Which terrain edges are drawn onto which cells. A cell receives one edge
//! fan per distinct neighbouring terrain that draws edges and ranks no lower
//! than its own; the fan records which of the eight neighbours hold that
//! terrain.
use vstd::prelude::*;

use crate::cell::Cell;
use crate::linking::TerrainEdgeType;
use crate::renderer::EdgeType;
use crate::text::{push_str, string_of};

verus! {

/// What edge drawing needs of a terrain def.
#[derive(Debug, Clone)]
pub struct EdgeTerrainDef {
    pub def_name: String,
    pub texture_path: String,
    pub edge_type: TerrainEdgeType,
    pub render_precedence: i32,
    /// The terrain is drawn by the water-depth pass.
    pub water_depth: bool,
}

/// The terrain def name of every cell of a `width` by `height` map, row by
/// row from the south.
#[derive(Debug, Clone)]
pub struct TerrainMap {
    pub width: usize,
    pub height: usize,
    pub cells: Vec<String>,
}

/// One edge fan: the cell it is drawn on, the neighbouring terrain it
/// shows, and which of the eight neighbours hold that terrain (south,
/// south-west, west, north-west, north, north-east, east, south-east).
#[derive(Debug, Clone)]
pub struct TerrainEdgeContribution {
    pub cell: Cell,
    pub neighbor_def_name: String,
    pub neighbor_texture_path: String,
    pub neighbor_matches: [bool; 8],
    pub edge_type: EdgeType,
}

/// The offset of the `k`-th neighbour.
pub open spec fn neighbor_offset(k: int) -> (int, int) {
    if k == 0 {
        (0, -1)
    } else if k == 1 {
        (-1, -1)
    } else if k == 2 {
        (-1, 0)
    } else if k == 3 {
        (-1, 1)
    } else if k == 4 {
        (0, 1)
    } else if k == 5 {
        (1, 1)
    } else if k == 6 {
        (1, 0)
    } else {
        (1, -1)
    }
}

/// The first def, from the `i`-th on, named `name`.
pub open spec fn find_def(defs: Seq<EdgeTerrainDef>, name: Seq<char>, i: int) -> Option<int>
    decreases defs.len() - i,
{
    if i < 0 || i >= defs.len() {
        None
    } else if defs[i].def_name@ == name {
        Some(i)
    } else {
        find_def(defs, name, i + 1)
    }
}

pub open spec fn def_named(defs: Seq<EdgeTerrainDef>, name: Seq<char>) -> Option<int> {
    find_def(defs, name, 0)
}

/// The def name of the cell at `(x, z)`, when it is on the map.
pub open spec fn tile(m: TerrainMap, x: int, z: int) -> Option<Seq<char>> {
    if 0 <= x < m.width && 0 <= z < m.height {
        Some(m.cells@[z * m.width + x]@)
    } else {
        None
    }
}

/// Every cell's terrain has a def.
pub open spec fn all_defined(defs: Seq<EdgeTerrainDef>, m: TerrainMap) -> bool {
    forall|c: int| 0 <= c < m.cells@.len() ==> (#[trigger] def_named(defs, m.cells@[c]@)) is Some
}

/// Terrain `nb` draws an edge onto terrain `own`: they differ, are not
/// both water-depth terrain, `nb` has fading or water edges, and `nb` ranks
/// no lower.
pub open spec fn draws_onto(own: EdgeTerrainDef, nb: EdgeTerrainDef) -> bool {
    &&& nb.def_name@ != own.def_name@
    &&& !(own.water_depth && nb.water_depth)
    &&& (nb.edge_type is FadeRough || nb.edge_type is Water)
    &&& nb.render_precedence >= own.render_precedence
}

/// The position of the entry for def `j`, or -1.
pub open spec fn entry_of(acc: Seq<(int, Seq<bool>)>, j: int) -> int
    decreases acc.len(),
{
    if acc.len() == 0 {
        -1
    } else {
        let p = entry_of(acc.drop_last(), j);
        if p >= 0 {
            p
        } else if acc.last().0 == j {
            acc.len() - 1
        } else {
            -1
        }
    }
}

/// Marks neighbour `k` as holding def `j`.
pub open spec fn mark(acc: Seq<(int, Seq<bool>)>, j: int, k: int) -> Seq<(int, Seq<bool>)> {
    let p = entry_of(acc, j);
    if p >= 0 {
        acc.update(p, (j, acc[p].1.update(k, true)))
    } else {
        acc.push((j, seq![false, false, false, false, false, false, false, false].update(k, true)))
    }
}

/// The fans of cell `(x, z)` after looking at its first `n` neighbours.
pub open spec fn cell_fans(defs: Seq<EdgeTerrainDef>, m: TerrainMap, x: int, z: int, n: int) -> Seq<(int, Seq<bool>)>
    decreases n,
{
    if n <= 0 {
        Seq::empty()
    } else {
        let acc = cell_fans(defs, m, x, z, n - 1);
        let k = n - 1;
        let own = def_named(defs, m.cells@[z * m.width + x]@);
        let (dx, dz) = neighbor_offset(k);
        match tile(m, x + dx, z + dz) {
            None => acc,
            Some(name) => match (own, def_named(defs, name)) {
                (Some(i), Some(j)) => if draws_onto(defs[i], defs[j]) {
                    mark(acc, j, k)
                } else {
                    acc
                },
                _ => acc,
            },
        }
    }
}

pub open spec fn edge_of(t: TerrainEdgeType) -> EdgeType {
    if t is Water {
        EdgeType::Water
    } else {
        EdgeType::FadeRough
    }
}

/// What a fan shows: cell, terrain name, texture, matches, edge kind.
pub open spec fn fan_view(defs: Seq<EdgeTerrainDef>, x: int, z: int, a: (int, Seq<bool>)) -> (
    int,
    int,
    Seq<char>,
    Seq<char>,
    Seq<bool>,
    EdgeType,
) {
    (x, z, defs[a.0].def_name@, defs[a.0].texture_path@, a.1, edge_of(defs[a.0].edge_type))
}

pub open spec fn contribution_view(c: TerrainEdgeContribution) -> (int, int, Seq<char>, Seq<char>, Seq<bool>, EdgeType) {
    (c.cell.x as int, c.cell.z as int, c.neighbor_def_name@, c.neighbor_texture_path@, c.neighbor_matches@, c.edge_type)
}

/// The fans of the first `c` cells, row by row from the south.
pub open spec fn fans_upto(defs: Seq<EdgeTerrainDef>, m: TerrainMap, c: int) -> Seq<(int, int, Seq<char>, Seq<char>, Seq<bool>, EdgeType)>
    decreases c,
{
    if c <= 0 || m.width == 0 {
        Seq::empty()
    } else {
        let x = (c - 1) % (m.width as int);
        let z = (c - 1) / (m.width as int);
        fans_upto(defs, m, c - 1) + cell_fans(defs, m, x, z, 8).map_values(|a: (int, Seq<bool>)| fan_view(defs, x, z, a))
    }
}

/// `missing TerrainDef 'name'`.
/// The first of the first `n` neighbours of cell `(x, z)` whose terrain has
/// no def.
pub open spec fn missing_neighbor(defs: Seq<EdgeTerrainDef>, m: TerrainMap, x: int, z: int, n: int) -> Option<Seq<char>>
    decreases n,
{
    if n <= 0 {
        None
    } else {
        let before = missing_neighbor(defs, m, x, z, n - 1);
        if before is Some {
            before
        } else {
            let (dx, dz) = neighbor_offset(n - 1);
            match tile(m, x + dx, z + dz) {
                Some(name) => if def_named(defs, name) is None {
                    Some(name)
                } else {
                    None
                },
                None => None,
            }
        }
    }
}

/// The terrain with no def that the scan meets at cell `c`: the cell's own,
/// else the first neighbour's.
pub open spec fn missing_at(defs: Seq<EdgeTerrainDef>, m: TerrainMap, c: int) -> Option<Seq<char>> {
    if def_named(defs, m.cells@[c]@) is None {
        Some(m.cells@[c]@)
    } else {
        missing_neighbor(defs, m, c % (m.width as int), c / (m.width as int), 8)
    }
}

/// The terrain with no def that the scan meets first, from cell `c` on.
pub open spec fn first_missing(defs: Seq<EdgeTerrainDef>, m: TerrainMap, c: int) -> Option<Seq<char>>
    decreases m.cells@.len() - c,
{
    if c < 0 || c >= m.cells@.len() {
        None
    } else {
        match missing_at(defs, m, c) {
            Some(n) => Some(n),
            None => first_missing(defs, m, c + 1),
        }
    }
}

proof fn lemma_missing_neighbor_stays(defs: Seq<EdgeTerrainDef>, m: TerrainMap, x: int, z: int, n: int, k: int)
    requires
        0 <= n <= k,
        missing_neighbor(defs, m, x, z, n) is Some,
    ensures
        missing_neighbor(defs, m, x, z, k) == missing_neighbor(defs, m, x, z, n),
    decreases k - n,
{
    if k > n {
        lemma_missing_neighbor_stays(defs, m, x, z, n, k - 1);
    }
}

pub open spec fn missing_def_text(name: Seq<char>) -> Seq<char> {
    "missing TerrainDef '"@ + name + "'"@
}

fn find_def_exec(defs: &Vec<EdgeTerrainDef>, name: &String) -> (r: Option<usize>)
    ensures
        match r {
            Some(i) => def_named(defs@, name@) == Some(i as int),
            None => def_named(defs@, name@) is None,
        },
{
    let mut i: usize = 0;
    while i < defs.len()
        invariant
            i <= defs@.len(),
            def_named(defs@, name@) == find_def(defs@, name@, i as int),
        decreases defs.len() - i,
    {
        if defs[i].def_name == *name {
            return Some(i);
        }
        i += 1;
    }
    None
}

fn missing_def_message(name: &String) -> (r: String)
    ensures
        r@ == missing_def_text(name@),
{
    let mut out: Vec<char> = Vec::new();
    push_str(&mut out, "missing TerrainDef '");
    push_str(&mut out, name.as_str());
    push_str(&mut out, "'");
    proof {
        assert(out@ =~= missing_def_text(name@));
    }
    string_of(out.as_slice())
}

fn neighbor_offset_exec(k: usize) -> (r: (i64, i64))
    requires
        k < 8,
    ensures
        (r.0 as int, r.1 as int) == neighbor_offset(k as int),
{
    if k == 0 {
        (0, -1)
    } else if k == 1 {
        (-1, -1)
    } else if k == 2 {
        (-1, 0)
    } else if k == 3 {
        (-1, 1)
    } else if k == 4 {
        (0, 1)
    } else if k == 5 {
        (1, 1)
    } else if k == 6 {
        (1, 0)
    } else {
        (1, -1)
    }
}

fn entry_of_exec(acc: &Vec<(usize, Vec<bool>)>, j: usize) -> (r: Option<usize>)
    ensures
        match r {
            Some(p) => entry_of(acc_view(acc@), j as int) == p as int,
            None => entry_of(acc_view(acc@), j as int) == -1,
        },
{
    let mut p: usize = 0;
    while p < acc.len()
        invariant
            p <= acc@.len(),
            forall|q: int| 0 <= q < p ==> acc@[q].0 != j,
        decreases acc.len() - p,
    {
        if acc[p].0 == j {
            proof {
                lemma_entry_of_first(acc_view(acc@), j as int, p as int);
            }
            return Some(p);
        }
        p += 1;
    }
    proof {
        lemma_entry_of_absent(acc_view(acc@), j as int);
    }
    None
}

pub open spec fn acc_view(acc: Seq<(usize, Vec<bool>)>) -> Seq<(int, Seq<bool>)> {
    acc.map_values(|e: (usize, Vec<bool>)| (e.0 as int, e.1@))
}

proof fn lemma_entry_of_first(acc: Seq<(int, Seq<bool>)>, j: int, p: int)
    requires
        0 <= p < acc.len(),
        acc[p].0 == j,
        forall|q: int| 0 <= q < p ==> acc[q].0 != j,
    ensures
        entry_of(acc, j) == p,
    decreases acc.len(),
{
    if p < acc.len() - 1 {
        lemma_entry_of_first(acc.drop_last(), j, p);
    } else {
        lemma_entry_of_absent(acc.drop_last(), j);
    }
}

proof fn lemma_entry_of_absent(acc: Seq<(int, Seq<bool>)>, j: int)
    requires
        forall|q: int| 0 <= q < acc.len() ==> acc[q].0 != j,
    ensures
        entry_of(acc, j) == -1,
    decreases acc.len(),
{
    if acc.len() > 0 {
        lemma_entry_of_absent(acc.drop_last(), j);
    }
}

proof fn lemma_entry_of_range(acc: Seq<(int, Seq<bool>)>, j: int)
    ensures
        -1 <= entry_of(acc, j) < acc.len(),
        entry_of(acc, j) >= 0 ==> acc[entry_of(acc, j)].0 == j,
    decreases acc.len(),
{
    if acc.len() > 0 {
        lemma_entry_of_range(acc.drop_last(), j);
    }
}

/// The edge fans drawn on cell `(x, z)`, given the def of its own terrain.
fn cell_fan_list(
    defs: &Vec<EdgeTerrainDef>,
    m: &TerrainMap,
    x: usize,
    z: usize,
    own: usize,
) -> (r: Result<Vec<(usize, Vec<bool>)>, String>)
    requires
        m.cells@.len() == m.width * m.height,
        x < m.width <= i32::MAX,
        z < m.height <= i32::MAX,
        def_named(defs@, m.cells@[z * m.width + x]@) == Some(own as int),
    ensures
        match r {
            Ok(acc) => acc_view(acc@) == cell_fans(defs@, *m, x as int, z as int, 8) && (forall|e: int|
                0 <= e < acc@.len() ==> acc@[e].0 < defs@.len() && (#[trigger] acc@[e]).1@.len() == 8)
                && missing_neighbor(defs@, *m, x as int, z as int, 8) is None,
            Err(msg) => !all_defined(defs@, *m) && (missing_neighbor(defs@, *m, x as int, z as int, 8) matches Some(n)
                && msg@ == missing_def_text(n)),
        },
{
    proof {
        lemma_find_def_range(defs@, m.cells@[z * m.width + x]@, 0);
    }
    let mut acc: Vec<(usize, Vec<bool>)> = Vec::new();
    let mut k: usize = 0;
    while k < 8
        invariant
            k <= 8,
            m.cells@.len() == m.width * m.height,
            x < m.width <= i32::MAX,
            z < m.height <= i32::MAX,
            def_named(defs@, m.cells@[z * m.width + x]@) == Some(own as int),
            own < defs@.len(),
            acc_view(acc@) == cell_fans(defs@, *m, x as int, z as int, k as int),
            forall|e: int| 0 <= e < acc@.len() ==> acc@[e].0 < defs@.len() && (#[trigger] acc@[e]).1@.len() == 8,
            missing_neighbor(defs@, *m, x as int, z as int, k as int) is None,
        decreases 8 - k,
    {
        let (dx, dz) = neighbor_offset_exec(k);
        let nx: i64 = x as i64 + dx;
        let nz: i64 = z as i64 + dz;
        if nx >= 0 && nz >= 0 && nx < m.width as i64 && nz < m.height as i64 {
            let nxu = nx as usize;
            let nzu = nz as usize;
            let total = m.cells.len();
            proof {
                assert(total == m.width * m.height);
                assert(nzu * m.width + nxu < m.width * m.height) by (nonlinear_arith)
                    requires
                        nxu < m.width,
                        nzu < m.height,
                ;
                assert(nzu * m.width <= nzu * m.width + nxu);
            }
            let idx = nzu * m.width + nxu;
            let name = &m.cells[idx];
            match find_def_exec(defs, name) {
                None => {
                    proof {
                        assert(!all_defined(defs@, *m)) by {
                            assert(def_named(defs@, m.cells@[idx as int]@) is None);
                        }
                        assert(tile(*m, x + neighbor_offset(k as int).0, z + neighbor_offset(k as int).1) == Some(name@));
                        assert(missing_neighbor(defs@, *m, x as int, z as int, k + 1) == Some(name@));
                        lemma_missing_neighbor_stays(defs@, *m, x as int, z as int, k + 1, 8);
                    }
                    return Err(missing_def_message(name));
                },
                Some(j) => {
                    proof {
                        lemma_find_def_range(defs@, name@, 0);
                    }
                    let nb = &defs[j];
                    let me = &defs[own];
                    let draws = nb.def_name != me.def_name && !(me.water_depth && nb.water_depth)
                        && (matches!(nb.edge_type, TerrainEdgeType::FadeRough) || matches!(nb.edge_type, TerrainEdgeType::Water))
                        && nb.render_precedence >= me.render_precedence;
                    if draws {
                        let ghost before = acc@;
                        proof {
                            lemma_entry_of_range(acc_view(acc@), j as int);
                        }
                        match entry_of_exec(&acc, j) {
                            Some(p) => {
                                let mut entry = acc.remove(p);
                                entry.1.set(k, true);
                                acc.insert(p, entry);
                                proof {
                                    assert(acc_view(acc@) =~= mark(acc_view(before), j as int, k as int));
                                }
                            },
                            None => {
                                let mut matches = vec![false, false, false, false, false, false, false, false];
                                matches.set(k, true);
                                acc.push((j, matches));
                                proof {
                                    assert(acc_view(acc@) =~= mark(acc_view(before), j as int, k as int));
                                }
                            },
                        }
                    }
                },
            }
        }
        k += 1;
    }
    Ok(acc)
}

proof fn lemma_find_def_range(defs: Seq<EdgeTerrainDef>, name: Seq<char>, i: int)
    ensures
        find_def(defs, name, i) matches Some(j) ==> 0 <= j < defs.len() && defs[j].def_name@ == name,
    decreases defs.len() - i,
{
    if 0 <= i < defs.len() && defs[i].def_name@ != name {
        lemma_find_def_range(defs, name, i + 1);
    }
}

fn fan_of(defs: &Vec<EdgeTerrainDef>, x: usize, z: usize, entry: &(usize, Vec<bool>)) -> (r: TerrainEdgeContribution)
    requires
        entry.0 < defs@.len(),
        entry.1@.len() == 8,
        x <= i32::MAX,
        z <= i32::MAX,
    ensures
        contribution_view(r) == fan_view(defs@, x as int, z as int, (entry.0 as int, entry.1@)),
{
    let d = &defs[entry.0];
    let m = &entry.1;
    let matches: [bool; 8] = [m[0], m[1], m[2], m[3], m[4], m[5], m[6], m[7]];
    proof {
        assert(matches@ =~= m@);
    }
    let edge_type = match d.edge_type {
        TerrainEdgeType::Water => EdgeType::Water,
        _ => EdgeType::FadeRough,
    };
    TerrainEdgeContribution {
        cell: Cell::new(x as i32, z as i32),
        neighbor_def_name: d.def_name.clone(),
        neighbor_texture_path: d.texture_path.clone(),
        neighbor_matches: matches,
        edge_type,
    }
}

/// The edge fans of every cell, row by row from the south, each cell's in
/// the order its neighbouring terrains were first met. Fails when some
/// cell's terrain has no def, naming the first such terrain the scan meets:
/// a cell's own before its neighbours', the neighbours in turn.
pub fn compute_terrain_edge_contributions(defs: &Vec<EdgeTerrainDef>, map: &TerrainMap) -> (r: Result<Vec<TerrainEdgeContribution>, String>)
    requires
        map.cells@.len() == map.width * map.height,
        map.width <= i32::MAX,
        map.height <= i32::MAX,
    ensures
        r is Ok <==> all_defined(defs@, *map),
        r matches Ok(v) ==> v@.map_values(|c: TerrainEdgeContribution| contribution_view(c)) == fans_upto(
            defs@,
            *map,
            map.cells@.len() as int,
        ),
        r matches Err(msg) ==> first_missing(defs@, *map, 0) matches Some(n) && msg@ == missing_def_text(n),
{
    let mut out: Vec<TerrainEdgeContribution> = Vec::new();
    let total = map.cells.len();
    let mut c: usize = 0;
    while c < total
        invariant
            total == map.cells@.len(),
            map.cells@.len() == map.width * map.height,
            map.width <= i32::MAX,
            map.height <= i32::MAX,
            c <= total,
            out@.map_values(|t: TerrainEdgeContribution| contribution_view(t)) == fans_upto(defs@, *map, c as int),
            forall|d: int| 0 <= d < c ==> (#[trigger] def_named(defs@, map.cells@[d]@)) is Some,
            first_missing(defs@, *map, 0) == first_missing(defs@, *map, c as int),
        decreases total - c,
    {
        let w = map.width;
        proof {
            assert(w > 0) by (nonlinear_arith)
                requires
                    c < total,
                    total == map.width * map.height,
                    w == map.width,
            ;
        }
        let x = c % w;
        let z = c / w;
        proof {
            assert(c == z * w + x && x < w && z < map.height) by (nonlinear_arith)
                requires
                    c < map.width * map.height,
                    w == map.width,
                    w > 0,
                    x == c % w,
                    z == c / w,
            ;
        }
        let own = match find_def_exec(defs, &map.cells[c]) {
            Some(i) => i,
            None => {
                proof {
                    assert(def_named(defs@, map.cells@[c as int]@) is None);
                }
                return Err(missing_def_message(&map.cells[c]));
            },
        };
        let fans = match cell_fan_list(defs, map, x, z, own) {
            Ok(f) => f,
            Err(msg) => {
                return Err(msg);
            },
        };
        proof {
            assert(missing_at(defs@, *map, c as int) is None);
        }
        let ghost before = out@.map_values(|t: TerrainEdgeContribution| contribution_view(t));
        let ghost fan_seq = cell_fans(defs@, *map, x as int, z as int, 8).map_values(
            |a: (int, Seq<bool>)| fan_view(defs@, x as int, z as int, a),
        );
        let mut e: usize = 0;
        while e < fans.len()
            invariant
                e <= fans@.len(),
                x <= i32::MAX,
                z <= i32::MAX,
                acc_view(fans@) == cell_fans(defs@, *map, x as int, z as int, 8),
                forall|q: int| 0 <= q < fans@.len() ==> fans@[q].0 < defs@.len() && (#[trigger] fans@[q]).1@.len() == 8,
                fan_seq == cell_fans(defs@, *map, x as int, z as int, 8).map_values(
                    |a: (int, Seq<bool>)| fan_view(defs@, x as int, z as int, a),
                ),
                out@.map_values(|t: TerrainEdgeContribution| contribution_view(t)) == before + fan_seq.take(e as int),
            decreases fans.len() - e,
        {
            let ghost prev = out@;
            let f = fan_of(defs, x, z, &fans[e]);
            out.push(f);
            proof {
                assert(acc_view(fans@)[e as int] == (fans@[e as int].0 as int, fans@[e as int].1@));
                assert(fan_seq[e as int] == contribution_view(f));
                assert(fan_seq.take(e + 1) =~= fan_seq.take(e as int).push(fan_seq[e as int]));
                assert(out@.map_values(|t: TerrainEdgeContribution| contribution_view(t)) =~= prev.map_values(
                    |t: TerrainEdgeContribution| contribution_view(t),
                ).push(contribution_view(f)));
            }
            e += 1;
        }
        proof {
            assert(fan_seq.len() == fans@.len());
            assert(fan_seq.take(fan_seq.len() as int) =~= fan_seq);
            assert((c + 1 - 1) % (map.width as int) == x as int);
            assert((c + 1 - 1) / (map.width as int) == z as int);
            assert(first_missing(defs@, *map, c as int) == first_missing(defs@, *map, c + 1));
        }
        c += 1;
    }
    proof {
        assert forall|d: int| 0 <= d < map.cells@.len() implies (#[trigger] def_named(defs@, map.cells@[d]@)) is Some by {}
    }
    Ok(out)
}

proof fn lemma_find_def_first(defs: Seq<EdgeTerrainDef>, name: Seq<char>, i: int, j: int)
    requires
        0 <= i,
        find_def(defs, name, i) == Some(j),
    ensures
        i <= j < defs.len(),
        defs[j].def_name@ == name,
        forall|q: int| i <= q < j ==> (#[trigger] defs[q]).def_name@ != name,
    decreases defs.len() - i,
{
    if i < defs.len() && defs[i].def_name@ != name {
        lemma_find_def_first(defs, name, i + 1, j);
    }
}

proof fn lemma_entry_of_none(acc: Seq<(int, Seq<bool>)>, j: int)
    requires
        entry_of(acc, j) == -1,
    ensures
        forall|q: int| 0 <= q < acc.len() ==> (#[trigger] acc[q]).0 != j,
    decreases acc.len(),
{
    if acc.len() > 0 {
        let p = entry_of(acc.drop_last(), j);
        lemma_entry_of_range(acc.drop_last(), j);
        lemma_entry_of_none(acc.drop_last(), j);
        assert forall|q: int| 0 <= q < acc.len() implies (#[trigger] acc[q]).0 != j by {
            if q < acc.len() - 1 {
                assert(acc[q] == acc.drop_last()[q]);
            }
        }
    }
}

/// Some of the first `n` entries is set.
pub open spec fn has_mark(s: Seq<bool>, n: int) -> bool {
    exists|k: int| 0 <= k < n && s[k]
}

/// What holds of the fans of a cell after its first `n` neighbours.
pub open spec fn fans_well_shaped(defs: Seq<EdgeTerrainDef>, own: int, f: Seq<(int, Seq<bool>)>, n: int) -> bool {
    &&& forall|e: int| 0 <= e < f.len() ==> 0 <= (#[trigger] f[e]).0 < defs.len()
    &&& forall|e: int| 0 <= e < f.len() ==> (#[trigger] f[e]).1.len() == 8
    &&& forall|e: int| 0 <= e < f.len() ==> has_mark((#[trigger] f[e]).1, n)
    &&& forall|e: int| 0 <= e < f.len() ==> draws_onto(defs[own], defs[(#[trigger] f[e]).0])
    &&& forall|e: int| 0 <= e < f.len() ==> def_named(defs, defs[(#[trigger] f[e]).0].def_name@) == Some(f[e].0)
    &&& forall|a: int, b: int| 0 <= a < f.len() && 0 <= b < f.len() && a != b ==> (#[trigger] f[a]).0 != (#[trigger] f[b]).0
}

proof fn lemma_fans_step(defs: Seq<EdgeTerrainDef>, m: TerrainMap, x: int, z: int, n: int, own: int)
    requires
        0 <= n < 8,
        def_named(defs, m.cells@[z * m.width + x]@) == Some(own),
        0 <= own < defs.len(),
        fans_well_shaped(defs, own, cell_fans(defs, m, x, z, n), n),
    ensures
        fans_well_shaped(defs, own, cell_fans(defs, m, x, z, n + 1), n + 1),
{
    let acc = cell_fans(defs, m, x, z, n);
    let k = n;
    let (dx, dz) = neighbor_offset(k);
    assert forall|e: int| 0 <= e < acc.len() implies has_mark((#[trigger] acc[e]).1, n + 1) by {
        assert(has_mark(acc[e].1, n));
        let q = choose|q: int| 0 <= q < n && acc[e].1[q];
        assert(0 <= q < n + 1 && acc[e].1[q]);
    }
    match tile(m, x + dx, z + dz) {
        None => {},
        Some(name) => match def_named(defs, name) {
            Some(j) => if draws_onto(defs[own], defs[j]) {
                lemma_find_def_first(defs, name, 0, j);
                assert(def_named(defs, defs[j].def_name@) == Some(j));
                lemma_entry_of_range(acc, j);
                let p = entry_of(acc, j);
                let next = mark(acc, j, k);
                if p >= 0 {
                    assert forall|e: int| 0 <= e < next.len() implies has_mark((#[trigger] next[e]).1, n + 1) by {
                        if e == p {
                            assert(acc[p].1.len() == 8);
                            assert(next[e].1 == acc[p].1.update(k, true));
                            assert(next[e].1[k]);
                        } else {
                            assert(next[e] == acc[e]);
                            assert(has_mark(acc[e].1, n + 1));
                        }
                    }
                    assert forall|a: int, b: int| 0 <= a < next.len() && 0 <= b < next.len() && a != b implies (#[trigger] next[a]).0 != (#[trigger] next[b]).0 by {
                        assert(next[a].0 == acc[a].0 && next[b].0 == acc[b].0);
                    }
                    assert forall|e: int| 0 <= e < next.len() implies {
                        &&& 0 <= (#[trigger] next[e]).0 < defs.len()
                        &&& next[e].1.len() == 8
                        &&& draws_onto(defs[own], defs[next[e].0])
                        &&& def_named(defs, defs[next[e].0].def_name@) == Some(next[e].0)
                    } by {
                        if e != p {
                            assert(next[e] == acc[e]);
                        }
                    }
                    assert(forall|e: int| 0 <= e < next.len() ==> 0 <= (#[trigger] next[e]).0 < defs.len());
                    assert(forall|e: int| 0 <= e < next.len() ==> (#[trigger] next[e]).1.len() == 8);
                    assert(forall|e: int| 0 <= e < next.len() ==> draws_onto(defs[own], defs[(#[trigger] next[e]).0]));
                    assert(forall|e: int| 0 <= e < next.len() ==> def_named(defs, defs[(#[trigger] next[e]).0].def_name@) == Some(next[e].0));
                    assert(forall|a: int, b: int| 0 <= a < next.len() && 0 <= b < next.len() && a != b ==> (#[trigger] next[a]).0 != (#[trigger] next[b]).0);
                    assert(fans_well_shaped(defs, own, next, n + 1));
                } else {
                    lemma_entry_of_none(acc, j);
                    let fresh = seq![false, false, false, false, false, false, false, false].update(k, true);
                    assert(next == acc.push((j, fresh)));
                    assert forall|e: int| 0 <= e < next.len() implies has_mark((#[trigger] next[e]).1, n + 1) by {
                        if e == acc.len() {
                            assert(next[e].1[k]);
                        } else {
                            assert(next[e] == acc[e]);
                            assert(has_mark(acc[e].1, n + 1));
                        }
                    }
                    assert forall|a: int, b: int| 0 <= a < next.len() && 0 <= b < next.len() && a != b implies (#[trigger] next[a]).0 != (#[trigger] next[b]).0 by {
                        if a == acc.len() {
                            assert(acc[b].0 != j);
                        } else if b == acc.len() {
                            assert(acc[a].0 != j);
                        } else {
                            assert(next[a] == acc[a] && next[b] == acc[b]);
                        }
                    }
                    assert forall|e: int| 0 <= e < next.len() implies def_named(defs, defs[(#[trigger] next[e]).0].def_name@) == Some(next[e].0) by {
                        if e < acc.len() {
                            assert(next[e] == acc[e]);
                        }
                    }
                    assert(fans_well_shaped(defs, own, next, n + 1));
                }
            } else {
            },
            None => {},
        },
    }
}

/// The def of neighbour `k` of cell `(x, z)`, when it is on the map and its
/// terrain has one.
pub open spec fn neighbor_def(defs: Seq<EdgeTerrainDef>, m: TerrainMap, x: int, z: int, k: int) -> Option<int> {
    let (dx, dz) = neighbor_offset(k);
    match tile(m, x + dx, z + dz) {
        Some(name) => def_named(defs, name),
        None => None,
    }
}

/// The fans after the first `n` neighbours, as sets: a fan marks exactly
/// the neighbours looked at that hold its terrain, and every terrain held
/// by such a neighbour that draws onto the cell's own has a fan.
pub open spec fn fans_exact(
    defs: Seq<EdgeTerrainDef>,
    m: TerrainMap,
    x: int,
    z: int,
    own: int,
    f: Seq<(int, Seq<bool>)>,
    n: int,
) -> bool {
    &&& forall|e: int, k: int|
        0 <= e < f.len() && 0 <= k < 8 ==> ((#[trigger] f[e]).1[k] <==> (k < n && #[trigger] neighbor_def(
            defs,
            m,
            x,
            z,
            k,
        ) == Some(f[e].0)))
    &&& forall|k: int|
        0 <= k < n && (#[trigger] neighbor_def(defs, m, x, z, k)) is Some && draws_onto(
            defs[own],
            defs[neighbor_def(defs, m, x, z, k)->0],
        ) ==> exists|e: int| 0 <= e < f.len() && (#[trigger] f[e]).0 == neighbor_def(defs, m, x, z, k)->0
}

proof fn lemma_fans_exact_step(defs: Seq<EdgeTerrainDef>, m: TerrainMap, x: int, z: int, n: int, own: int)
    requires
        0 <= n < 8,
        def_named(defs, m.cells@[z * m.width + x]@) == Some(own),
        0 <= own < defs.len(),
        fans_well_shaped(defs, own, cell_fans(defs, m, x, z, n), n),
        fans_exact(defs, m, x, z, own, cell_fans(defs, m, x, z, n), n),
    ensures
        fans_exact(defs, m, x, z, own, cell_fans(defs, m, x, z, n + 1), n + 1),
{
    let acc = cell_fans(defs, m, x, z, n);
    let next = cell_fans(defs, m, x, z, n + 1);
    let nd = neighbor_def(defs, m, x, z, n);
    let (dx, dz) = neighbor_offset(n);
    let qualifies = nd is Some && draws_onto(defs[own], defs[nd->0]);
    if !qualifies {
        assert(next == acc);
        assert forall|e: int, k: int| 0 <= e < next.len() && 0 <= k < 8 implies ((#[trigger] next[e]).1[k] <==> (k
            < n + 1 && #[trigger] neighbor_def(defs, m, x, z, k) == Some(next[e].0))) by {
            if k == n {
                assert(draws_onto(defs[own], defs[acc[e].0]));
            }
        }
    } else {
        let j = nd->0;
        assert(next == mark(acc, j, n));
        lemma_entry_of_range(acc, j);
        let p = entry_of(acc, j);
        if p >= 0 {
            assert(acc[p].0 == j);
            assert forall|e: int, k: int| 0 <= e < next.len() && 0 <= k < 8 implies ((#[trigger] next[e]).1[k] <==> (k
                < n + 1 && #[trigger] neighbor_def(defs, m, x, z, k) == Some(next[e].0))) by {
                if e == p {
                    assert(next[e] == (j, acc[p].1.update(n, true)));
                    assert(acc[p].1.len() == 8);
                    if k != n {
                        assert(next[e].1[k] == acc[p].1[k]);
                        assert(acc[p].1[k] <==> (k < n && neighbor_def(defs, m, x, z, k) == Some(acc[p].0)));
                    }
                } else {
                    assert(next[e] == acc[e]);
                    assert(acc[e].0 != acc[p].0);
                    assert(acc[e].1[k] <==> (k < n && neighbor_def(defs, m, x, z, k) == Some(acc[e].0)));
                }
            }
            assert forall|k: int|
                0 <= k < n + 1 && (#[trigger] neighbor_def(defs, m, x, z, k)) is Some && draws_onto(
                    defs[own],
                    defs[neighbor_def(defs, m, x, z, k)->0],
                ) implies exists|e: int| 0 <= e < next.len() && (#[trigger] next[e]).0 == neighbor_def(
                    defs,
                    m,
                    x,
                    z,
                    k,
                )->0 by {
                let i = neighbor_def(defs, m, x, z, k)->0;
                if k == n {
                    assert(next[p].0 == j);
                } else {
                    let e = choose|e: int| 0 <= e < acc.len() && (#[trigger] acc[e]).0 == i;
                    assert(next[e].0 == acc[e].0);
                }
            }
        } else {
            lemma_entry_of_none(acc, j);
            let fresh = seq![false, false, false, false, false, false, false, false].update(n, true);
            assert(next == acc.push((j, fresh)));
            assert forall|e: int, k: int| 0 <= e < next.len() && 0 <= k < 8 implies ((#[trigger] next[e]).1[k] <==> (k
                < n + 1 && #[trigger] neighbor_def(defs, m, x, z, k) == Some(next[e].0))) by {
                if e == acc.len() {
                    assert(next[e] == (j, fresh));
                    if k < n && neighbor_def(defs, m, x, z, k) == Some(j) {
                        let w = choose|w: int| 0 <= w < acc.len() && (#[trigger] acc[w]).0 == j;
                        assert(acc[w].0 != j);
                    }
                } else {
                    assert(next[e] == acc[e]);
                    assert(acc[e].0 != j);
                    assert(acc[e].1[k] <==> (k < n && neighbor_def(defs, m, x, z, k) == Some(acc[e].0)));
                }
            }
            assert forall|k: int|
                0 <= k < n + 1 && (#[trigger] neighbor_def(defs, m, x, z, k)) is Some && draws_onto(
                    defs[own],
                    defs[neighbor_def(defs, m, x, z, k)->0],
                ) implies exists|e: int| 0 <= e < next.len() && (#[trigger] next[e]).0 == neighbor_def(
                    defs,
                    m,
                    x,
                    z,
                    k,
                )->0 by {
                let i = neighbor_def(defs, m, x, z, k)->0;
                if k == n {
                    assert(next[acc.len() as int].0 == j);
                } else {
                    let e = choose|e: int| 0 <= e < acc.len() && (#[trigger] acc[e]).0 == i;
                    assert(next[e] == acc[e]);
                }
            }
        }
    }
}

proof fn lemma_fans_exact_upto(defs: Seq<EdgeTerrainDef>, m: TerrainMap, x: int, z: int, n: int, own: int)
    requires
        0 <= n <= 8,
        def_named(defs, m.cells@[z * m.width + x]@) == Some(own),
        0 <= own < defs.len(),
    ensures
        fans_exact(defs, m, x, z, own, cell_fans(defs, m, x, z, n), n),
    decreases n,
{
    if n > 0 {
        lemma_fans_exact_upto(defs, m, x, z, n - 1, own);
        lemma_fans_upto(defs, m, x, z, n - 1, own);
        lemma_fans_exact_step(defs, m, x, z, n - 1, own);
    }
}

proof fn lemma_fans_upto(defs: Seq<EdgeTerrainDef>, m: TerrainMap, x: int, z: int, n: int, own: int)
    requires
        0 <= n <= 8,
        def_named(defs, m.cells@[z * m.width + x]@) == Some(own),
        0 <= own < defs.len(),
    ensures
        fans_well_shaped(defs, own, cell_fans(defs, m, x, z, n), n),
    decreases n,
{
    if n > 0 {
        lemma_fans_upto(defs, m, x, z, n - 1, own);
        lemma_fans_step(defs, m, x, z, n - 1, own);
    }
}

/// The fans drawn on a cell whose terrain has a def: each shows a terrain
/// that draws onto the cell's own (another terrain, not both water, with
/// fading or water edges, ranking no lower), marks at least one neighbour,
/// and no two show the same terrain; a fan marks exactly the neighbours
/// holding its terrain, and every terrain on a neighbour that draws onto
/// the cell's own has a fan.
pub proof fn lemma_cell_fans(defs: Seq<EdgeTerrainDef>, m: TerrainMap, x: int, z: int)
    requires
        def_named(defs, m.cells@[z * m.width + x]@) is Some,
    ensures
        ({
            let own = def_named(defs, m.cells@[z * m.width + x]@)->0;
            let f = cell_fans(defs, m, x, z, 8);
            &&& forall|e: int| 0 <= e < f.len() ==> has_mark((#[trigger] f[e]).1, 8)
            &&& forall|e: int| 0 <= e < f.len() ==> draws_onto(defs[own], defs[(#[trigger] f[e]).0])
            &&& forall|a: int, b: int|
                0 <= a < f.len() && 0 <= b < f.len() && a != b ==> defs[(#[trigger] f[a]).0].def_name@ != defs[(#[trigger] f[b]).0].def_name@
            &&& fans_exact(defs, m, x, z, own, f, 8)
        }),
{
    let name = m.cells@[z * m.width + x]@;
    let own = def_named(defs, name)->0;
    lemma_find_def_first(defs, name, 0, own);
    lemma_fans_upto(defs, m, x, z, 8, own);
    lemma_fans_exact_upto(defs, m, x, z, 8, own);
    let f = cell_fans(defs, m, x, z, 8);
    assert forall|a: int, b: int|
        0 <= a < f.len() && 0 <= b < f.len() && a != b implies defs[(#[trigger] f[a]).0].def_name@ != defs[(#[trigger] f[b]).0].def_name@ by {
        if defs[f[a].0].def_name@ == defs[f[b].0].def_name@ {
            assert(def_named(defs, defs[f[a].0].def_name@) == Some(f[a].0));
            assert(def_named(defs, defs[f[b].0].def_name@) == Some(f[b].0));
        }
    }
}

} // verus!
