use stitchlands::linking::{
    atlas_cell, corner_filler_positions, link_index, perimeter_lit_from_neighbor_matches, LinkDrawerType, LinkFlag,
    LinkFlags, TerrainEdgeType,
};

fn f(flag: LinkFlag) -> LinkFlags {
    LinkFlags::of(flag)
}

fn alphas(matches: [bool; 8]) -> [f32; 8] {
    let lit = perimeter_lit_from_neighbor_matches(matches);
    let mut out = [0.0f32; 8];
    for i in 0..8 {
        if lit[i] {
            out[i] = 1.0;
        }
    }
    out
}

#[test]
fn link_flags_union_and_intersect() {
    let wall_rock = f(LinkFlag::Wall) | f(LinkFlag::Rock);
    assert!(wall_rock.contains(f(LinkFlag::Wall)));
    assert!(wall_rock.contains(f(LinkFlag::Rock)));
    assert!(!wall_rock.contains(f(LinkFlag::Sandbags)));
    assert!(wall_rock.intersects(f(LinkFlag::Wall)));
    assert!(!wall_rock.intersects(f(LinkFlag::Sandbags)));
}

#[test]
fn link_flags_from_token_roundtrip() {
    assert_eq!(LinkFlags::from_token("Wall"), Some(f(LinkFlag::Wall)));
    assert_eq!(LinkFlags::from_token("MapEdge"), Some(f(LinkFlag::MapEdge)));
    assert_eq!(LinkFlags::from_token("PowerConduit"), Some(f(LinkFlag::PowerConduit)));
    assert_eq!(LinkFlags::from_token("Custom8"), Some(f(LinkFlag::Custom8)));
    assert_eq!(LinkFlags::from_token("BurrowWall"), Some(f(LinkFlag::BurrowWall)));
    assert_eq!(LinkFlags::from_token("wall"), None);
    assert_eq!(LinkFlags::from_token("Unknown"), None);
}

#[test]
fn link_flags_none_token_is_empty_set() {
    assert_eq!(LinkFlags::from_token("None"), Some(LinkFlags::empty()));
}

#[test]
fn link_drawer_type_parse() {
    assert_eq!(LinkDrawerType::from_token("None"), Some(LinkDrawerType::NoLinks));
    assert_eq!(LinkDrawerType::from_token("Basic"), Some(LinkDrawerType::Basic));
    assert_eq!(LinkDrawerType::from_token("CornerFiller"), Some(LinkDrawerType::CornerFiller));
    assert_eq!(LinkDrawerType::from_token("Transmitter"), Some(LinkDrawerType::Transmitter));
    assert!(LinkDrawerType::from_token("bogus").is_none());
}

#[test]
fn terrain_edge_type_parse() {
    assert_eq!(TerrainEdgeType::from_token("FadeRough"), Some(TerrainEdgeType::FadeRough));
    assert_eq!(TerrainEdgeType::from_token("Water"), Some(TerrainEdgeType::Water));
    assert_eq!(TerrainEdgeType::from_token("None"), Some(TerrainEdgeType::NoEdge));
    assert!(TerrainEdgeType::from_token("bogus").is_none());
}

#[test]
fn link_index_nesw_bits() {
    let self_flags = f(LinkFlag::Wall);
    let w = f(LinkFlag::Wall);
    assert_eq!(link_index(self_flags, [Some(LinkFlags::empty()); 4]), 0);
    assert_eq!(link_index(self_flags, [Some(w); 4]), 15);
    assert_eq!(link_index(self_flags, [Some(w), None, None, None]), 1);
    assert_eq!(link_index(self_flags, [None, Some(w), None, None]), 2);
    assert_eq!(link_index(self_flags, [None, None, Some(w), None]), 4);
    assert_eq!(link_index(self_flags, [None, None, None, Some(w)]), 8);
}

#[test]
fn link_index_map_edge_counts_oob_as_link() {
    let rock = f(LinkFlag::Rock) | f(LinkFlag::MapEdge);
    assert_eq!(link_index(rock, [None; 4]), 15);
    assert_eq!(link_index(f(LinkFlag::Rock), [None; 4]), 0);
}

#[test]
fn link_index_mismatched_flags_dont_link() {
    let idx = link_index(f(LinkFlag::Wall), [Some(f(LinkFlag::Sandbags)); 4]);
    assert_eq!(idx, 0);
    let idx = link_index(f(LinkFlag::Wall), [Some(f(LinkFlag::Wall) | f(LinkFlag::Rock)); 4]);
    assert_eq!(idx, 15);
}

#[test]
fn cardinal_south_match_fills_s_mid_and_flanking_corners() {
    let a = alphas([true, false, false, false, false, false, false, false]);
    let mut expected = [0.0; 8];
    expected[7] = 1.0;
    expected[0] = 1.0;
    expected[1] = 1.0;
    assert_eq!(a, expected);
}

#[test]
fn diagonal_nw_match_fills_only_nw_corner() {
    let a = alphas([false, false, false, true, false, false, false, false]);
    let mut expected = [0.0; 8];
    expected[3] = 1.0;
    assert_eq!(a, expected);
}

#[test]
fn full_8_ring_match_fills_all_perimeter() {
    assert_eq!(alphas([true; 8]), [1.0; 8]);
}

#[test]
fn two_adjacent_cardinals_fill_shared_corner_once() {
    let a = alphas([true, false, true, false, false, false, false, false]);
    let mut expected = [0.0; 8];
    for i in [7, 0, 1, 2, 3] {
        expected[i] = 1.0;
    }
    assert_eq!(a, expected);
}

#[test]
fn isolated_diagonal_without_cardinals_leaves_cardinal_slot_clear() {
    let a = alphas([false, false, false, false, false, true, false, false]);
    let mut expected = [0.0; 8];
    expected[5] = 1.0;
    assert_eq!(a, expected);
    assert_eq!(a[4], 0.0);
    assert_eq!(a[6], 0.0);
}

#[test]
fn corner_filler_all_four_when_plus_surrounded() {
    assert_eq!(corner_filler_positions([true; 4], [true; 4]), [true; 4]);
}

#[test]
fn corner_filler_requires_both_orthogonals_and_diagonal() {
    assert_eq!(corner_filler_positions([true, false, true, true], [true; 4]), [false, false, true, true]);
    assert_eq!(corner_filler_positions([true; 4], [false, true, true, true]), [false, true, true, true]);
    assert_eq!(corner_filler_positions([false; 4], [true; 4]), [false; 4]);
}

#[test]
fn union_is_commutative_on_examples() {
    let a = f(LinkFlag::Wall) | f(LinkFlag::Fences);
    let b = f(LinkFlag::Fences) | f(LinkFlag::Wall);
    assert_eq!(a, b);
    let mut c = f(LinkFlag::Wall);
    c |= f(LinkFlag::Fences);
    assert_eq!(c, a);
}

#[test]
fn atlas_cells_count_rows_from_the_top() {
    assert_eq!(atlas_cell(0), (0, 3));
    assert_eq!(atlas_cell(5), (1, 2));
    assert_eq!(atlas_cell(15), (3, 0));
}

#[test]
fn terrain_edges_pick_their_fan() {
    assert_eq!(stitchlands::renderer::EdgeType::for_terrain(TerrainEdgeType::FadeRough), Some(stitchlands::renderer::EdgeType::FadeRough));
    assert_eq!(stitchlands::renderer::EdgeType::for_terrain(TerrainEdgeType::Water), Some(stitchlands::renderer::EdgeType::Water));
    assert_eq!(stitchlands::renderer::EdgeType::for_terrain(TerrainEdgeType::Hard), None);
    assert_eq!(stitchlands::renderer::EdgeType::for_terrain(TerrainEdgeType::NoEdge), None);
}

#[test]
fn link_flag_union_algebra_on_values() {
    let a = f(LinkFlag::Wall) | f(LinkFlag::Rock);
    let b = f(LinkFlag::Rock) | f(LinkFlag::Fences);
    let c = f(LinkFlag::Sandbags);
    assert_eq!(a.union(b), b.union(a));
    assert_eq!(a.union(b.union(c)), a.union(b).union(c));
    assert_eq!(a.union(LinkFlags::empty()), a);
    assert_eq!(a.union(a), a);
    assert_eq!(a | b, a.union(b));
    assert!(a.union(b).contains(a) && a.union(b).contains(b));
    assert_eq!(a.union(b).intersects(c), a.intersects(c) || b.intersects(c));
    assert!(a.union(c).intersects(c));
}
