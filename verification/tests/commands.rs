use stitchlands::cell::Cell;
use stitchlands::commands::apparel_pick::{select_fixture_apparel_for_pawn, ApparelGroup};
use stitchlands::commands::fog::FogGrid;
use stitchlands::commands::linked::{effective_link_type, linked_atlas_path, merged_link_flags, neighbor_links};
use stitchlands::commands::ownership::{choose_def, validate_layer_ownership};
use stitchlands::commands::listing::{first_by_name, list_defs};
use stitchlands::commands::render::{export_file_name, sheet_slot};
use stitchlands::commands::snow::SNOW_MATERIAL_TEXTURE_PATH;
use stitchlands::commands::v1_scene::{
    apparel_draw_layer_for_facing, apparel_group, apparel_worn_data_for_facing, audit_layout, beard_is_drawable, check_apparel_layers, choose_pawn_loadout, fixture_pawn_bodies,
    fixture_thing_count, make_missing_def_message, sorted_paths_containing, PawnLoadout,
};
use stitchlands::commands::world_sprites::cell_draw_order;
use stitchlands::defs::apparel_defs::load_apparel_defs;
use stitchlands::defs::render_defs::load_thing_defs;
use stitchlands::defs::ApparelLayerDef;
use stitchlands::pawn::model::PawnFacing;
use stitchlands::pawn::render_input::build_full_apparel_layer_override;
use stitchlands::commands::terrain_edges::{compute_terrain_edge_contributions, EdgeTerrainDef, TerrainEdgeContribution, TerrainMap};
use stitchlands::defs::GraphicKind;
use stitchlands::linking::{LinkDrawerType, LinkFlag, LinkFlags, TerrainEdgeType};
use stitchlands::renderer::EdgeType;

fn string_vec(v: &[&str]) -> Vec<String> {
    v.iter().map(|s| s.to_string()).collect()
}

#[test]
fn snow_material_texture_path_matches_rimworld_material_resource() {
    assert_eq!(SNOW_MATERIAL_TEXTURE_PATH, "Other/Snow");
}

#[test]
fn fogged_cell_covers_every_vertex() {
    let mut fog = vec![false; 9];
    fog[4] = true;
    let grid = FogGrid::new(3, 3, fog).unwrap();
    assert!(grid.any_fog());
    assert_eq!(grid.fog_covered_vertices(1, 1), [true; 9]);
}

#[test]
fn unfogged_neighbor_gets_only_boundary_vertices() {
    let mut fog = vec![false; 9];
    fog[4] = true;
    let grid = FogGrid::new(3, 3, fog).unwrap();
    assert_eq!(grid.fog_covered_vertices(0, 1), [false, false, false, false, true, true, true, false, false]);
    assert_eq!(grid.fog_covered_vertices(0, 0), [false, false, false, false, true, false, false, false, false]);
}

#[test]
fn no_fog_and_bad_grid() {
    let grid = FogGrid::new(2, 2, vec![false; 4]).unwrap();
    assert!(!grid.any_fog());
    assert!(!grid.fogged_at(-1, 0));
    assert!(FogGrid::new(2, 2, vec![false; 3]).is_none());
}

fn terrain(name: &str, edge_type: TerrainEdgeType, render_precedence: i32) -> EdgeTerrainDef {
    EdgeTerrainDef {
        def_name: name.to_string(),
        texture_path: format!("Terrain/{name}"),
        edge_type,
        render_precedence,
        water_depth: false,
    }
}

fn water(name: &str, render_precedence: i32) -> EdgeTerrainDef {
    EdgeTerrainDef { water_depth: true, ..terrain(name, TerrainEdgeType::Water, render_precedence) }
}

fn world(width: usize, height: usize, tiles: &[&str]) -> TerrainMap {
    TerrainMap { width, height, cells: string_vec(tiles) }
}

fn opaque(indices: &[usize]) -> [f32; 8] {
    let mut a = [0.0; 8];
    for &i in indices {
        a[i] = 1.0;
    }
    a
}

fn contribution_alphas(c: &TerrainEdgeContribution) -> [f32; 8] {
    let lit = stitchlands::linking::perimeter_lit_from_neighbor_matches(c.neighbor_matches);
    let mut a = [0.0; 8];
    for i in 0..8 {
        if lit[i] {
            a[i] = 1.0;
        }
    }
    a
}

#[test]
fn higher_precedence_neighbor_emits_onto_lower() {
    let defs = vec![terrain("Soil", TerrainEdgeType::FadeRough, 340), terrain("Concrete", TerrainEdgeType::Hard, 70)];
    let map = world(3, 3, &["Soil", "Soil", "Soil", "Soil", "Concrete", "Soil", "Soil", "Soil", "Soil"]);
    let contribs = compute_terrain_edge_contributions(&defs, &map).expect("contributions");
    assert_eq!(contribs.len(), 1);
    let c = &contribs[0];
    assert_eq!(c.cell, Cell::new(1, 1));
    assert_eq!(c.neighbor_def_name, "Soil");
    assert_eq!(contribution_alphas(c), [1.0; 8]);
    assert_eq!(c.edge_type, EdgeType::FadeRough);
}

#[test]
fn equal_precedence_cross_emits() {
    let defs = vec![terrain("Soil", TerrainEdgeType::FadeRough, 340), terrain("Sand", TerrainEdgeType::FadeRough, 340)];
    let map = world(2, 1, &["Soil", "Sand"]);
    let contribs = compute_terrain_edge_contributions(&defs, &map).expect("contributions");
    assert_eq!(contribs.len(), 2);
    let mut by_cell: Vec<_> = contribs.iter().collect();
    by_cell.sort_by_key(|c| (c.cell.x, c.cell.z));
    assert_eq!(by_cell[0].cell, Cell::new(0, 0));
    assert_eq!(by_cell[0].neighbor_def_name, "Sand");
    assert_eq!(contribution_alphas(by_cell[0]), opaque(&[5, 6, 7]));
    assert_eq!(by_cell[1].cell, Cell::new(1, 0));
    assert_eq!(by_cell[1].neighbor_def_name, "Soil");
    assert_eq!(contribution_alphas(by_cell[1]), opaque(&[1, 2, 3]));
}

#[test]
fn neighbor_with_edge_type_none_skipped() {
    let defs = vec![terrain("Underwall", TerrainEdgeType::NoEdge, 0), terrain("Soil", TerrainEdgeType::FadeRough, 340)];
    let map = world(2, 1, &["Underwall", "Soil"]);
    let contribs = compute_terrain_edge_contributions(&defs, &map).expect("contributions");
    assert_eq!(contribs.len(), 1);
    assert_eq!(contribs[0].cell, Cell::new(0, 0));
    assert_eq!(contribs[0].neighbor_def_name, "Soil");
    assert_eq!(contribution_alphas(&contribs[0]), opaque(&[5, 6, 7]));
}

#[test]
fn distinct_neighbor_defs_produce_separate_contributions() {
    let defs = vec![
        terrain("Concrete", TerrainEdgeType::Hard, 70),
        terrain("Soil", TerrainEdgeType::FadeRough, 340),
        terrain("Water", TerrainEdgeType::Water, 394),
    ];
    let map = world(3, 1, &["Soil", "Concrete", "Water"]);
    let contribs = compute_terrain_edge_contributions(&defs, &map).expect("contributions");
    assert_eq!(contribs.len(), 2);
    let mut seen: Vec<_> =
        contribs.iter().map(|c| (c.cell, c.neighbor_def_name.as_str(), contribution_alphas(c), c.edge_type)).collect();
    seen.sort_by(|a, b| a.1.cmp(b.1));
    assert_eq!(seen[0].0, Cell::new(1, 0));
    assert_eq!(seen[0].1, "Soil");
    assert_eq!(seen[0].2, opaque(&[1, 2, 3]));
    assert_eq!(seen[0].3, EdgeType::FadeRough);
    assert_eq!(seen[1].0, Cell::new(1, 0));
    assert_eq!(seen[1].1, "Water");
    assert_eq!(seen[1].2, opaque(&[5, 6, 7]));
    assert_eq!(seen[1].3, EdgeType::Water);
}

#[test]
fn water_depth_terrains_do_not_emit_edges_onto_each_other() {
    let defs = vec![water("WaterShallow", 394), water("WaterDeep", 395)];
    let map = world(2, 1, &["WaterShallow", "WaterDeep"]);
    let contribs = compute_terrain_edge_contributions(&defs, &map).expect("contributions");
    assert!(contribs.is_empty());
}

#[test]
fn convex_corner_produces_corner_only_alpha() {
    let defs = vec![terrain("Soil", TerrainEdgeType::FadeRough, 340), terrain("Ice", TerrainEdgeType::FadeRough, 380)];
    let map = world(3, 3, &["Soil", "Soil", "Soil", "Soil", "Soil", "Soil", "Soil", "Soil", "Ice"]);
    let contribs = compute_terrain_edge_contributions(&defs, &map).expect("contributions");
    let base = contribs.iter().find(|c| c.cell == Cell::new(1, 1)).expect("base cell contribution");
    assert_eq!(base.neighbor_def_name, "Ice");
    assert_eq!(contribution_alphas(base), opaque(&[5]));
}

#[test]
fn missing_terrain_def_is_an_error() {
    let defs = vec![terrain("Soil", TerrainEdgeType::FadeRough, 340)];
    let map = world(2, 1, &["Soil", "Lava"]);
    let err = match compute_terrain_edge_contributions(&defs, &map) {
        Ok(_) => panic!("expected an error"),
        Err(e) => e,
    };
    assert_eq!(err, "missing TerrainDef 'Lava'");
    assert_eq!(EdgeType::FadeRough.shader_code(), 1);
    assert_eq!(EdgeType::Water.shader_code(), 2);
}

#[test]
fn appearances_path_goes_to_subfolder_bricks() {
    assert_eq!(
        linked_atlas_path("Things/Building/Linked/Wall", GraphicKind::Appearances),
        "Things/Building/Linked/Wall/Wall_Atlas_Bricks"
    );
}

#[test]
fn atlas_suffixed_path_kept_as_is() {
    assert_eq!(linked_atlas_path("Things/Building/Linked/Rock_Atlas", GraphicKind::Single), "Things/Building/Linked/Rock_Atlas");
}

#[test]
fn effective_link_type_falls_back_to_basic() {
    assert_eq!(effective_link_type(LinkDrawerType::Transmitter), LinkDrawerType::Basic);
    assert_eq!(effective_link_type(LinkDrawerType::CornerFiller), LinkDrawerType::CornerFiller);
    assert_eq!(effective_link_type(LinkDrawerType::NoLinks), LinkDrawerType::Basic);
}

#[test]
fn merged_flags_and_neighbor_links() {
    let wall = LinkFlags::of(LinkFlag::Wall);
    let rock = LinkFlags::of(LinkFlag::Rock);
    assert_eq!(merged_link_flags(&[wall, rock]), wall | rock);
    assert_eq!(merged_link_flags(&[]), LinkFlags::empty());
    let me = wall | LinkFlags::of(LinkFlag::MapEdge);
    assert_eq!(neighbor_links(me, [Some(wall), Some(rock), None, Some(LinkFlags::empty())]), [true, false, true, false]);
    assert_eq!(neighbor_links(wall, [None; 4]), [false; 4]);
}

#[test]
fn layer_ownership_accepts_expected_partition() {
    let static_sprites = string_vec(&["Terrain::Soil", "Thing::ChunkSlagSteel"]);
    let dynamic_sprites = string_vec(&["PawnNode::PawnA::Body", "PawnNode::PawnA::Head"]);
    assert!(validate_layer_ownership(&static_sprites, &dynamic_sprites).is_ok());
}

#[test]
fn layer_ownership_rejects_pawn_in_static() {
    let static_sprites = string_vec(&["Terrain::Soil", "PawnNode::PawnA::Body"]);
    let dynamic_sprites = string_vec(&["PawnNode::PawnA::Head"]);
    let err = validate_layer_ownership(&static_sprites, &dynamic_sprites).expect_err("should fail");
    assert!(err.contains("static layer"));
}

#[test]
fn layer_ownership_rejects_thing_in_dynamic() {
    let static_sprites = string_vec(&["Terrain::Soil"]);
    let dynamic_sprites = string_vec(&["PawnNode::PawnA::Head", "Thing::ChunkSlagSteel"]);
    let err = validate_layer_ownership(&static_sprites, &dynamic_sprites).expect_err("should fail");
    assert!(err.contains("dynamic layer"));
    assert_eq!(
        err,
        "v2 layer ownership violation: dynamic layer contains non-pawn sprites: Thing::ChunkSlagSteel"
    );
}

#[test]
fn choose_def_prefers_named_then_least() {
    let names = string_vec(&["Male", "Female", "Hulk"]);
    assert_eq!(choose_def(&names, &[true, true, true], Some("Hulk")), Some(2));
    assert_eq!(choose_def(&names, &[true, true, true], Some("Thin")), Some(1));
    assert_eq!(choose_def(&names, &[true, false, true], None), Some(2));
    assert_eq!(choose_def(&names, &[false, false, false], None), None);
    assert_eq!(choose_def(&names, &[false, false, false], Some("Male")), Some(0));
}

#[test]
fn fixture_apparel_picks_vary_by_pawn() {
    // Pawn 0 (index divisible by 4 and 3): only the shell layer is picked.
    assert_eq!(select_fixture_apparel_for_pawn(0, 5, false, 3, 4, 2), vec![(ApparelGroup::Shell, 2)]);
    // Pawn 1: seed 22; body 22 % 3, head max(22 / 3, 1) % 2.
    assert_eq!(
        select_fixture_apparel_for_pawn(1, 5, false, 3, 4, 2),
        vec![(ApparelGroup::Body, 1), (ApparelGroup::Head, 1)]
    );
    // Focus on one pawn: every list with items.
    assert_eq!(
        select_fixture_apparel_for_pawn(0, 0, true, 2, 2, 2),
        vec![(ApparelGroup::Body, 0), (ApparelGroup::Shell, 1), (ApparelGroup::Head, 1)]
    );
    // No main pick: fall back to the first non-empty list.
    assert_eq!(select_fixture_apparel_for_pawn(0, 7, false, 0, 0, 3), vec![(ApparelGroup::Head, 1)]);
    assert!(select_fixture_apparel_for_pawn(2, 0, false, 0, 0, 0).is_empty());
}

#[test]
fn beards_without_graphic_or_anchor_are_skipped() {
    assert!(beard_is_drawable("BeardFull", "Things/Pawn/Humanlike/Beards/BeardFull", false));
    assert!(!beard_is_drawable("BeardFull", "Things/Pawn/Humanlike/Beards/BeardFull", true));
    assert!(!beard_is_drawable("BeardFull", "", false));
    assert!(!beard_is_drawable("BeardAnchorThing", "Things/Beards/A", false));
    assert!(!beard_is_drawable("Plain", "Things/Beards/BeardAnchor_south", false));
}

#[test]
fn apparel_layers_fall_into_three_lists() {
    assert_eq!(apparel_group(ApparelLayerDef::OnSkin), ApparelGroup::Body);
    assert_eq!(apparel_group(ApparelLayerDef::Middle), ApparelGroup::Body);
    assert_eq!(apparel_group(ApparelLayerDef::Belt), ApparelGroup::Shell);
    assert_eq!(apparel_group(ApparelLayerDef::Shell), ApparelGroup::Shell);
    assert_eq!(apparel_group(ApparelLayerDef::EyeCover), ApparelGroup::Head);
    assert_eq!(apparel_group(ApparelLayerDef::Overhead), ApparelGroup::Head);
}

#[test]
fn pawn_scene_needs_two_apparel_lists() {
    assert_eq!(
        check_apparel_layers(3, 0, 0, true),
        Err("pawn fixture requires at least two decodable apparel layers (body + shell/head)".to_string())
    );
    assert_eq!(check_apparel_layers(0, 0, 0, true), Ok(0));
    assert_eq!(check_apparel_layers(1, 0, 2, true), Ok(2));
    assert_eq!(check_apparel_layers(1, 0, 0, false), Ok(1));
    assert_eq!(check_apparel_layers(1, 1, 1, false), Ok(3));
}

#[test]
fn fixture_places_up_to_twenty_things_outside_pawn_scenes() {
    assert_eq!(fixture_thing_count(25, false, false), 20);
    assert_eq!(fixture_thing_count(3, false, false), 3);
    assert_eq!(fixture_thing_count(25, true, false), 0);
    assert_eq!(fixture_thing_count(25, false, true), 0);
}

#[test]
fn fixture_bodies_follow_the_scene_kind() {
    assert_eq!(fixture_pawn_bodies(4, true, false, 0, 9), vec![1]);
    assert_eq!(fixture_pawn_bodies(3, false, true, 5, 2), vec![2, 0, 1, 2, 0]);
    assert_eq!(fixture_pawn_bodies(10, false, false, 0, 0), vec![0, 1, 2, 3, 4, 5]);
    assert_eq!(fixture_pawn_bodies(2, false, false, 7, 4), vec![0, 1]);
}

#[test]
fn audit_grid_is_centred_on_the_map() {
    assert_eq!(
        audit_layout(20, 20, 7),
        vec![(1, 7), (5, 7), (9, 7), (13, 7), (17, 7), (1, 11), (5, 11)]
    );
}

#[test]
fn audit_grid_is_clamped_on_small_maps() {
    assert_eq!(audit_layout(8, 8, 3), vec![(0, 3), (4, 3), (7, 3)]);
    assert!(audit_layout(0, 0, 0).is_empty());
    assert_eq!(audit_layout(0, 0, 1), vec![(0, 0)]);
}

#[test]
fn bearded_pawn_prefers_male_heads() {
    let heads = string_vec(&[
        "Things/Pawn/Humanlike/Heads/Female/A",
        "Things/Pawn/Humanlike/Heads/Male/B",
        "Things/Pawn/Humanlike/Heads/Male/C",
    ]);
    let r = choose_pawn_loadout("Things/Pawn/Humanlike/Bodies/Naked_Male", &heads, 4, 2, 3);
    assert_eq!(r, PawnLoadout { head: Some(2), hair: Some(0), beard: Some(0) });
    let r = choose_pawn_loadout("Things/Pawn/Humanlike/Bodies/Naked_Male", &heads, 4, 0, 3);
    assert_eq!(r, PawnLoadout { head: Some(0), hair: Some(0), beard: None });
}

#[test]
fn female_body_gets_female_head_and_hair_by_variant() {
    let heads = string_vec(&["Heads/Female/A", "Heads/Male/B"]);
    let r = choose_pawn_loadout("Bodies/Naked_Female", &heads, 3, 0, 10);
    assert_eq!(r, PawnLoadout { head: Some(0), hair: Some(2), beard: None });
}

#[test]
fn unsuited_heads_fall_back_to_all_heads() {
    let heads = string_vec(&["Heads/Male/B"]);
    let r = choose_pawn_loadout("Bodies/Naked_Female", &heads, 0, 0, 5);
    assert_eq!(r, PawnLoadout { head: Some(0), hair: None, beard: None });
    let r = choose_pawn_loadout("Bodies/Naked_Female", &[], 0, 1, 5);
    assert_eq!(r, PawnLoadout { head: None, hair: None, beard: Some(0) });
}

#[test]
fn missing_def_message_lists_sorted_close_matches() {
    let names = string_vec(&["WoodLog", "SteelBar", "steel", "Plasteel"]);
    assert_eq!(
        make_missing_def_message("Steel", &names),
        "thingdef 'Steel' not found. Close matches: Plasteel, SteelBar, steel"
    );
}

#[test]
fn missing_def_message_without_matches() {
    let names = string_vec(&["WoodLog", "Steel"]);
    assert_eq!(make_missing_def_message("Xyz", &names), "thingdef 'Xyz' not found");
}

#[test]
fn missing_def_message_keeps_first_five_matches() {
    let names = string_vec(&["ab7", "ab6", "ab5", "ab4", "ab3", "ab2", "ab1"]);
    assert_eq!(
        make_missing_def_message("AB", &names),
        "thingdef 'AB' not found. Close matches: ab3, ab4, ab5, ab6, ab7"
    );
}

#[test]
fn missing_def_message_folds_unicode_case() {
    let names = string_vec(&["ÉCLAIR"]);
    assert_eq!(
        make_missing_def_message("éclair", &names),
        "thingdef 'éclair' not found. Close matches: ÉCLAIR"
    );
}

#[test]
fn layer_paths_are_filtered_and_sorted_once() {
    let paths = string_vec(&["b/Heads/x", "a/Heads/y", "c/Hairs/z", "a/Heads/y"]);
    assert_eq!(sorted_paths_containing(&paths, "/Heads/"), string_vec(&["a/Heads/y", "b/Heads/x"]));
    assert!(sorted_paths_containing(&paths, "/Beards/").is_empty());
}

#[test]
fn sheet_slots_fill_rows() {
    assert_eq!(sheet_slot(7, 3), (1, 2));
    assert_eq!(sheet_slot(7, 0), (7, 0));
}

#[test]
fn export_names_carry_index_and_def() {
    assert_eq!(export_file_name(Some("out"), Some("png"), 2, "Steel"), "out_2_Steel.png");
    assert_eq!(export_file_name(None, None, 0, "X"), "resolved_0_X.png");
}

#[test]
fn world_entities_draw_by_row_column_then_id() {
    let cells = [(2, 1, 5), (0, 1, 9), (0, 0, 3), (0, 1, 9), (0, 1, 1)];
    assert_eq!(cell_draw_order(&cells), vec![2, 4, 1, 3, 0]);
    assert!(cell_draw_order(&[]).is_empty());
    assert_eq!(cell_draw_order(&[(-3, -1, 0), (5, -2, 0)]), vec![1, 0]);
}

const WORN: &str = r#"
    <Defs>
        <ThingDef>
            <defName>Apparel_Vest</defName>
            <graphicData><texPath>Things/Apparel/Vest</texPath></graphicData>
            <apparel>
                <wornGraphicPath>Things/Pawn/Humanlike/Apparel/Vest/Vest</wornGraphicPath>
                <drawData><dataWest><layer>7</layer></dataWest></drawData>
                <wornGraphicData>
                    <east>
                        <offset>(0.1, 0)</offset>
                        <scale>(0.9, 0.9)</scale>
                        <Fat><offset>(0.3, 0)</offset></Fat>
                    </east>
                    <Fat><offset>(0.2, 0)</offset><scale>(1.1, 1.1)</scale></Fat>
                </wornGraphicData>
            </apparel>
        </ThingDef>
    </Defs>
    "#;

#[test]
fn worn_data_applies_global_then_side_body_changes() {
    let defs = load_apparel_defs(&[WORN.to_string()]);
    let vest = &defs[0];
    let plain = apparel_worn_data_for_facing(vest, PawnFacing::East, None);
    assert_eq!(plain.offset, Some(string_vec(&["0.1", "0"])));
    assert_eq!(plain.scale, Some(string_vec(&["0.9", "0.9"])));
    let fat = apparel_worn_data_for_facing(vest, PawnFacing::East, Some("FAT"));
    assert_eq!(fat.offset, Some(string_vec(&["0.3", "0"])));
    assert_eq!(fat.scale, Some(string_vec(&["1.1", "1.1"])));
    let fat_south = apparel_worn_data_for_facing(vest, PawnFacing::South, Some("Fat"));
    assert_eq!(fat_south.offset, Some(string_vec(&["0.2", "0"])));
    let thin = apparel_worn_data_for_facing(vest, PawnFacing::North, Some("Thin"));
    assert_eq!(thin.offset, None);
    assert_eq!(thin.scale, None);
}

#[test]
fn draw_layer_follows_facing() {
    let defs = load_apparel_defs(&[WORN.to_string()]);
    assert_eq!(apparel_draw_layer_for_facing(&defs[0], PawnFacing::West).as_deref(), Some("7"));
    assert_eq!(apparel_draw_layer_for_facing(&defs[0], PawnFacing::North), None);
}

const THINGS: &str = r#"
    <Defs>
        <ThingDef><defName>WoodLog</defName><graphicData><texPath>Things/Item/Resource/WoodLog</texPath><graphicClass>Graphic_StackCount</graphicClass></graphicData></ThingDef>
        <ThingDef><defName>Steel</defName><graphicData><texPath>Things/Item/Resource/Metal</texPath><graphicClass>Graphic_StackCount</graphicClass></graphicData></ThingDef>
        <ThingDef><defName>Apple</defName><graphicData><texPath>Things/Item/Food/Apple</texPath></graphicData></ThingDef>
    </Defs>
    "#;

#[test]
fn def_listing_is_sorted_filtered_and_limited() {
    let defs = load_thing_defs(&[THINGS.to_string()]);
    assert_eq!(
        list_defs(&defs, None, 2),
        vec![
            "Apple | texPath=Things/Item/Food/Apple | class=Graphic_Single".to_string(),
            "Steel | texPath=Things/Item/Resource/Metal | class=Graphic_StackCount".to_string(),
            "shown 2 defs (limit 2)".to_string(),
        ]
    );
    assert_eq!(
        list_defs(&defs, Some("RESOURCE/W"), 10),
        vec![
            "WoodLog | texPath=Things/Item/Resource/WoodLog | class=Graphic_StackCount".to_string(),
            "shown 1 defs (limit 10)".to_string(),
        ]
    );
    assert_eq!(list_defs(&defs, Some("zzz"), 10), vec!["shown 0 defs (limit 10)".to_string()]);
}

#[test]
fn probe_order_takes_the_first_names_sorted() {
    let names = string_vec(&["Sand", "Gravel", "Soil", "Gravel"]);
    assert_eq!(first_by_name(&names, 3), vec![1, 3, 0]);
    assert_eq!(first_by_name(&names, 10), vec![1, 3, 0, 2]);
    assert!(first_by_name(&names, 0).is_empty());
}

#[test]
fn full_layer_override_prefers_draw_data_then_fallback() {
    let defs = load_apparel_defs(&[WORN.to_string()]);
    let vest = &defs[0];
    assert_eq!(build_full_apparel_layer_override(vest, PawnFacing::West, true).as_deref(), Some("7"));
    assert_eq!(build_full_apparel_layer_override(vest, PawnFacing::South, true).as_deref(), Some("-3"));
    assert_eq!(build_full_apparel_layer_override(vest, PawnFacing::North, true).as_deref(), Some("93"));
    assert_eq!(build_full_apparel_layer_override(vest, PawnFacing::North, false), None);
    let shell = r#"<Defs><ThingDef><defName>Duster</defName><graphicData><texPath>T/D</texPath></graphicData>
        <apparel><wornGraphicPath>Things/Pawn/Humanlike/Apparel/Duster/Duster</wornGraphicPath><layers><li>Shell</li></layers></apparel>
        </ThingDef></Defs>"#;
    let defs = load_apparel_defs(&[shell.to_string()]);
    assert_eq!(build_full_apparel_layer_override(&defs[0], PawnFacing::North, false).as_deref(), Some("88"));
    assert_eq!(build_full_apparel_layer_override(&defs[0], PawnFacing::East, false), None);
}

#[test]
fn missing_terrain_reported_is_the_first_met() {
    let defs = vec![terrain("Soil", TerrainEdgeType::FadeRough, 340)];
    let map = world(3, 2, &["Soil", "Soil", "Soil", "Mud", "Soil", "Lava"]);
    let err = match compute_terrain_edge_contributions(&defs, &map) {
        Ok(_) => panic!("expected an error"),
        Err(e) => e,
    };
    assert_eq!(err, "missing TerrainDef 'Mud'", "the first cell's northern neighbour is met before the far corner");
}
