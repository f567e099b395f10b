use stitchlands::pawn::compose::pawn_node_ids;
use stitchlands::defs::{ApparelLayerDef, ApparelSkipFlagDef};
use stitchlands::pawn::parms::{PawnDrawParms, RenderSkipFlag};
use stitchlands::pawn::render_input::{
    apparel_body_variant, body_head_compatible, build_apparel_tex_path, directional_candidates, fallback_apparel_layer,
    strip_directional_suffix,
};
use stitchlands::pawn::rules::resolve_skip_flags;
use stitchlands::pawn::{map_explicit_skip_flags, resolve_directional_tex_path, ApparelCoverage, ApparelLayer, PawnDrawFlags, PawnFacing};

const NONE: ApparelCoverage = ApparelCoverage { covers_upper_head: false, covers_full_head: false };
const UPPER: ApparelCoverage = ApparelCoverage { covers_upper_head: true, covers_full_head: false };
const FULL: ApparelCoverage = ApparelCoverage { covers_upper_head: false, covers_full_head: true };

#[test]
fn full_head_coverage_skips_hair_beard_and_eyes() {
    let skip = resolve_skip_flags(PawnDrawFlags::none(), &[FULL]);
    assert!(skip.hide_hair);
    assert!(skip.hide_beard);
    let parms = PawnDrawParms::from_inputs(PawnFacing::South, PawnDrawFlags::none(), &[FULL]);
    assert_eq!(parms.skip_flags, vec![RenderSkipFlag::Hair, RenderSkipFlag::Beard, RenderSkipFlag::Eyes]);
}

#[test]
fn upper_head_hides_hair_only() {
    let skip = resolve_skip_flags(PawnDrawFlags::none(), &[NONE, UPPER]);
    assert!(skip.hide_hair);
    assert!(!skip.hide_beard);
    let parms = PawnDrawParms::from_inputs(PawnFacing::North, PawnDrawFlags::none(), &[UPPER, UPPER]);
    assert_eq!(parms.skip_flags, vec![RenderSkipFlag::Hair]);
    assert!(parms.skip(RenderSkipFlag::Hair));
    assert!(!parms.skip(RenderSkipFlag::Eyes));
}

#[test]
fn own_flags_come_first_and_are_not_repeated() {
    let flags = PawnDrawFlags { hide_hair: false, hide_beard: true, hide_head: false, head_stump: false };
    let parms = PawnDrawParms::from_inputs(PawnFacing::East, flags, &[FULL, FULL]);
    assert_eq!(parms.skip_flags, vec![RenderSkipFlag::Beard, RenderSkipFlag::Hair, RenderSkipFlag::Eyes]);
}

#[test]
fn directional_paths_try_mirror_side() {
    let c = directional_candidates("Things/Pawn/Body", PawnFacing::East);
    let paths: Vec<&str> = c.iter().map(|d| d.path.as_str()).collect();
    assert_eq!(paths, vec!["Things/Pawn/Body_east", "Things/Pawn/Body_west"]);
    let r = resolve_directional_tex_path("Things/Pawn/Body", PawnFacing::East, &[false, true]);
    assert_eq!(r.path, "Things/Pawn/Body_west");
    assert_eq!(r.data_facing, PawnFacing::West);
    let none = resolve_directional_tex_path("Things/Pawn/Body", PawnFacing::North, &[false]);
    assert_eq!(none.path, "Things/Pawn/Body");
    assert_eq!(none.data_facing, PawnFacing::North);
    assert!(directional_candidates("Things/Pawn/Body_south", PawnFacing::North).is_empty());
}

#[test]
fn explicit_skip_flags_decode() {
    assert_eq!(map_explicit_skip_flags(&None), (false, false, false));
    assert_eq!(map_explicit_skip_flags(&Some(vec![])), (false, false, true));
    assert_eq!(map_explicit_skip_flags(&Some(vec![ApparelSkipFlagDef::Beard])), (false, true, true));
}

#[test]
fn apparel_paths_and_layers() {
    assert_eq!(
        apparel_body_variant("Things/Apparel/Parka", ApparelLayerDef::Shell, Some("Male"), false),
        Some("Things/Apparel/Parka_Male".to_string())
    );
    assert_eq!(apparel_body_variant("Things/Apparel/Hat", ApparelLayerDef::Overhead, Some("Male"), false), None);
    assert_eq!(build_apparel_tex_path("T/P", ApparelLayerDef::Middle, Some("Thin"), false, true), "T/P_Thin");
    assert_eq!(build_apparel_tex_path("T/P", ApparelLayerDef::Middle, Some("Thin"), false, false), "T/P");
    assert_eq!(build_apparel_tex_path("T/P", ApparelLayerDef::Middle, Some("Thin"), true, true), "T/P");
    assert_eq!(fallback_apparel_layer(ApparelLayerDef::Shell, PawnFacing::North, false, false), Some(88));
    assert_eq!(fallback_apparel_layer(ApparelLayerDef::Belt, PawnFacing::South, false, true), Some(-3));
    assert_eq!(fallback_apparel_layer(ApparelLayerDef::Belt, PawnFacing::East, false, true), None);
    assert_eq!(ApparelLayer::from(ApparelLayerDef::Belt), ApparelLayer::Belt);
    assert_eq!(ApparelLayer::Overhead.draw_order(), 50);
}

#[test]
fn strips_one_directional_suffix() {
    assert_eq!(strip_directional_suffix("Heads/Male_Average_north"), Some("Heads/Male_Average".to_string()));
    assert_eq!(strip_directional_suffix("Bodies/Naked_west"), Some("Bodies/Naked".to_string()));
    assert_eq!(strip_directional_suffix("Bodies/Naked"), None);
}

#[test]
fn heads_must_match_body_sex() {
    assert!(body_head_compatible("Bodies/Naked_Female", "Heads/Female/Average"));
    assert!(!body_head_compatible("Bodies/Naked_Female", "Heads/Male/Average"));
    assert!(body_head_compatible("Bodies/Naked_Male", "Heads/Male/Average"));
    assert!(body_head_compatible("Bodies/Naked_Male", "Heads/Female/Average"));
    assert!(!body_head_compatible("Bodies/Naked_Male", "Heads/Average"));
    assert!(body_head_compatible("Bodies/Naked_Thin", "Heads/Anything"));
}

fn no_coverage() -> ApparelCoverage {
    ApparelCoverage { covers_upper_head: false, covers_full_head: false }
}

#[test]
fn full_head_coverage_hides_hair_and_beard() {
    let apparel = vec![(
        "MarineHelmet".to_string(),
        ApparelCoverage { covers_upper_head: false, covers_full_head: true },
    )];
    let ids = pawn_node_ids("PawnA", PawnDrawFlags::none(), &apparel, true, true, true);
    assert!(ids.iter().all(|n| !n.ends_with("::Hair")));
    assert!(ids.iter().all(|n| !n.ends_with("::Beard")));
    assert_eq!(ids, vec!["PawnA::Body", "PawnA::Head", "PawnA::Apparel::MarineHelmet"]);
}

#[test]
fn head_hide_flag_removes_head_hair_beard() {
    let flags = PawnDrawFlags { hide_hair: false, hide_beard: false, hide_head: true, head_stump: false };
    let ids = pawn_node_ids("PawnA", flags, &[], true, true, true);
    assert!(ids.iter().all(|n| !n.ends_with("::Head")));
    assert!(ids.iter().all(|n| !n.ends_with("::Hair")));
    assert!(ids.iter().all(|n| !n.ends_with("::Beard")));
}

#[test]
fn pawn_nodes_follow_textures_and_apparel_order() {
    let apparel = vec![("Shirt".to_string(), no_coverage()), ("Jacket".to_string(), no_coverage())];
    let ids = pawn_node_ids("P", PawnDrawFlags::none(), &apparel, true, false, true);
    assert_eq!(ids, vec!["P::Body", "P::Head", "P::Beard", "P::Apparel::Shirt", "P::Apparel::Jacket"]);
    let stump = PawnDrawFlags { hide_hair: false, hide_beard: false, hide_head: false, head_stump: true };
    assert_eq!(pawn_node_ids("P", stump, &[], true, true, true), vec!["P::Body"]);
}

#[test]
fn head_layers_are_overhead_and_eye_cover() {
    assert!(ApparelLayer::Overhead.is_head_layer());
    assert!(ApparelLayer::EyeCover.is_head_layer());
    assert!(!ApparelLayer::Shell.is_head_layer());
    assert!(!ApparelLayer::OnSkin.is_head_layer());
}
