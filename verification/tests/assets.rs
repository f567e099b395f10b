use stitchlands::assets::backend::{SpriteSource, TextureQuery};
use stitchlands::assets::catalog::{CatalogStep, PackedCatalog};
use stitchlands::assets::combine_packed_roots;
use stitchlands::assets::default_config::{merge_path_list, packed_index_path, rimworld_candidates, split_path_list};
use stitchlands::assets::loose::LooseFiles;
use stitchlands::assets::packed_index::{wanted_container_patterns, wanted_texture_names, PackedTextureIndex};
use stitchlands::assets::index_build::roots_signature;
use stitchlands::assets::packed_textures::{
    decode_probe_outcome, extracted_texture_file_name, infer_packed_data_roots, sanitize_filename, search_container_paths, PackedDecodeHealth,
};
use stitchlands::assets::paths::{dedupe_paths, join_path, parent_dir, path_less, same_path};
use stitchlands::assets::ranking::{container_match_score, find_by_container_paths, find_fuzzy_name_matches, folder_members};
use stitchlands::assets::variants::variants_for;
use stitchlands::defs::GraphicKind;

fn strings(v: &[&str]) -> Vec<String> {
    v.iter().map(|s| s.to_string()).collect()
}

fn index_with_names(names: &[&str]) -> PackedTextureIndex {
    let mut v = strings(names);
    v.sort();
    PackedTextureIndex::from_parts(String::new(), v, Vec::new())
}

#[test]
fn base_names_include_directional_suffixes() {
    let v = variants_for("Things/Item/Resource/Steel", GraphicKind::Single);
    let names = v.base_names();
    assert_eq!(names[0], "steel");
    assert!(names.contains(&"steel_south".to_string()));
    assert!(names.contains(&"steel_east".to_string()));
}

#[test]
fn container_paths_are_prefixed_exact_paths() {
    let v = variants_for("Things/Item/Resource/Steel", GraphicKind::Single);
    let paths = v.container_paths();
    assert!(paths.contains(&"textures/things/item/resource/steel.png".to_string()));
    assert!(paths.contains(&"textures/things/item/resource/steel_south.png".to_string()));
}

#[test]
fn folder_prefix_only_for_random() {
    let s = variants_for("Things/Item/Chunk/ChunkSlag", GraphicKind::Single);
    assert_eq!(s.folder_prefix(), None);
    assert_eq!(s.folder_key(), None);
    let r = variants_for("Things/Item/Chunk/ChunkSlag", GraphicKind::Random);
    assert_eq!(r.folder_prefix().as_deref(), Some("textures/things/item/chunk/chunkslag/"));
    assert_eq!(r.folder_key().as_deref(), Some("textures/things/item/chunk/chunkslag"));
}

#[test]
fn disk_candidates_join_the_root() {
    let v = variants_for("Things/Item/Resource/Steel", GraphicKind::Single);
    assert_eq!(
        v.disk_candidates("/data/Core/Textures"),
        strings(&[
            "/data/Core/Textures/Things/Item/Resource/Steel.png",
            "/data/Core/Textures/Things/Item/Resource/Steel_south.png",
            "/data/Core/Textures/Things/Item/Resource/Steel_north.png",
        ])
    );
}

#[test]
fn packed_index_wanted_names_include_directional_suffixes() {
    let names = wanted_texture_names("Things/Item/Resource/Steel");
    assert_eq!(names[0], "steel");
    assert!(names.contains(&"steel_south".to_string()));
    assert!(names.contains(&"steel_north".to_string()));
    assert!(names.contains(&"steel_east".to_string()));
    assert!(names.contains(&"steel_west".to_string()));
}

#[test]
fn packed_index_wanted_container_patterns_include_png_and_rotations() {
    let patterns = wanted_container_patterns("Things/Item/Resource/Steel");
    assert!(patterns.contains(&"things/item/resource/steel".to_string()));
    assert!(patterns.contains(&"things/item/resource/steel.png".to_string()));
    assert!(patterns.contains(&"things/item/resource/steel_south".to_string()));
}

#[test]
fn packed_textures_wanted_names_include_directional_suffixes() {
    let names = wanted_texture_names("Things/Item/Resource/Steel");
    assert_eq!(names[0], "steel");
    assert!(names.contains(&"steel_south".to_string()));
    assert!(names.contains(&"steel_north".to_string()));
    assert!(names.contains(&"steel_east".to_string()));
    assert!(names.contains(&"steel_west".to_string()));
}

#[test]
fn packed_textures_wanted_container_patterns_include_png_and_rotations() {
    let patterns = wanted_container_patterns("Things/Item/Resource/Steel");
    assert!(patterns.contains(&"things/item/resource/steel".to_string()));
    assert!(patterns.contains(&"things/item/resource/steel.png".to_string()));
    assert!(patterns.contains(&"things/item/resource/steel_south".to_string()));
}

#[test]
fn prefix_match_finds_variant_suffix() {
    let index = index_with_names(&["steel_a"]);
    assert!(index.maybe_contains("Things/Item/Resource/Steel"));
}

#[test]
fn prefix_match_no_false_positive_without_underscore() {
    let index = index_with_names(&["steelwork"]);
    assert!(!index.maybe_contains("Things/Item/Resource/Steel"));
}

#[test]
fn prefix_match_compound_suffix() {
    let index = index_with_names(&["agave_immature"]);
    assert!(index.maybe_contains("Things/Plant/Agave"));
}

#[test]
fn prefix_match_clean_miss() {
    let index = index_with_names(&["steel_a", "wood_a"]);
    assert!(!index.maybe_contains("Things/Item/Resource/Gold"));
}

#[test]
fn maybe_contains_uses_name_and_container_metadata() {
    let input = [
        "STITCHLANDS_PACKED_INDEX_V2",
        "any",
        "1",
        "steel_a",
        "1",
        "assets/resources/things/pawn/humanlike/bodies/naked_male.png",
        "",
    ]
    .join("\n");
    let index = PackedTextureIndex::from_text(&input).unwrap();
    assert!(index.maybe_contains("Things/Item/Resource/Steel"));
    assert!(index.maybe_contains("Things/Pawn/Humanlike/Bodies/Naked_Male"));
    assert!(!index.maybe_contains("Things/Item/Resource/DefinitelyMissing"));
}

#[test]
fn empty_index_fails_open_for_lookup() {
    let input = ["STITCHLANDS_PACKED_INDEX_V2", "any", "0", "0", ""].join("\n");
    let index = PackedTextureIndex::from_text(&input).unwrap();
    assert!(index.is_empty());
    assert!(index.maybe_contains("Things/Item/Resource/DefinitelyMissing"));
}

#[test]
fn persists_and_reloads_metadata_index() {
    let first = PackedTextureIndex::from_scanned(
        "sig".to_string(),
        strings(&["Steel_A", "steel_b", "", "Wood"]),
        strings(&["Assets/Steel.png"]),
    );
    let text = first.to_text();
    let second = PackedTextureIndex::load_or_build(Some(&text), "sig", false).expect("cache reused");
    assert_eq!(first.search_names("steel", 10), second.search_names("steel", 10));
    assert_eq!(second.search_names("steel", 10), strings(&["steel_a", "steel_b"]));
}

#[test]
fn stale_signature_triggers_rebuild() {
    let stale = ["STITCHLANDS_PACKED_INDEX_V2", "stale_signature", "1", "made_up_texture", "0", ""].join("\n");
    assert!(PackedTextureIndex::load_or_build(Some(&stale), "fresh_signature", false).is_none());
    assert!(PackedTextureIndex::load_or_build(Some(&stale), "stale_signature", true).is_none());
    assert!(PackedTextureIndex::load_or_build(Some(&stale), "stale_signature", false).is_some());
    assert!(PackedTextureIndex::load_or_build(None, "stale_signature", false).is_none());
    assert!(PackedTextureIndex::load_or_build(Some("garbage"), "stale_signature", false).is_none());
}

#[test]
fn search_names_is_sorted_and_limited() {
    let index = index_with_names(&["b_steel", "a_steel", "wood", "c_steel"]);
    assert_eq!(index.search_names("STEEL", 2), strings(&["a_steel", "b_steel"]));
    assert_eq!(index.search_names("steel", 10), strings(&["a_steel", "b_steel", "c_steel"]));
    assert!(index.search_names("gold", 10).is_empty());
}

#[test]
fn scanned_names_are_lowered_sorted_and_unique() {
    let index = PackedTextureIndex::from_scanned(
        "s".to_string(),
        strings(&["Wood", "steel", "STEEL", ""]),
        strings(&["B/x.png", "a/y.png", "b/X.PNG"]),
    );
    let text = index.to_text();
    assert_eq!(text, "STITCHLANDS_PACKED_INDEX_V2\ns\n2\nsteel\nwood\n2\na/y.png\nb/x.png\n");
}

#[test]
fn roots_signature_sorts_and_joins_parts() {
    let sig = roots_signature(
        &[("/b/data".to_string(), 20), ("/a/data".to_string(), 10)],
        &[("/reg.json".to_string(), 0)],
    );
    assert_eq!(sig, "data:/a/data|10;data:/b/data|20;typetree:/reg.json|0");
    assert_eq!(roots_signature(&[], &[]), "");
}

#[test]
fn roots_signature_ignores_the_order_roots_come_in() {
    let a = ("/a/data".to_string(), 10);
    let b = ("/b/data".to_string(), 20);
    let r1 = ("/one.json".to_string(), 1);
    let r2 = ("/two.json".to_string(), 2);
    let first = roots_signature(&[a.clone(), b.clone()], &[r1.clone(), r2.clone()]);
    let second = roots_signature(&[b, a], &[r2, r1]);
    assert_eq!(first, second);
}

#[test]
fn packed_textures_sanitizes_filename() {
    assert_eq!(sanitize_filename("Things/Item/Steel"), "Things_Item_Steel");
    assert_eq!(sanitize_filename("   "), "texture");
}

#[test]
fn sanitize_filename_keeps_dashes_and_trims_underscores() {
    assert_eq!(sanitize_filename("__a-b c__"), "a-b_c");
    assert_eq!(sanitize_filename(""), "texture");
}

#[test]
fn path_list_merges_and_dedupes() {
    let merged = merge_path_list(&strings(&["a", "b"]), None);
    assert_eq!(merged, strings(&["a", "b"]));
}

#[test]
fn path_list_reads_environment_value_first() {
    let merged = merge_path_list(&strings(&["b", "c"]), Some(" a : b;;c "));
    assert_eq!(merged, strings(&["a", "b", "c"]));
    assert_eq!(split_path_list(" x ;; y:"), strings(&["x", "y"]));
    assert!(split_path_list("").is_empty());
}

#[test]
fn dedupe_keeps_first_occurrences() {
    assert_eq!(dedupe_paths(strings(&["a", "b", "a", "c", "b"])), strings(&["a", "b", "c"]));
}

#[test]
fn joins_and_parents_paths() {
    assert_eq!(join_path("a", "b"), "a/b");
    assert_eq!(join_path("a/", "b"), "a/b");
    assert_eq!(join_path("", "b"), "b");
    assert_eq!(join_path("a", "/b"), "/b");
    assert_eq!(parent_dir("/x/y/"), Some("/x".to_string()));
    assert_eq!(parent_dir("/x"), Some("/".to_string()));
    assert_eq!(parent_dir("x"), Some(String::new()));
    assert_eq!(parent_dir("/"), None);
    assert_eq!(parent_dir(""), None);
}

#[test]
fn infers_packed_roots_once_each() {
    let roots = infer_packed_data_roots("/games/RimWorld", "/games/RimWorld/Data");
    assert_eq!(
        roots,
        strings(&[
            "/games/RimWorld/RimWorldMac.app/Contents/Resources/Data",
            "/games/RimWorld/Contents/Resources/Data",
            "/games/RimWorld/Data/Contents/Resources/Data",
        ])
    );
}

#[test]
fn combined_packed_roots_are_sorted_and_unique() {
    let roots = combine_packed_roots(strings(&["/b", "/a"]), strings(&["/a", "/c"]));
    assert_eq!(roots, strings(&["/a", "/b", "/c"]));
}

#[test]
fn loose_texture_roots_come_first_then_extras() {
    let loose = LooseFiles::new("/data".to_string(), strings(&["/extra"]));
    assert_eq!(loose.texture_roots(), strings(&["/data/Core/Textures", "/data/Textures", "/extra"]));
    assert_eq!(loose.extra_texture_roots(), &strings(&["/extra"])[..]);
}

#[test]
fn single_query_asks_for_variant_zero() {
    let q = TextureQuery::single("Things/A");
    assert_eq!(q.tex_path, "Things/A");
    assert_eq!(q.kind, GraphicKind::Single);
    assert_eq!(q.variant_index, 0);
}

#[test]
fn sprite_source_paths() {
    assert_eq!(SpriteSource::Disk("/t/a.png".to_string()).source_path(), Some("/t/a.png".to_string()));
    assert_eq!(SpriteSource::Packed { label: "x::1".to_string() }.source_path(), Some("x::1".to_string()));
    let fallback = SpriteSource::Fallback { attempted: strings(&["/p"]) };
    assert!(fallback.used_fallback());
    assert_eq!(fallback.source_path(), None);
    assert_eq!(fallback.attempted_paths().len(), 1);
}

#[test]
fn search_container_paths_filters_and_limits() {
    let paths = strings(&["textures/steel.png", "textures/wood.png", "textures/steel_b.png"]);
    assert_eq!(search_container_paths(&paths, "STEEL", 1), strings(&["textures/steel.png"]));
    assert_eq!(search_container_paths(&paths, "steel", 5), strings(&["textures/steel.png", "textures/steel_b.png"]));
}

#[test]
fn decode_probe_turns_packed_off_when_nothing_decodes() {
    let small = PackedDecodeHealth { attempted: 3, succeeded: 0, sample_errors: Vec::new() };
    assert!(decode_probe_outcome(small, 8).is_none());
    let failed = PackedDecodeHealth { attempted: 10, succeeded: 0, sample_errors: strings(&["e"]) };
    let outcome = decode_probe_outcome(failed, 8).unwrap();
    assert!(outcome.disable_packed);
    assert_eq!(outcome.sample_errors, strings(&["e"]));
    let fine = PackedDecodeHealth { attempted: 10, succeeded: 4, sample_errors: Vec::new() };
    assert!(!decode_probe_outcome(fine, 8).unwrap().disable_packed);
}

fn owned(items: &[&str]) -> Vec<String> {
    items.iter().map(|s| s.to_string()).collect()
}

#[test]
fn container_score_rewards_exact_suffix_things_and_png() {
    assert_eq!(
        container_match_score("textures/things/item/apple.png", "textures/things/item/apple.png"),
        150
    );
    assert_eq!(container_match_score("textures/ui/apple", "apple"), 120);
    assert_eq!(container_match_score("textures/ui/apple_x", "apple"), 0);
    let long = format!("{}.png", "a".repeat(200));
    assert_eq!(container_match_score(&long, "zzz"), 10 - 2);
}

#[test]
fn container_path_search_prefers_exact_then_stable() {
    let paths = owned(&[
        "textures/other/apple.png.bak",
        "textures/things/item/apple.png",
        "textures/things/item/apple_south.png",
        "textures/things/item/pear.png",
    ]);
    let r = find_by_container_paths(&paths, "Things/Item/Apple");
    assert_eq!(r[0], 1);
    assert!(r.contains(&2));
    assert!(!r.contains(&3));
    assert!(!r.contains(&0));
}

#[test]
fn container_path_search_keeps_ten_best() {
    let paths: Vec<String> = (0..15).map(|i| format!("textures/things/a/apple{i:02}")).collect();
    let r = find_by_container_paths(&paths, "Things/A/Apple");
    assert_eq!(r.len(), 10);
    assert_eq!(r, (0..10).collect::<Vec<usize>>());
}

#[test]
fn fuzzy_names_rank_exact_before_prefix_before_inner() {
    let names = owned(&["wild_apple", "apple_big", "apple", "pear"]);
    let r = find_fuzzy_name_matches(&names, "Things/Item/Apple");
    assert_eq!(r, vec![2, 1, 0]);
}

#[test]
fn fuzzy_names_long_names_lose_points() {
    let long = format!("apple{}", "x".repeat(40));
    let names = vec![long, "apple_b".to_string()];
    let r = find_fuzzy_name_matches(&names, "apple");
    assert_eq!(r, vec![1, 0]);
}

#[test]
fn folder_members_are_direct_children_without_masks_sorted() {
    let paths = owned(&[
        "textures/things/rock/b.png",
        "textures/things/rock/a.png",
        "textures/things/rock/a_m",
        "textures/things/rock/sub/c.png",
        "textures/things/rocky/d.png",
    ]);
    let r = folder_members(&paths, "Things/Rock");
    assert_eq!(r, vec![1, 0]);
}

#[test]
fn folder_members_of_empty_index() {
    let r = folder_members(&[], "Things/Rock");
    assert!(r.is_empty());
}

#[test]
fn lazy_builder_runs_once_when_result_is_none() {
    let mut calls = 0usize;
    let mut catalog: PackedCatalog<String> = PackedCatalog::new(vec![], vec![], None);
    let first = catalog
        .get(|_, _| {
            calls += 1;
            Ok::<Option<String>, ()>(None)
        })
        .unwrap()
        .cloned();
    let second = catalog
        .get(|_, _| {
            calls += 1;
            Ok::<Option<String>, ()>(None)
        })
        .unwrap()
        .cloned();
    assert_eq!(calls, 1);
    assert_eq!(first, None);
    assert_eq!(second, None);
    assert_eq!(catalog.next_step(), CatalogStep::Unavailable);
}

#[test]
fn disable_prevents_builder_execution() {
    let mut calls = 0usize;
    let mut catalog: PackedCatalog<String> = PackedCatalog::new(vec![], vec![], None);
    catalog.disable();
    let got = catalog
        .get(|_, _| {
            calls += 1;
            Ok::<Option<String>, ()>(Some("built".to_string()))
        })
        .unwrap()
        .cloned();
    assert_eq!(calls, 0);
    assert_eq!(got, None);
}

#[test]
fn builder_gets_the_roots_and_its_result_is_kept() {
    let mut seen: Vec<(Vec<String>, Vec<String>)> = Vec::new();
    let mut catalog: PackedCatalog<String> =
        PackedCatalog::new(vec!["/data".to_string()], vec!["/reg.json".to_string()], None);
    let first = catalog
        .get(|roots, regs| {
            seen.push((roots.to_vec(), regs.to_vec()));
            Ok::<Option<String>, ()>(Some("resolver".to_string()))
        })
        .unwrap()
        .cloned();
    let second = catalog
        .get(|_, _| Ok::<Option<String>, ()>(Some("other".to_string())))
        .unwrap()
        .cloned();
    assert_eq!(seen, vec![(vec!["/data".to_string()], vec!["/reg.json".to_string()])]);
    assert_eq!(first, Some("resolver".to_string()));
    assert_eq!(second, Some("resolver".to_string()));
    assert_eq!(catalog.next_step(), CatalogStep::Ready);
}

#[test]
fn failed_build_is_tried_again() {
    let mut catalog: PackedCatalog<String> = PackedCatalog::new(vec![], vec![], None);
    assert_eq!(catalog.get(|_, _| Err::<Option<String>, &str>("broken")).map(|o| o.cloned()), Err("broken"));
    assert_eq!(catalog.next_step(), CatalogStep::Build);
    let got = catalog.get(|_, _| Ok::<Option<String>, &str>(Some("r".to_string()))).unwrap().cloned();
    assert_eq!(got, Some("r".to_string()));
}

#[test]
fn built_resolver_is_reused_and_index_rules_out_textures() {
    let index = PackedTextureIndex::from_parts("sig".to_string(), vec!["steel".to_string()], vec![]);
    let mut catalog: PackedCatalog<String> = PackedCatalog::new(vec!["/data".to_string()], vec![], Some(index));
    assert_eq!(catalog.lookup_step("Things/Item/Steel"), CatalogStep::Build);
    let _ = catalog.get(|_, _| Ok::<Option<String>, ()>(Some("r".to_string())));
    assert_eq!(catalog.lookup_step("Things/Item/Steel"), CatalogStep::Ready);
    assert_eq!(catalog.lookup_step("Things/Item/Gold"), CatalogStep::Unavailable);
    assert!(!catalog.can_try("Things/Item/Gold"));
    assert_eq!(catalog.search_names("STE", 5), Some(vec!["steel".to_string()]));
    assert_eq!(catalog.packed_roots(), &["/data".to_string()]);
    let bare: PackedCatalog<String> = PackedCatalog::new(vec![], vec![], None);
    assert!(bare.can_try("anything"));
    assert_eq!(bare.search_names("x", 1), None);
}

#[test]
fn steam_install_candidates_under_home() {
    assert_eq!(
        rimworld_candidates(Some("/home/ann")),
        vec![
            "/home/ann/Library/Application Support/Steam/steamapps/common/RimWorld".to_string(),
            "/home/ann/.local/share/Steam/steamapps/common/RimWorld".to_string(),
        ]
    );
    assert!(rimworld_candidates(None).is_empty());
}

#[test]
fn packed_index_path_prefers_environment_then_home() {
    assert_eq!(packed_index_path(Some("  /tmp/idx.txt "), Some("/home/ann")), "/tmp/idx.txt");
    assert_eq!(
        packed_index_path(Some("   "), Some("/home/ann/")),
        "/home/ann/.cache/stitchlands-redux/packed_texture_index_v2.txt"
    );
    assert_eq!(packed_index_path(None, None), ".stitchlands-packed-index-v2.txt");
}

#[test]
fn extracted_textures_are_named_after_texture_and_path_id() {
    assert_eq!(extracted_texture_file_name(Some("Steel Wall"), 42), "Steel_Wall_42.png");
    assert_eq!(extracted_texture_file_name(None, -7), "pathid_-7_-7.png");
    assert_eq!(extracted_texture_file_name(Some("!!"), i64::MIN), "texture_-9223372036854775808.png");
}

#[test]
fn sprite_source_kinds() {
    assert!(SpriteSource::Packed { label: "x".to_string() }.resolved_from_packed());
    assert!(!SpriteSource::Disk("a.png".to_string()).resolved_from_packed());
    assert!(!SpriteSource::Fallback { attempted: Vec::new() }.resolved_from_packed());
}

#[test]
fn loose_candidates_go_root_by_root() {
    let loose = LooseFiles::new("/data".to_string(), strings(&["/extra"]));
    assert_eq!(
        loose.candidate_files("Things/Steel"),
        strings(&[
            "/data/Core/Textures/Things/Steel.png",
            "/data/Core/Textures/Things/Steel_south.png",
            "/data/Core/Textures/Things/Steel_north.png",
            "/data/Textures/Things/Steel.png",
            "/data/Textures/Things/Steel_south.png",
            "/data/Textures/Things/Steel_north.png",
            "/extra/Things/Steel.png",
            "/extra/Things/Steel_south.png",
            "/extra/Things/Steel_north.png",
        ])
    );
}

#[test]
fn dedupe_compares_paths_by_component() {
    assert_eq!(
        dedupe_paths(strings(&["/g//Contents/Resources/Data", "/g/Contents/Resources/Data", "/g/./Contents/Resources/Data/"])),
        strings(&["/g//Contents/Resources/Data"])
    );
    assert!(same_path("a/./b", "a/b/"));
    assert!(same_path("./a", "./a//"));
    assert!(!same_path("./a", "a"));
    assert!(!same_path("/a", "a"));
    assert!(!same_path("a/../b", "b"));
    assert!(same_path(".", "./"));
    assert!(!same_path("", "."));
}

#[test]
fn infer_packed_roots_drops_the_same_path_spelled_twice() {
    let roots = infer_packed_data_roots("/g//", "/g");
    assert_eq!(roots.len(), 3);
}

#[test]
fn packed_roots_sort_by_component_and_keep_one_spelling() {
    let roots = combine_packed_roots(strings(&["/a-b", "/a//b"]), strings(&["/a/b/", "/a"]));
    assert_eq!(roots, strings(&["/a", "/a//b", "/a-b"]));
    assert!(path_less("/a/b", "/a-b"));
    assert!(!path_less("/a-b", "/a/b"));
    assert!(path_less("/z", "a"));
    assert!(path_less("./z", "a"));
    assert!(path_less("../z", "a"));
    assert!(!path_less("a/b", "a//b/"));
}
