use stitchlands::assets::fuzzy::{best_fuzzy_candidate, fuzzy_score, pick_fuzzy_match, FoundFile};

fn png(path: &str, stem: &str) -> FoundFile {
    FoundFile { path: path.to_string(), stem: Some(stem.to_string()), extension: Some("png".to_string()) }
}

#[test]
fn fuzzy_score_counts_every_bonus() {
    let score = fuzzy_score("/root/Core/Textures/Things/Item/Resource/Steel.png", "Things/Item/Resource/Steel");
    assert_eq!(score, 100 + 25 + 10 + 15 - 1);
}

#[test]
fn fuzzy_score_basename_only() {
    let score = fuzzy_score("/data/extracted/dump/textures/resource/Steel.png", "Things/Item/Resource/Steel");
    assert_eq!(score, 15 - 1);
}

#[test]
fn fuzzy_score_ignores_ascii_case() {
    assert_eq!(fuzzy_score("X/THINGS/STEEL.PNG", "steel"), 100 + 25 + 15);
}

#[test]
fn fuzzy_pick_prefers_higher_score_then_first() {
    let files = vec![
        png("/dump/a/Steel.png", "Steel"),
        png("/dump/things/Steel.png", "Steel"),
        png("/dump/things/steel.png", "steel"),
    ];
    assert_eq!(best_fuzzy_candidate(&files, "Things/Item/Resource/Steel"), Some(1));
}

#[test]
fn fuzzy_pick_takes_directional_stems_and_png_in_any_case() {
    let files = vec![
        FoundFile { path: "/d/Steel.jpg".to_string(), stem: Some("Steel".to_string()), extension: Some("jpg".to_string()) },
        FoundFile { path: "/d/Steel_north.PNG".to_string(), stem: Some("Steel_north".to_string()), extension: Some("PNG".to_string()) },
        png("/d/Steel_east.png", "Steel_east"),
    ];
    assert_eq!(best_fuzzy_candidate(&files, "Things/Steel"), Some(1));
}

#[test]
fn fuzzy_pick_uses_first_root_with_a_candidate() {
    let roots = vec![
        vec![png("/a/Iron.png", "Iron")],
        Vec::new(),
        vec![png("/c/other/Steel.png", "Steel")],
        vec![png("/d/things/Steel.png", "Steel")],
    ];
    assert_eq!(pick_fuzzy_match(&roots, "Things/Item/Resource/Steel"), Some((2, 0)));
    assert_eq!(pick_fuzzy_match(&roots, "Things/Gold"), None);
}
