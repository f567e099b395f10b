use stitchlands::fixtures::validate::{fixture_issue_list, validate_fixture, FixtureIssue, GridName, PawnPart};
use stitchlands::fixtures::{FixtureChecks, GlowSourceCheck, PawnSpawn, RoofCell, TerrainCell, ThingSpawn};
use stitchlands::pawn::PawnFacing;

fn base_fixture() -> FixtureChecks {
    FixtureChecks {
        schema_version: 2,
        width: 2,
        height: 2,
        terrain: vec![TerrainCell { terrain_def: "Soil".to_string() }; 4],
        roofs: Vec::new(),
        fog_len: 0,
        snow_depth_ok: Vec::new(),
        things: Vec::new(),
        pawns: Vec::new(),
        camera_finite: None,
        day_percent_ok: None,
        sky_glow_finite: None,
        shadow_color_finite: None,
        shadow_vector_finite: None,
        glow_sources: Vec::new(),
    }
}

fn snow_ok(depths: &[f32]) -> Vec<bool> {
    depths.iter().map(|d| d.is_finite() && (0.0..=1.0).contains(d)).collect()
}

#[test]
fn valid_fixture_passes() {
    assert_eq!(validate_fixture(&base_fixture()), Ok(()));
}

#[test]
fn validates_render_state_grid_lengths() {
    let mut fixture = base_fixture();
    fixture.fog_len = 2;
    let err = validate_fixture(&fixture).unwrap_err();
    assert!(err.contains("map.fog cell count mismatch"));
}

#[test]
fn validates_roof_snow_and_glow_source_values() {
    let mut fixture = base_fixture();
    fixture.roofs = vec![
        RoofCell::default(),
        RoofCell { roofed: false, thick: true },
        RoofCell::default(),
        RoofCell::default(),
    ];
    fixture.snow_depth_ok = snow_ok(&[0.0, 0.25, 1.25, 0.0]);
    let day_percent = 1.2f32;
    fixture.day_percent_ok = Some(day_percent.is_finite() && (0.0..=1.0).contains(&day_percent));
    let radius = -1.0f32;
    fixture.glow_sources = vec![GlowSourceCheck {
        cell_x: 3,
        cell_z: 0,
        radius_ok: radius.is_finite() && radius >= 0.0,
        overlight_radius_ok: true,
        color_finite: true,
    }];
    let err = validate_fixture(&fixture).unwrap_err();
    assert!(err.contains("cannot be thick without roofed"));
    assert!(err.contains("map.snow_depth[2]"));
    assert!(err.contains("render.day_percent"));
    assert!(err.contains("render.glow_sources[0] cell"));
    assert!(err.contains("render.glow_sources[0].radius"));
}

#[test]
fn report_lists_every_issue_in_order() {
    let mut fixture = base_fixture();
    fixture.schema_version = 1;
    fixture.terrain.pop();
    fixture.things = vec![ThingSpawn { def_name: " ".to_string(), cell_x: -1, cell_z: 0, blocks_movement: false }];
    let err = validate_fixture(&fixture).unwrap_err();
    assert_eq!(
        err,
        "fixture validation failed:\n\
         - unsupported schema_version 1 (expected 2)\n\
         - map terrain cell count mismatch: got 3 expected 4 (2x2)\n\
         - things[0].def_name is empty\n\
         - things[0] non-blocking item must still provide a def_name\n\
         - things[0] cell (-1, 0) is out of map bounds 2x2\n"
    );
}

#[test]
fn pawn_names_must_not_be_blank() {
    let mut fixture = base_fixture();
    fixture.pawns = vec![PawnSpawn {
        cell_x: 1,
        cell_z: 1,
        label: Some("".to_string()),
        body: None,
        head: Some("  ".to_string()),
        hair: Some("Shaved".to_string()),
        beard: None,
        apparel_defs: vec!["Apparel_Pants".to_string(), "\t".to_string()],
        facing: PawnFacing::South,
    }];
    let issues = fixture_issue_list(&fixture);
    assert_eq!(
        issues,
        vec![
            FixtureIssue::BlankPawnLabel { index: 0 },
            FixtureIssue::BlankPawnPart { index: 0, part: PawnPart::Head },
            FixtureIssue::BlankApparelDef { index: 0, apparel_index: 1 },
        ]
    );
    assert_eq!(issues[1].message(), "pawns[0].head cannot be blank");
    assert_eq!(issues[2].message(), "pawns[0].apparel_defs[1] cannot be blank");
}

#[test]
fn empty_map_is_reported() {
    let mut fixture = base_fixture();
    fixture.width = 0;
    fixture.terrain.clear();
    fixture.roofs = vec![RoofCell::default()];
    let issues = fixture_issue_list(&fixture);
    assert_eq!(
        issues,
        vec![
            FixtureIssue::EmptyDimensions,
            FixtureIssue::GridCountMismatch { grid: GridName::Roofs, got: 1, expected: 0 },
        ]
    );
    assert_eq!(issues[1].message(), "map.roofs cell count mismatch: got 1 expected 0");
}

#[test]
fn render_checks_are_reported() {
    let mut fixture = base_fixture();
    fixture.camera_finite = Some(false);
    fixture.sky_glow_finite = Some(true);
    fixture.shadow_vector_finite = Some(false);
    let issues = fixture_issue_list(&fixture);
    assert_eq!(issues, vec![FixtureIssue::CameraNotFinite, FixtureIssue::ShadowVectorNotFinite]);
}
