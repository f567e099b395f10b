//! The parts of a scene fixture that validation reads.
use vstd::prelude::*;

use crate::pawn::PawnFacing;

verus! {

/// One map cell's terrain, by def name.
#[derive(Debug, Clone)]
pub struct TerrainCell {
    pub terrain_def: String,
}

/// One map cell's roof.
#[derive(Debug, Clone, Copy, PartialEq, Eq, Structural)]
pub struct RoofCell {
    pub roofed: bool,
    pub thick: bool,
}

impl Default for RoofCell {
    fn default() -> (r: Self)
        ensures
            !r.roofed && !r.thick,
    {
        RoofCell { roofed: false, thick: false }
    }
}

/// A thing placed on the map.
#[derive(Debug, Clone)]
pub struct ThingSpawn {
    pub def_name: String,
    pub cell_x: i32,
    pub cell_z: i32,
    pub blocks_movement: bool,
}

/// A pawn placed on the map. `body`, `head`, `hair` and `beard` are def
/// names, not texture path segments.
#[derive(Debug, Clone)]
pub struct PawnSpawn {
    pub cell_x: i32,
    pub cell_z: i32,
    pub label: Option<String>,
    pub body: Option<String>,
    pub head: Option<String>,
    pub hair: Option<String>,
    pub beard: Option<String>,
    pub apparel_defs: Vec<String>,
    pub facing: PawnFacing,
}

/// A glow source as validation sees it: its cell, and whether its radius,
/// overlight radius and color passed the numeric checks (finite, and the
/// radii not negative).
#[derive(Debug, Clone, Copy, PartialEq, Eq, Structural)]
pub struct GlowSourceCheck {
    pub cell_x: i32,
    pub cell_z: i32,
    pub radius_ok: bool,
    pub overlight_radius_ok: bool,
    pub color_finite: bool,
}

/// What fixture validation reads. The numeric checks on floating-point
/// fields are made by the caller and handed in as answers: `snow_depth_ok`
/// holds, per snow cell, whether the depth is finite and within `0..=1`;
/// the optional render and camera fields hold `None` when absent and else
/// whether they passed.
#[derive(Debug, Clone)]
pub struct FixtureChecks {
    pub schema_version: u32,
    pub width: usize,
    pub height: usize,
    pub terrain: Vec<TerrainCell>,
    pub roofs: Vec<RoofCell>,
    pub fog_len: usize,
    pub snow_depth_ok: Vec<bool>,
    pub things: Vec<ThingSpawn>,
    pub pawns: Vec<PawnSpawn>,
    pub camera_finite: Option<bool>,
    pub day_percent_ok: Option<bool>,
    pub sky_glow_finite: Option<bool>,
    pub shadow_color_finite: Option<bool>,
    pub shadow_vector_finite: Option<bool>,
    pub glow_sources: Vec<GlowSourceCheck>,
}

} // verus!
