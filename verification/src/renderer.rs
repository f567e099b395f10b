//! The renderer's plain identifiers: texture handles, overlay passes and
//! blending, and the kinds of terrain edge fans.
use vstd::prelude::*;

use crate::linking::TerrainEdgeType;

verus! {

/// A handle to a texture registered with the renderer.
#[derive(Debug, Clone, Copy, PartialEq, Eq, Structural, Hash)]
pub struct TextureId(pub u32);

/// When an overlay mesh is drawn within a frame.
#[derive(Debug, Clone, Copy, PartialEq, Eq, Structural)]
pub enum OverlayPass {
    BeforeWorld,
    AfterTerrain,
    AfterStatic,
    AfterDynamic,
}

/// How an overlay mesh is blended with what is under it.
#[derive(Debug, Clone, Copy, PartialEq, Eq, Structural)]
pub enum OverlayBlendMode {
    Alpha,
    Multiply,
    SunShadow,
}

/// The shading of a terrain edge fan.
#[derive(Debug, Clone, Copy, PartialEq, Eq, Structural)]
pub enum EdgeType {
    FadeRough,
    Water,
}

impl EdgeType {
    /// The number the edge shader reads: 1 for a rough fade, 2 for water.
    pub fn shader_code(self) -> (r: u32)
        ensures
            r == (if self is FadeRough { 1u32 } else { 2u32 }),
    {
        match self {
            EdgeType::FadeRough => 1,
            EdgeType::Water => 2,
        }
    }

    /// The fan a terrain's edge type draws onto lower terrain: none for
    /// terrain without edges or with hard edges.
    pub fn for_terrain(edge: TerrainEdgeType) -> (r: Option<EdgeType>)
        ensures
            match edge {
                TerrainEdgeType::FadeRough => r == Some(EdgeType::FadeRough),
                TerrainEdgeType::Water => r == Some(EdgeType::Water),
                _ => r is None,
            },
    {
        match edge {
            TerrainEdgeType::FadeRough => Some(EdgeType::FadeRough),
            TerrainEdgeType::Water => Some(EdgeType::Water),
            _ => None,
        }
    }
}

} // verus!
