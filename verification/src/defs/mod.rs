use vstd::prelude::*;

pub mod apparel;
pub mod apparel_defs;
pub mod head_types;
pub mod loaders;
pub mod numbers;
pub mod reader;
pub mod render_defs;
pub mod render_tree;
pub mod xml;

pub use loaders::{load_hair_defs, load_terrain_defs, HairDefRender, TerrainDef};

verus! {

/// How a def's graphic is assembled from textures.
#[derive(Debug, Clone, Copy, PartialEq, Eq, Structural, Default)]
pub enum GraphicKind {
    #[default]
    Single,
    Random,
    Appearances,
}

impl GraphicKind {
    pub fn is_random(self) -> (r: bool)
        ensures
            r == (self is Random),
    {
        matches!(self, GraphicKind::Random)
    }
}

/// The apparel layer a def names in its `layers` list.
#[derive(Debug, Clone, Copy, PartialEq, Eq, Structural)]
pub enum ApparelLayerDef {
    OnSkin,
    Middle,
    Shell,
    Belt,
    Overhead,
    EyeCover,
}

/// Draw order of a def's layer: ten for the skin, ten more per layer out.
pub open spec fn def_layer_rank(layer: ApparelLayerDef) -> int {
    match layer {
        ApparelLayerDef::OnSkin => 10,
        ApparelLayerDef::Middle => 20,
        ApparelLayerDef::Shell => 30,
        ApparelLayerDef::Belt => 40,
        ApparelLayerDef::Overhead => 50,
        ApparelLayerDef::EyeCover => 60,
    }
}

impl ApparelLayerDef {
    pub fn draw_order(self) -> (r: i32)
        ensures
            r == def_layer_rank(self),
    {
        match self {
            ApparelLayerDef::OnSkin => 10,
            ApparelLayerDef::Middle => 20,
            ApparelLayerDef::Shell => 30,
            ApparelLayerDef::Belt => 40,
            ApparelLayerDef::Overhead => 50,
            ApparelLayerDef::EyeCover => 60,
        }
    }
}

/// A head part that an apparel def asks not to draw.
#[derive(Debug, Clone, Copy, PartialEq, Eq, Structural)]
pub enum ApparelSkipFlagDef {
    Hair,
    Beard,
}

} // verus!
