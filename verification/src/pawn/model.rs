//! Plain data describing a pawn to draw: its facing, the apparel layers it
//! wears and the flags that hide parts of its head.
use vstd::prelude::*;

use crate::defs::ApparelLayerDef;

verus! {

/// The four directions a pawn can face.
#[derive(Debug, Clone, Copy, PartialEq, Eq, Structural)]
pub enum PawnFacing {
    North,
    East,
    South,
    West,
}

/// The layer an apparel item is worn on, from the skin outwards.
#[derive(Debug, Clone, Copy, PartialEq, Eq, Structural)]
pub enum ApparelLayer {
    OnSkin,
    Middle,
    Shell,
    Belt,
    Overhead,
    EyeCover,
}

/// Draw order of an apparel layer: ten for the skin, ten more per layer out.
pub open spec fn layer_rank(layer: ApparelLayer) -> int {
    match layer {
        ApparelLayer::OnSkin => 10,
        ApparelLayer::Middle => 20,
        ApparelLayer::Shell => 30,
        ApparelLayer::Belt => 40,
        ApparelLayer::Overhead => 50,
        ApparelLayer::EyeCover => 60,
    }
}

impl ApparelLayer {
    pub fn draw_order(self) -> (r: i32)
        ensures
            r == layer_rank(self),
    {
        match self {
            ApparelLayer::OnSkin => 10,
            ApparelLayer::Middle => 20,
            ApparelLayer::Shell => 30,
            ApparelLayer::Belt => 40,
            ApparelLayer::Overhead => 50,
            ApparelLayer::EyeCover => 60,
        }
    }

    /// Layers drawn over the head rather than the body.
    pub fn is_head_layer(self) -> (r: bool)
        ensures
            r == (self is Overhead || self is EyeCover),
    {
        matches!(self, ApparelLayer::Overhead | ApparelLayer::EyeCover)
    }
}

/// The apparel layer that a def's layer names.
pub open spec fn layer_of_def(layer: ApparelLayerDef) -> ApparelLayer {
    match layer {
        ApparelLayerDef::OnSkin => ApparelLayer::OnSkin,
        ApparelLayerDef::Middle => ApparelLayer::Middle,
        ApparelLayerDef::Shell => ApparelLayer::Shell,
        ApparelLayerDef::Belt => ApparelLayer::Belt,
        ApparelLayerDef::Overhead => ApparelLayer::Overhead,
        ApparelLayerDef::EyeCover => ApparelLayer::EyeCover,
    }
}

impl From<ApparelLayerDef> for ApparelLayer {
    fn from(layer: ApparelLayerDef) -> (r: ApparelLayer) {
        match layer {
            ApparelLayerDef::OnSkin => ApparelLayer::OnSkin,
            ApparelLayerDef::Middle => ApparelLayer::Middle,
            ApparelLayerDef::Shell => ApparelLayer::Shell,
            ApparelLayerDef::Belt => ApparelLayer::Belt,
            ApparelLayerDef::Overhead => ApparelLayer::Overhead,
            ApparelLayerDef::EyeCover => ApparelLayer::EyeCover,
        }
    }
}

impl vstd::std_specs::convert::FromSpecImpl<ApparelLayerDef> for ApparelLayer {
    open spec fn obeys_from_spec() -> bool {
        true
    }

    open spec fn from_spec(layer: ApparelLayerDef) -> ApparelLayer {
        layer_of_def(layer)
    }
}

/// Where a hediff overlay is anchored.
#[derive(Debug, Clone, Copy, PartialEq, Eq, Structural)]
pub enum OverlayAnchor {
    Body,
    Head,
}

/// Parts of the head that the pawn's own state hides.
#[derive(Debug, Clone, Copy, PartialEq, Eq, Structural)]
pub struct PawnDrawFlags {
    pub hide_hair: bool,
    pub hide_beard: bool,
    pub hide_head: bool,
    pub head_stump: bool,
}

impl PawnDrawFlags {
    /// No part hidden.
    pub fn none() -> (r: Self)
        ensures
            !r.hide_hair && !r.hide_beard && !r.hide_head && !r.head_stump,
    {
        PawnDrawFlags { hide_hair: false, hide_beard: false, hide_head: false, head_stump: false }
    }
}

/// What of an apparel item decides which head parts it hides: the head
/// groups its body-part groups cover.
#[derive(Debug, Clone, Copy, PartialEq, Eq, Structural)]
pub struct ApparelCoverage {
    pub covers_upper_head: bool,
    pub covers_full_head: bool,
}

} // verus!
