use vstd::prelude::*;

verus! {

/// The texture the snow overlay is drawn with, as the game's material
/// resources name it.
pub const SNOW_MATERIAL_TEXTURE_PATH: &'static str = "Other/Snow";

} // verus!
