//! What a texture lookup asks for, and where a found sprite came from.
use vstd::prelude::*;

use crate::defs::GraphicKind;

verus! {

/// A texture lookup: the `texPath`, how the graphic is assembled, and for
/// graphics with several variants the one wanted.
#[derive(Debug, Clone, Copy)]
pub struct TextureQuery<'a> {
    pub tex_path: &'a str,
    pub kind: GraphicKind,
    pub variant_index: usize,
}

impl<'a> TextureQuery<'a> {
    /// A lookup of a single-texture graphic.
    pub fn single(tex_path: &'a str) -> (q: Self)
        ensures
            q.tex_path@ == tex_path@,
            q.kind is Single,
            q.variant_index == 0,
    {
        TextureQuery { tex_path, kind: GraphicKind::Single, variant_index: 0 }
    }
}

/// Where a sprite came from: a file on disk, packed game data, or the
/// fallback image after the listed paths were tried.
#[derive(Debug, Clone)]
pub enum SpriteSource {
    Disk(String),
    Packed { label: String },
    Fallback { attempted: Vec<String> },
}

impl SpriteSource {
    pub fn used_fallback(&self) -> (r: bool)
        ensures
            r == (self is Fallback),
    {
        matches!(self, SpriteSource::Fallback { .. })
    }

    pub fn resolved_from_packed(&self) -> (r: bool)
        ensures
            r == (self is Packed),
    {
        matches!(self, SpriteSource::Packed { .. })
    }

    /// The file or packed label the sprite came from; none for the fallback.
    pub fn source_path(&self) -> (r: Option<String>)
        ensures
            match self {
                SpriteSource::Disk(p) => r matches Some(s) && s@ == p@,
                SpriteSource::Packed { label } => r matches Some(s) && s@ == label@,
                SpriteSource::Fallback { .. } => r is None,
            },
    {
        match self {
            SpriteSource::Disk(p) => Some(p.clone()),
            SpriteSource::Packed { label } => Some(label.clone()),
            SpriteSource::Fallback { .. } => None,
        }
    }

    /// The paths tried before falling back; none otherwise.
    pub fn attempted_paths(&self) -> (r: &[String])
        ensures
            match self {
                SpriteSource::Fallback { attempted } => r@ == attempted@,
                _ => r@.len() == 0,
            },
    {
        match self {
            SpriteSource::Fallback { attempted } => attempted.as_slice(),
            _ => &[],
        }
    }
}

} // verus!
