pub mod compose;
pub mod graph;
pub mod model;
pub mod parms;
pub mod render_input;
pub mod rules;

pub use model::{ApparelCoverage, ApparelLayer, OverlayAnchor, PawnDrawFlags, PawnFacing};
pub use render_input::{map_explicit_skip_flags, resolve_directional_tex_path, DirectionalTexturePath};
