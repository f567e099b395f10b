//! The command-line arguments that choose the game data and the debug
//! commands, as plain values.
use vstd::prelude::*;

use crate::assets::AssetSetupOptions;

verus! {

/// Where the game data and textures are.
#[derive(Debug, Clone)]
pub struct DataArgs {
    pub rimworld_data: Option<String>,
    pub texture_root: Vec<String>,
    pub packed_data_root: Vec<String>,
    pub packed_index_path: Option<String>,
    pub rebuild_packed_index: bool,
    pub no_packed_index: bool,
    pub typetree_registry: Vec<String>,
    pub auto_typetree: bool,
    pub allow_fallback: bool,
}

impl DataArgs {
    /// The asset setup these arguments ask for.
    pub fn asset_options(&self) -> (r: AssetSetupOptions)
        ensures
            r.rimworld_data == self.rimworld_data,
            r.texture_roots@ == self.texture_root@,
            r.packed_roots@ == self.packed_data_root@,
            r.typetree_registry@ == self.typetree_registry@,
            r.auto_typetree == self.auto_typetree,
            r.packed_index_path == self.packed_index_path,
            r.rebuild_packed_index == self.rebuild_packed_index,
            r.disable_packed_index == self.no_packed_index,
    {
        AssetSetupOptions {
            rimworld_data: self.rimworld_data.clone(),
            texture_roots: self.texture_root.clone(),
            packed_roots: self.packed_data_root.clone(),
            typetree_registry: self.typetree_registry.clone(),
            auto_typetree: self.auto_typetree,
            packed_index_path: self.packed_index_path.clone(),
            rebuild_packed_index: self.rebuild_packed_index,
            disable_packed_index: self.no_packed_index,
        }
    }
}

/// The debug commands.
#[derive(Debug, Clone)]
pub enum DebugCmd {
    ListDefs { def_filter: Option<String>, list_limit: usize },
    SearchPackedTextures { query: String, search_limit: usize },
    DiagnoseTextures,
    ProbeTerrain { terrain_probe_limit: usize },
    ExtractPackedTextures { output_dir: String },
    PackedDecodeProbe { sample_limit: usize, min_attempts: usize },
    ValidateFixture { path: String },
}

/// The arguments of the `debug` command.
#[derive(Debug, Clone)]
pub struct DebugCmdArgs {
    pub command: DebugCmd,
}

/// What a view's window settings ask of the renderer.
#[derive(Debug, Clone, Copy, PartialEq, Eq, Structural)]
pub struct WindowPlan {
    /// Whether the renderer runs at all.
    pub run_renderer: bool,
    /// The surface size in pixels, each side at least 1.
    pub surface_width: u32,
    pub surface_height: u32,
    /// Whether the window is kept hidden.
    pub hide_window: bool,
}

/// The renderer runs unless no window is wanted and no screenshot either;
/// the surface is the viewport, each side at least 1 pixel; the window is
/// hidden when asked, or when there is no window but a screenshot is due.
pub fn window_plan(
    no_window: bool,
    screenshot: bool,
    hidden_window: bool,
    viewport_width: u32,
    viewport_height: u32,
) -> (r: WindowPlan)
    ensures
        r.run_renderer == (!no_window || screenshot),
        r.surface_width == if viewport_width >= 1 { viewport_width } else { 1 },
        r.surface_height == if viewport_height >= 1 { viewport_height } else { 1 },
        r.hide_window == (hidden_window || (no_window && screenshot)),
{
    WindowPlan {
        run_renderer: !no_window || screenshot,
        surface_width: if viewport_width >= 1 { viewport_width } else { 1 },
        surface_height: if viewport_height >= 1 { viewport_height } else { 1 },
        hide_window: hidden_window || (no_window && screenshot),
    }
}

} // verus!
