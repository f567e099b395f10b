use vstd::prelude::*;

pub mod backend;
pub mod catalog;
pub mod default_config;
pub mod fuzzy;
pub mod index_build;
pub mod index_text;
pub mod loose;
pub mod packed_index;
pub mod packed_textures;
pub mod paths;
pub mod ranking;
pub mod variants;

use self::paths::{dedup_runs, sort_dedup_paths, sort_paths, views};

verus! {

/// Where to find the game's data and its textures, as given on the command
/// line.
#[derive(Debug, Clone)]
pub struct AssetSetupOptions {
    pub rimworld_data: Option<String>,
    pub texture_roots: Vec<String>,
    pub packed_roots: Vec<String>,
    pub typetree_registry: Vec<String>,
    pub auto_typetree: bool,
    pub packed_index_path: Option<String>,
    pub rebuild_packed_index: bool,
    pub disable_packed_index: bool,
}

/// The packed roots to load: those inferred from the game's location and
/// those given, sorted as `std::path::Path` orders paths, each path once.
pub fn combine_packed_roots(inferred: Vec<String>, overrides: Vec<String>) -> (r: Vec<String>)
    ensures
        views(r@) == dedup_runs(sort_paths(views(inferred@) + views(overrides@))),
{
    let mut all = inferred;
    let ghost a = all@;
    let mut more = overrides;
    let ghost b = more@;
    all.append(&mut more);
    proof {
        assert(all@ == a + b);
        assert(views(all@) =~= views(a) + views(b));
    }
    sort_dedup_paths(all)
}

} // verus!
