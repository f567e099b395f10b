//! Loose texture files under the game's data folder and extra roots.
use vstd::prelude::*;

use super::paths::{join_path, join_spec, views};
use super::variants::{strings_view, variants_for};
use crate::defs::GraphicKind;

verus! {

/// Texture folders on disk: those of the game's data folder, then the
/// extra roots given.
pub struct LooseFiles {
    core_data_dir: String,
    extra_texture_roots: Vec<String>,
}

/// `data/Core/Textures`, `data/Textures`, then the extra roots.
pub open spec fn texture_root_list(core_data_dir: Seq<char>, extra: Seq<String>) -> Seq<Seq<char>> {
    seq![join_spec(join_spec(core_data_dir, "Core"@), "Textures"@), join_spec(core_data_dir, "Textures"@)]
        + views(extra)
}

/// The files to try for texture `tex_path`, root by root in order: under
/// each, the path with `.png`, then its `_south` and `_north` variants.
pub open spec fn disk_search_order(roots: Seq<Seq<char>>, tex_path: Seq<char>) -> Seq<Seq<char>>
    decreases roots.len(),
{
    if roots.len() == 0 {
        Seq::empty()
    } else {
        let r = roots.last();
        disk_search_order(roots.drop_last(), tex_path) + seq![
            join_spec(r, tex_path + ".png"@),
            join_spec(r, tex_path + "_south.png"@),
            join_spec(r, tex_path + "_north.png"@),
        ]
    }
}

impl LooseFiles {
    pub closed spec fn spec_core_data_dir(&self) -> Seq<char> {
        self.core_data_dir@
    }

    pub closed spec fn spec_extra_texture_roots(&self) -> Seq<String> {
        self.extra_texture_roots@
    }

    pub fn new(core_data_dir: String, extra_texture_roots: Vec<String>) -> (r: Self)
        ensures
            r.spec_core_data_dir() == core_data_dir@,
            r.spec_extra_texture_roots() == extra_texture_roots@,
    {
        LooseFiles { core_data_dir, extra_texture_roots }
    }

    pub fn extra_texture_roots(&self) -> (r: &[String])
        ensures
            r@ == self.spec_extra_texture_roots(),
    {
        self.extra_texture_roots.as_slice()
    }

    /// The folders searched for a texture, in order.
    pub fn texture_roots(&self) -> (r: Vec<String>)
        ensures
            views(r@) == texture_root_list(self.spec_core_data_dir(), self.spec_extra_texture_roots()),
    {
        let core = join_path(self.core_data_dir.as_str(), "Core");
        let mut roots: Vec<String> = vec![
            join_path(core.as_str(), "Textures"),
            join_path(self.core_data_dir.as_str(), "Textures"),
        ];
        let ghost head = views(roots@);
        let mut i: usize = 0;
        while i < self.extra_texture_roots.len()
            invariant
                i <= self.extra_texture_roots@.len(),
                views(roots@) == head + views(self.extra_texture_roots@.take(i as int)),
            decreases self.extra_texture_roots.len() - i,
        {
            let ghost before = roots@;
            let item = self.extra_texture_roots[i].clone();
            roots.push(item);
            proof {
                let ex = self.extra_texture_roots@;
                assert(ex.take(i + 1) =~= ex.take(i as int).push(ex[i as int]));
                assert(views(ex.take(i + 1)) =~= views(ex.take(i as int)).push(ex[i as int]@));
                assert(views(roots@) =~= views(before).push(ex[i as int]@));
                assert(views(roots@) =~= head + views(ex.take(i + 1)));
            }
            i += 1;
        }
        proof {
            assert(self.extra_texture_roots@.take(self.extra_texture_roots@.len() as int)
                =~= self.extra_texture_roots@);
            assert(head =~= seq![
                join_spec(join_spec(self.core_data_dir@, "Core"@), "Textures"@),
                join_spec(self.core_data_dir@, "Textures"@),
            ]);
        }
        roots
    }

    /// The files to try, in order, for a texture on disk; the first that
    /// exists is used, and the fuzzy pick by name comes after them all.
    pub fn candidate_files(&self, tex_path: &str) -> (r: Vec<String>)
        ensures
            strings_view(r@) == disk_search_order(
                texture_root_list(self.spec_core_data_dir(), self.spec_extra_texture_roots()),
                tex_path@,
            ),
    {
        let roots = self.texture_roots();
        let ghost rv = views(roots@);
        let variants = variants_for(tex_path, GraphicKind::Single);
        let mut out: Vec<String> = Vec::new();
        let mut i: usize = 0;
        while i < roots.len()
            invariant
                i <= roots@.len(),
                rv == views(roots@),
                variants.tex_path@ == tex_path@,
                strings_view(out@) == disk_search_order(rv.take(i as int), tex_path@),
            decreases roots.len() - i,
        {
            let more = variants.disk_candidates(roots[i].as_str());
            let ghost before = out@;
            let mut j: usize = 0;
            while j < more.len()
                invariant
                    j <= more@.len(),
                    strings_view(out@) == strings_view(before) + strings_view(more@).take(j as int),
                decreases more.len() - j,
            {
                let c = more[j].clone();
                let ghost prev = out@;
                out.push(c);
                proof {
                    assert(c@ == more@[j as int]@);
                    assert(strings_view(out@) =~= strings_view(prev).push(c@));
                    assert(strings_view(more@).take(j + 1) =~= strings_view(more@).take(j as int).push(more@[j as int]@));
                    assert(strings_view(out@) =~= strings_view(before) + strings_view(more@).take(j + 1));
                }
                j += 1;
            }
            proof {
                assert(strings_view(more@).take(more@.len() as int) =~= strings_view(more@));
                assert(rv.take(i + 1).drop_last() =~= rv.take(i as int));
                assert(rv.take(i + 1).last() == roots@[i as int]@);
            }
            i += 1;
        }
        proof {
            assert(rv.take(rv.len() as int) =~= rv);
        }
        out
    }
}

} // verus!
