//! The texture-path and per-direction decisions made while building a
//! pawn's render input. Whether a texture exists is asked of the asset
//! store by the caller; these functions take its answers as arguments.
use vstd::prelude::*;

use super::model::PawnFacing;
use crate::defs::{ApparelLayerDef, ApparelSkipFlagDef};
use crate::text::{
    chars_of, concat_str, contains, contains_chars, ends_with, ends_with_chars, lower, lower_chars, string_of,
};

verus! {

/// A texture path and the facing whose draw data goes with it.
#[derive(Debug, Clone)]
pub struct DirectionalTexturePath {
    pub path: String,
    pub data_facing: PawnFacing,
}

pub open spec fn facing_suffix(f: PawnFacing) -> Seq<char> {
    match f {
        PawnFacing::North => "_north"@,
        PawnFacing::East => "_east"@,
        PawnFacing::South => "_south"@,
        PawnFacing::West => "_west"@,
    }
}

/// A path that already names a direction.
pub open spec fn is_directional(path: Seq<char>) -> bool {
    ||| ends_with(path, "_north"@)
    ||| ends_with(path, "_south"@)
    ||| ends_with(path, "_east"@)
    ||| ends_with(path, "_west"@)
}

/// The facings to try, in order: the facing itself, and for east and west
/// the mirrored side after it.
pub open spec fn facings_to_try(f: PawnFacing) -> Seq<PawnFacing> {
    match f {
        PawnFacing::North => seq![PawnFacing::North],
        PawnFacing::South => seq![PawnFacing::South],
        PawnFacing::East => seq![PawnFacing::East, PawnFacing::West],
        PawnFacing::West => seq![PawnFacing::West, PawnFacing::East],
    }
}

/// The directional variants of `path` to look up for `facing`: none when the
/// path already names a direction.
pub open spec fn directional_options(path: Seq<char>, facing: PawnFacing) -> Seq<(Seq<char>, PawnFacing)> {
    if is_directional(path) {
        Seq::empty()
    } else {
        facings_to_try(facing).map_values(|f: PawnFacing| (path + facing_suffix(f), f))
    }
}

pub open spec fn option_view(d: DirectionalTexturePath) -> (Seq<char>, PawnFacing) {
    (d.path@, d.data_facing)
}

fn suffixed(path: &[char], f: PawnFacing) -> (r: DirectionalTexturePath)
    ensures
        r.path@ == path@ + facing_suffix(f),
        r.data_facing == f,
{
    let p = match f {
        PawnFacing::North => concat_str(path, "_north"),
        PawnFacing::East => concat_str(path, "_east"),
        PawnFacing::South => concat_str(path, "_south"),
        PawnFacing::West => concat_str(path, "_west"),
    };
    DirectionalTexturePath { path: p, data_facing: f }
}

/// The directional variants of `path` to look up, in priority order.
pub fn directional_candidates(path: &str, facing: PawnFacing) -> (r: Vec<DirectionalTexturePath>)
    ensures
        r@.map_values(|d: DirectionalTexturePath| option_view(d)) == directional_options(path@, facing),
{
    let chars = chars_of(path);
    let c = chars.as_slice();
    if ends_with_chars(c, &chars_of("_north")) || ends_with_chars(c, &chars_of("_south"))
        || ends_with_chars(c, &chars_of("_east")) || ends_with_chars(c, &chars_of("_west")) {
        let r: Vec<DirectionalTexturePath> = Vec::new();
        proof {
            assert(r@.map_values(|d: DirectionalTexturePath| option_view(d)) =~= directional_options(path@, facing));
        }
        return r;
    }
    let r = match facing {
        PawnFacing::North => vec![suffixed(c, PawnFacing::North)],
        PawnFacing::South => vec![suffixed(c, PawnFacing::South)],
        PawnFacing::East => vec![suffixed(c, PawnFacing::East), suffixed(c, PawnFacing::West)],
        PawnFacing::West => vec![suffixed(c, PawnFacing::West), suffixed(c, PawnFacing::East)],
    };
    proof {
        assert(r@.map_values(|d: DirectionalTexturePath| option_view(d)) =~= directional_options(path@, facing));
    }
    r
}

/// The first option from the `i`-th on whose texture resolves, by
/// `resolves[k]` for option `k`; the bare path with the pawn's own facing
/// when none does.
pub open spec fn chosen_from(
    options: Seq<(Seq<char>, PawnFacing)>,
    resolves: Seq<bool>,
    path: Seq<char>,
    facing: PawnFacing,
    i: int,
) -> (Seq<char>, PawnFacing)
    decreases options.len() - i,
{
    if i < 0 || i >= options.len() {
        (path, facing)
    } else if i < resolves.len() && resolves[i] {
        options[i]
    } else {
        chosen_from(options, resolves, path, facing, i + 1)
    }
}

/// The path to draw for `facing`: the first directional variant of `path`
/// whose texture resolves (`resolves[i]` answers for the `i`-th entry of
/// `directional_candidates(path, facing)`), else `path` itself. East and
/// west fall back on each other, as the sprite is mirrored when drawn.
pub fn resolve_directional_tex_path(path: &str, facing: PawnFacing, resolves: &[bool]) -> (r: DirectionalTexturePath)
    ensures
        option_view(r) == chosen_from(directional_options(path@, facing), resolves@, path@, facing, 0),
{
    let candidates = directional_candidates(path, facing);
    let ghost opts = directional_options(path@, facing);
    let mut i: usize = 0;
    while i < candidates.len()
        invariant
            i <= candidates@.len(),
            opts == directional_options(path@, facing),
            candidates@.map_values(|d: DirectionalTexturePath| option_view(d)) == opts,
            chosen_from(opts, resolves@, path@, facing, 0) == chosen_from(opts, resolves@, path@, facing, i as int),
        decreases candidates.len() - i,
    {
        proof {
            assert(opts[i as int] == option_view(candidates@[i as int]));
        }
        if i < resolves.len() && resolves[i] {
            let d = &candidates[i];
            proof {
                assert(opts.len() == candidates@.len());
                assert(chosen_from(opts, resolves@, path@, facing, i as int) == opts[i as int]);
            }
            let r = DirectionalTexturePath { path: d.path.clone(), data_facing: d.data_facing };
            proof {
                assert(option_view(r) == option_view(candidates@[i as int]));
            }
            return r;
        }
        i += 1;
    }
    DirectionalTexturePath { path: string_of(&chars_of(path)), data_facing: facing }
}

/// The lookup order for each facing on a path that names no direction yet:
/// the facing's own suffix first, and for east and west the mirrored side's
/// suffix after it; north and south try only their own. A path that already
/// names a direction is looked up as it is.
pub proof fn lemma_directional_lookup_order(path: Seq<char>)
    ensures
        !ends_with(path, "_north"@) && !ends_with(path, "_south"@) && !ends_with(path, "_east"@) && !ends_with(
            path,
            "_west"@,
        ) ==> {
            &&& directional_options(path, PawnFacing::West) == seq![
                (path + "_west"@, PawnFacing::West),
                (path + "_east"@, PawnFacing::East),
            ]
            &&& directional_options(path, PawnFacing::East) == seq![
                (path + "_east"@, PawnFacing::East),
                (path + "_west"@, PawnFacing::West),
            ]
            &&& directional_options(path, PawnFacing::North) == seq![(path + "_north"@, PawnFacing::North)]
            &&& directional_options(path, PawnFacing::South) == seq![(path + "_south"@, PawnFacing::South)]
        },
        is_directional(path) ==> forall|f: PawnFacing| #[trigger] directional_options(path, f).len() == 0,
{
    if !is_directional(path) {
        assert(directional_options(path, PawnFacing::West) =~= seq![
            (path + "_west"@, PawnFacing::West),
            (path + "_east"@, PawnFacing::East),
        ]);
        assert(directional_options(path, PawnFacing::East) =~= seq![
            (path + "_east"@, PawnFacing::East),
            (path + "_west"@, PawnFacing::West),
        ]);
        assert(directional_options(path, PawnFacing::North) =~= seq![(path + "_north"@, PawnFacing::North)]);
        assert(directional_options(path, PawnFacing::South) =~= seq![(path + "_south"@, PawnFacing::South)]);
    }
}

/// What `resolve_directional_tex_path` picks for a west-facing pawn on a
/// path that names no direction: the `_west` texture when it resolves, else
/// the mirrored `_east` texture (drawn with east's data) when that resolves,
/// else the bare path; and the same with east and west swapped. North and
/// south fall back on the bare path alone.
pub proof fn lemma_directional_choice(path: Seq<char>, resolves: Seq<bool>)
    requires
        !is_directional(path),
    ensures
        chosen_from(directional_options(path, PawnFacing::West), resolves, path, PawnFacing::West, 0) == (
        if resolves.len() > 0 && resolves[0] {
            (path + "_west"@, PawnFacing::West)
        } else if resolves.len() > 1 && resolves[1] {
            (path + "_east"@, PawnFacing::East)
        } else {
            (path, PawnFacing::West)
        }),
        chosen_from(directional_options(path, PawnFacing::East), resolves, path, PawnFacing::East, 0) == (
        if resolves.len() > 0 && resolves[0] {
            (path + "_east"@, PawnFacing::East)
        } else if resolves.len() > 1 && resolves[1] {
            (path + "_west"@, PawnFacing::West)
        } else {
            (path, PawnFacing::East)
        }),
        chosen_from(directional_options(path, PawnFacing::North), resolves, path, PawnFacing::North, 0) == (
        if resolves.len() > 0 && resolves[0] {
            (path + "_north"@, PawnFacing::North)
        } else {
            (path, PawnFacing::North)
        }),
        chosen_from(directional_options(path, PawnFacing::South), resolves, path, PawnFacing::South, 0) == (
        if resolves.len() > 0 && resolves[0] {
            (path + "_south"@, PawnFacing::South)
        } else {
            (path, PawnFacing::South)
        }),
{
    lemma_directional_lookup_order(path);
    reveal_with_fuel(chosen_from, 3);
}

/// Decodes an apparel def's `renderSkipFlags` into (skip hair, skip beard,
/// has an explicit list at all).
pub fn map_explicit_skip_flags(flags: &Option<Vec<ApparelSkipFlagDef>>) -> (r: (bool, bool, bool))
    ensures
        match flags {
            None => r == (false, false, false),
            Some(list) => r == (
                list@.contains(ApparelSkipFlagDef::Hair),
                list@.contains(ApparelSkipFlagDef::Beard),
                true,
            ),
        },
{
    match flags {
        None => (false, false, false),
        Some(list) => {
            let mut skip_hair = false;
            let mut skip_beard = false;
            let mut i: usize = 0;
            while i < list.len()
                invariant
                    i <= list@.len(),
                    skip_hair == exists|j: int| 0 <= j < i && list@[j] == ApparelSkipFlagDef::Hair,
                    skip_beard == exists|j: int| 0 <= j < i && list@[j] == ApparelSkipFlagDef::Beard,
                decreases list.len() - i,
            {
                match list[i] {
                    ApparelSkipFlagDef::Hair => skip_hair = true,
                    ApparelSkipFlagDef::Beard => skip_beard = true,
                }
                i += 1;
            }
            (skip_hair, skip_beard, true)
        },
    }
}

/// The body-type variant of an apparel texture worth trying: for items on
/// the skin, middle or shell layer not drawn as a pack, when the body type
/// is known, `tex_path` + `_` + the body type's name.
pub open spec fn body_variant(tex_path: Seq<char>, layer: ApparelLayerDef, body: Option<Seq<char>>, as_pack: bool) -> Option<Seq<char>> {
    if (layer is OnSkin || layer is Middle || layer is Shell) && !as_pack && body is Some {
        Some(tex_path + "_"@ + body->0)
    } else {
        None
    }
}

/// Which worn apparel gets a body-type variant: an item on the skin, middle
/// or shell layer, not drawn as a pack, on a pawn of known body type gets
/// `tex_path` + `_` + the body type; a belt, overhead or eye-cover item, a
/// pack, or an unknown body type gets none.
pub proof fn lemma_body_variant_layers(tex_path: Seq<char>, layer: ApparelLayerDef, body: Option<Seq<char>>, as_pack: bool)
    ensures
        (layer == ApparelLayerDef::OnSkin || layer == ApparelLayerDef::Middle || layer == ApparelLayerDef::Shell)
            && !as_pack && body is Some ==> body_variant(tex_path, layer, body, as_pack) == Some(
            tex_path + "_"@ + body->0,
        ),
        (layer == ApparelLayerDef::Belt || layer == ApparelLayerDef::Overhead || layer == ApparelLayerDef::EyeCover)
            ==> body_variant(tex_path, layer, body, as_pack) is None,
        as_pack ==> body_variant(tex_path, layer, body, as_pack) is None,
        body is None ==> body_variant(tex_path, layer, body, as_pack) is None,
{
}

pub open spec fn opt_str_view(s: Option<&str>) -> Option<Seq<char>> {
    match s {
        Some(x) => Some(x@),
        None => None,
    }
}

pub fn apparel_body_variant(tex_path: &str, layer: ApparelLayerDef, body_def_name: Option<&str>, render_as_pack: bool) -> (r: Option<String>)
    ensures
        match r {
            Some(s) => body_variant(tex_path@, layer, opt_str_view(body_def_name), render_as_pack) == Some(s@),
            None => body_variant(tex_path@, layer, opt_str_view(body_def_name), render_as_pack) is None,
        },
{
    let layered = match layer {
        ApparelLayerDef::OnSkin | ApparelLayerDef::Middle | ApparelLayerDef::Shell => true,
        _ => false,
    };
    if layered && !render_as_pack {
        if let Some(body) = body_def_name {
            let head = concat_str(&chars_of(tex_path), "_");
            let head_chars = chars_of(head.as_str());
            let s = concat_str(head_chars.as_slice(), body);
            return Some(s);
        }
    }
    None
}

/// The texture path of a worn apparel item: its body-type variant when
/// there is one and it resolves (`variant_resolves`), else `tex_path`.
pub fn build_apparel_tex_path(
    tex_path: &str,
    layer: ApparelLayerDef,
    body_def_name: Option<&str>,
    render_as_pack: bool,
    variant_resolves: bool,
) -> (r: String)
    ensures
        r@ == match body_variant(tex_path@, layer, opt_str_view(body_def_name), render_as_pack) {
            Some(v) => if variant_resolves { v } else { tex_path@ },
            None => tex_path@,
        },
{
    match apparel_body_variant(tex_path, layer, body_def_name, render_as_pack) {
        Some(v) => {
            if variant_resolves {
                v
            } else {
                string_of(&chars_of(tex_path))
            }
        },
        None => string_of(&chars_of(tex_path)),
    }
}

/// The draw layer an apparel item falls back on when its def gives none
/// for `facing`: 88 for a shell facing north that is not drawn behind the
/// head; for a pack, 93 facing north and -3 facing south.
pub open spec fn fallback_layer(layer: ApparelLayerDef, facing: PawnFacing, behind_head: bool, as_pack: bool) -> Option<int> {
    if layer is Shell && facing is North && !behind_head {
        Some(88)
    } else if as_pack {
        match facing {
            PawnFacing::North => Some(93),
            PawnFacing::South => Some(-3),
            _ => None,
        }
    } else {
        None
    }
}

pub fn fallback_apparel_layer(layer: ApparelLayerDef, facing: PawnFacing, shell_rendered_behind_head: bool, render_as_pack: bool) -> (r: Option<i32>)
    ensures
        match r {
            Some(v) => fallback_layer(layer, facing, shell_rendered_behind_head, render_as_pack) == Some(v as int),
            None => fallback_layer(layer, facing, shell_rendered_behind_head, render_as_pack) is None,
        },
{
    if matches!(layer, ApparelLayerDef::Shell) && matches!(facing, PawnFacing::North) && !shell_rendered_behind_head {
        Some(88)
    } else if render_as_pack {
        match facing {
            PawnFacing::North => Some(93),
            PawnFacing::South => Some(-3),
            _ => None,
        }
    } else {
        None
    }
}

/// The draw layer of an apparel def seen facing `facing`, as a number
/// text: the layer its draw data gives for that side, else the fallback
/// layer, written in decimal; none when neither applies.
pub open spec fn full_layer_override(a: crate::defs::apparel_defs::ApparelView, facing: PawnFacing, as_pack: bool) -> Option<Seq<char>> {
    let explicit = match facing {
        PawnFacing::North => a.draw_data.north,
        PawnFacing::East => a.draw_data.east,
        PawnFacing::South => a.draw_data.south,
        PawnFacing::West => a.draw_data.west,
    };
    match explicit {
        Some(t) => Some(t),
        None => match fallback_layer(a.layer, facing, a.behind_head, as_pack) {
            Some(v) => Some(crate::text::signed_decimal(v)),
            None => None,
        },
    }
}

pub fn build_full_apparel_layer_override(
    apparel: &crate::defs::apparel_defs::ApparelDef,
    facing: PawnFacing,
    render_as_pack: bool,
) -> (r: Option<String>)
    ensures
        crate::defs::xml::opt_view(r) == full_layer_override(apparel@, facing, render_as_pack),
{
    match crate::commands::v1_scene::apparel_draw_layer_for_facing(apparel, facing) {
        Some(t) => Some(t),
        None => match fallback_apparel_layer(apparel.layer, facing, apparel.shell_rendered_behind_head, render_as_pack) {
            Some(v) => {
                let mut out: Vec<char> = Vec::new();
                crate::text::push_signed(&mut out, v);
                Some(string_of(out.as_slice()))
            },
            None => None,
        },
    }
}

/// `path` without a trailing `_north`, `_south`, `_east` or `_west`,
/// tried in that order; none when it has none of them.
pub open spec fn without_direction(path: Seq<char>) -> Option<Seq<char>> {
    if ends_with(path, "_north"@) {
        Some(path.take(path.len() - 6))
    } else if ends_with(path, "_south"@) {
        Some(path.take(path.len() - 6))
    } else if ends_with(path, "_east"@) {
        Some(path.take(path.len() - 5))
    } else if ends_with(path, "_west"@) {
        Some(path.take(path.len() - 5))
    } else {
        None
    }
}

fn prefix_string(c: &[char], n: usize) -> (r: String)
    requires
        n <= c@.len(),
    ensures
        r@ == c@.take(n as int),
{
    let mut out: Vec<char> = Vec::new();
    let mut i: usize = 0;
    while i < n
        invariant
            i <= n,
            n <= c@.len(),
            out@ == c@.take(i as int),
        decreases n - i,
    {
        out.push(c[i]);
        proof {
            assert(c@.take(i + 1) == c@.take(i as int).push(c@[i as int]));
        }
        i += 1;
    }
    string_of(out.as_slice())
}

pub fn strip_directional_suffix(path: &str) -> (r: Option<String>)
    ensures
        opt_string_view(r) == without_direction(path@),
{
    let c = chars_of(path);
    proof {
        reveal_strlit("_north");
        reveal_strlit("_south");
        reveal_strlit("_east");
        reveal_strlit("_west");
    }
    if ends_with_chars(c.as_slice(), &chars_of("_north")) {
        Some(prefix_string(c.as_slice(), c.len() - 6))
    } else if ends_with_chars(c.as_slice(), &chars_of("_south")) {
        Some(prefix_string(c.as_slice(), c.len() - 6))
    } else if ends_with_chars(c.as_slice(), &chars_of("_east")) {
        Some(prefix_string(c.as_slice(), c.len() - 5))
    } else if ends_with_chars(c.as_slice(), &chars_of("_west")) {
        Some(prefix_string(c.as_slice(), c.len() - 5))
    } else {
        None
    }
}

pub open spec fn opt_string_view(s: Option<String>) -> Option<Seq<char>> {
    match s {
        Some(v) => Some(v@),
        None => None,
    }
}

/// A head suits a body unless the body's texture names a sex the head's
/// does not: a `female` body wants a `female` head, a `male` body a `male`
/// head (ASCII case ignored).
pub open spec fn heads_suit(body: Seq<char>, head: Seq<char>) -> bool {
    if contains(lower(body), "female"@) {
        contains(lower(head), "female"@)
    } else if contains(lower(body), "male"@) {
        contains(lower(head), "male"@)
    } else {
        true
    }
}

pub fn body_head_compatible(body_tex: &str, head_tex: &str) -> (r: bool)
    ensures
        r == heads_suit(body_tex@, head_tex@),
{
    let body = lower_chars(chars_of(body_tex).as_slice());
    let head = lower_chars(chars_of(head_tex).as_slice());
    let female = chars_of("female");
    let male = chars_of("male");
    if contains_chars(body.as_slice(), female.as_slice()) {
        return contains_chars(head.as_slice(), female.as_slice());
    }
    if contains_chars(body.as_slice(), male.as_slice()) {
        return contains_chars(head.as_slice(), male.as_slice());
    }
    true
}

} // verus!
