//! The decisions of the built-in fixture scene: which beards, apparel,
//! bodies and things it may use, where the pawns of an audit stand, and
//! which head, hair and beard each pawn gets. Finding and decoding the
//! textures is done by the caller, which hands in what it found.
use vstd::prelude::*;

use crate::commands::apparel_pick::ApparelGroup;
use crate::defs::apparel_defs::{
    overrides_view, ApparelDef, ApparelWornDirectionDef, ApparelWornPartialDef, OverrideList, WornGraphicView, WornView,
};
use crate::defs::xml::opt_view;
use crate::defs::loaders::named_at;
use crate::defs::reader::key_fn;
use crate::defs::ApparelLayerDef;
use crate::pawn::model::PawnFacing;
use crate::pawn::render_input::{body_head_compatible, heads_suit};
use crate::commands::ownership::{comma_joined, push_comma_joined};
use crate::lexical::{holds_view, insert_view, sort_views, sorted_set, string_lt, strictly_sorted};
use crate::text::{
    chars_eq, chars_of, contains, contains_chars, lower, lower_chars, push_str, string_of, unicode_lower_str,
    unicode_lowercase,
};

verus! {

broadcast use vstd::string::group_string_axioms;

/// A beard def can be drawn in the fixture: it has a graphic and a texture
/// path, and neither its lower-cased name holds `anchor` nor its lower-cased
/// texture path `beardanchor`.
pub open spec fn drawable_beard(def_name: Seq<char>, tex_path: Seq<char>, no_graphic: bool) -> bool {
    &&& !no_graphic
    &&& tex_path.len() > 0
    &&& !contains(lower(def_name), "anchor"@)
    &&& !contains(lower(tex_path), "beardanchor"@)
}

pub fn beard_is_drawable(def_name: &str, tex_path: &str, no_graphic: bool) -> (r: bool)
    ensures
        r == drawable_beard(def_name@, tex_path@, no_graphic),
{
    if no_graphic {
        return false;
    }
    let tex = chars_of(tex_path);
    if tex.len() == 0 {
        return false;
    }
    let key = lower_chars(chars_of(def_name).as_slice());
    let tex_lower = lower_chars(tex.as_slice());
    !contains_chars(key.as_slice(), chars_of("anchor").as_slice())
        && !contains_chars(tex_lower.as_slice(), chars_of("beardanchor").as_slice())
}

/// The fixture's apparel list for a layer: skin and middle layers are body
/// apparel, shell and belt are shell apparel, overhead and eye cover are
/// head apparel.
pub open spec fn group_of(layer: ApparelLayerDef) -> ApparelGroup {
    match layer {
        ApparelLayerDef::OnSkin | ApparelLayerDef::Middle => ApparelGroup::Body,
        ApparelLayerDef::Shell | ApparelLayerDef::Belt => ApparelGroup::Shell,
        ApparelLayerDef::Overhead | ApparelLayerDef::EyeCover => ApparelGroup::Head,
    }
}

pub fn apparel_group(layer: ApparelLayerDef) -> (r: ApparelGroup)
    ensures
        r == group_of(layer),
{
    match layer {
        ApparelLayerDef::OnSkin | ApparelLayerDef::Middle => ApparelGroup::Body,
        ApparelLayerDef::Shell | ApparelLayerDef::Belt => ApparelGroup::Shell,
        ApparelLayerDef::Overhead | ApparelLayerDef::EyeCover => ApparelGroup::Head,
    }
}

/// How many of the three apparel lists hold something.
pub open spec fn filled_lists(body: nat, shell: nat, head: nat) -> nat {
    (if body > 0 { 1nat } else { 0nat }) + (if shell > 0 { 1nat } else { 0nat }) + (if head > 0 { 1nat } else { 0nat })
}

/// The number of apparel lists that hold something. A scene of one pawn
/// needs two of them (body and shell or head), unless it has none at all and
/// the pawn goes unclothed; that is an error.
pub fn check_apparel_layers(body: usize, shell: usize, head: usize, pawn_focus_only: bool) -> (r: Result<usize, String>)
    ensures
        ({
            let n = filled_lists(body as nat, shell as nat, head as nat);
            match r {
                Ok(k) => k == n && !(pawn_focus_only && 0 < n < 2),
                Err(e) => pawn_focus_only && 0 < n < 2
                    && e@ == "pawn fixture requires at least two decodable apparel layers (body + shell/head)"@,
            }
        }),
{
    let n: usize = (if body > 0 { 1usize } else { 0 }) + (if shell > 0 { 1usize } else { 0 }) + (if head > 0 { 1usize } else { 0 });
    if n != 0 && pawn_focus_only && n < 2 {
        let mut out: Vec<char> = Vec::new();
        push_str(&mut out, "pawn fixture requires at least two decodable apparel layers (body + shell/head)");
        return Err(string_of(out.as_slice()));
    }
    Ok(n)
}

/// How many of the things found the scene places: none in a pawn scene or
/// an audit, else up to twenty.
pub fn fixture_thing_count(available: usize, pawn_focus_only: bool, pawn_audit_mode: bool) -> (r: usize)
    ensures
        r == (if pawn_focus_only || pawn_audit_mode {
            0
        } else if available < 20 {
            available
        } else {
            20
        }),
{
    if pawn_focus_only || pawn_audit_mode {
        0
    } else if available < 20 {
        available
    } else {
        20
    }
}

/// The bodies the scene's pawns wear, by index into the `body_count` bodies
/// found: one pawn in a pawn scene, with the body the variant picks;
/// `pawn_count` pawns in an audit, the bodies taken in turn from the
/// variant's; else the first six bodies.
pub fn fixture_pawn_bodies(
    body_count: usize,
    pawn_focus_only: bool,
    pawn_audit_mode: bool,
    pawn_count: usize,
    variant: usize,
) -> (r: Vec<usize>)
    requires
        body_count > 0,
        pawn_count == 0 || variant + (pawn_count - 1) <= usize::MAX,
    ensures
        pawn_focus_only ==> r@ == seq![(variant % body_count) as usize],
        !pawn_focus_only && pawn_audit_mode ==> r@.len() == pawn_count
            && forall|i: int| 0 <= i < pawn_count ==> r@[i] == (variant + i) % (body_count as int),
        !pawn_focus_only && !pawn_audit_mode ==> r@.len() == (if body_count < 6 { body_count } else { 6 })
            && forall|i: int| 0 <= i < r@.len() ==> r@[i] == i,
{
    let mut out: Vec<usize> = Vec::new();
    if pawn_focus_only {
        out.push(variant % body_count);
        return out;
    }
    let n: usize = if pawn_audit_mode {
        pawn_count
    } else if body_count < 6 {
        body_count
    } else {
        6
    };
    let mut i: usize = 0;
    while i < n
        invariant
            i <= n,
            out@.len() == i,
            body_count > 0,
            pawn_audit_mode ==> n == pawn_count,
            pawn_audit_mode && pawn_count > 0 ==> variant + (pawn_count - 1) <= usize::MAX,
            forall|k: int| 0 <= k < i ==> out@[k] == (if pawn_audit_mode { (variant + k) % (body_count as int) } else { k }),
        decreases n - i,
    {
        if pawn_audit_mode {
            out.push((variant + i) % body_count);
        } else {
            out.push(i);
        }
        i += 1;
    }
    out
}

/// Where a row or column of the audit grid starts: centred in `extent`
/// cells when the `span` fits, else at zero.
pub open spec fn grid_origin(extent: int, span: int) -> int {
    if extent - 1 - span > 0 {
        (extent - 1 - span) / 2
    } else {
        0
    }
}

/// Rows of the audit grid of five columns: enough for `n` pawns, at least one.
pub open spec fn audit_rows(n: int) -> int {
    if n <= 0 {
        1
    } else {
        (n + 4) / 5
    }
}

pub open spec fn min_int(a: int, b: int) -> int {
    if a < b {
        a
    } else {
        b
    }
}

/// The cell of audit pawn `i` of `n` on a `width` by `height` map: five
/// columns four cells apart, rows four cells apart, the grid centred, each
/// coordinate kept on the map's last row or column at most.
pub open spec fn audit_cell(width: int, height: int, n: int, i: int) -> (int, int) {
    let ox = grid_origin(width, 16);
    let oz = grid_origin(height, (audit_rows(n) - 1) * 4);
    let last_x = if width > 0 { width - 1 } else { 0 };
    let last_z = if height > 0 { height - 1 } else { 0 };
    (min_int(ox + (i % 5) * 4, last_x), min_int(oz + (i / 5) * 4, last_z))
}

/// The cells of the pawns of an audit scene, in pawn order.
pub fn audit_layout(width: usize, height: usize, pawn_count: usize) -> (r: Vec<(i32, i32)>)
    requires
        width <= i32::MAX,
        height <= i32::MAX,
        pawn_count <= 2684354560,
    ensures
        r@.len() == pawn_count,
        forall|i: int|
            0 <= i < pawn_count ==> (#[trigger] r@[i]).0 == audit_cell(width as int, height as int, pawn_count as int, i).0
                && r@[i].1 == audit_cell(width as int, height as int, pawn_count as int, i).1,
        forall|i: int| 0 <= i < pawn_count && width > 0 ==> 0 <= (#[trigger] r@[i]).0 < width,
        forall|i: int| 0 <= i < pawn_count && height > 0 ==> 0 <= (#[trigger] r@[i]).1 < height,
{
    let rows: usize = if pawn_count == 0 {
        1
    } else {
        pawn_count / 5 + if pawn_count % 5 != 0 { 1 } else { 0 }
    };
    proof {
        assert(rows == audit_rows(pawn_count as int));
    }
    let span_z: i32 = ((rows - 1) as i32) * 4;
    let wi = width as i32;
    let hi = height as i32;
    let ax: i32 = wi - 1 - 16;
    let ox: i32 = if ax > 0 { ax / 2 } else { 0 };
    let az: i32 = hi - 1 - span_z;
    let oz: i32 = if az > 0 { az / 2 } else { 0 };
    let last_x: i32 = if wi > 0 { wi - 1 } else { 0 };
    let last_z: i32 = if hi > 0 { hi - 1 } else { 0 };
    let mut out: Vec<(i32, i32)> = Vec::new();
    let mut i: usize = 0;
    while i < pawn_count
        invariant
            i <= pawn_count,
            out@.len() == i,
            pawn_count <= 2684354560,
            rows == audit_rows(pawn_count as int),
            span_z == (rows - 1) * 4,
            ox == grid_origin(width as int, 16),
            oz == grid_origin(height as int, span_z as int),
            0 <= ox <= 1073741815,
            0 <= oz,
            oz + span_z <= i32::MAX,
            last_x == (if width > 0 { width - 1 } else { 0 }),
            last_z == (if height > 0 { height - 1 } else { 0 }),
            forall|k: int|
                0 <= k < i ==> (#[trigger] out@[k]).0 == audit_cell(width as int, height as int, pawn_count as int, k).0
                    && out@[k].1 == audit_cell(width as int, height as int, pawn_count as int, k).1,
        decreases pawn_count - i,
    {
        let col = (i % 5) as i32;
        let row = (i / 5) as i32;
        proof {
            assert(i / 5 <= rows - 1);
        }
        let x0 = ox + col * 4;
        let z0 = oz + row * 4;
        let x = if x0 < last_x { x0 } else { last_x };
        let z = if z0 < last_z { z0 } else { last_z };
        out.push((x, z));
        i += 1;
    }
    out
}

/// The head, hair and beard a fixture pawn gets, each by index into the
/// sorted lists of head, hair and beard textures; none where a list is
/// empty.
#[derive(Debug, Clone, Copy, PartialEq, Eq, Structural)]
pub struct PawnLoadout {
    pub head: Option<usize>,
    pub hair: Option<usize>,
    pub beard: Option<usize>,
}

/// The heads among the first `n` that suit the body, by index.
pub open spec fn suited_heads(body: Seq<char>, heads: Seq<String>, n: int) -> Seq<usize>
    decreases n,
{
    if n <= 0 {
        Seq::empty()
    } else {
        let before = suited_heads(body, heads, n - 1);
        if heads_suit(body, heads[n - 1]@) {
            before.push((n - 1) as usize)
        } else {
            before
        }
    }
}

/// The heads to pick from before a beard is considered: those that suit
/// the body, or every head when none does.
pub open spec fn base_head_pool(body: Seq<char>, heads: Seq<String>) -> Seq<usize> {
    let suited = suited_heads(body, heads, heads.len() as int);
    if suited.len() > 0 {
        suited
    } else {
        Seq::new(heads.len(), |i: int| i as usize)
    }
}

/// The first `n` entries of `pool` whose head texture lies under a `/male/`
/// folder (ASCII case ignored).
pub open spec fn male_heads(heads: Seq<String>, pool: Seq<usize>, n: int) -> Seq<usize>
    decreases n,
{
    if n <= 0 {
        Seq::empty()
    } else {
        let before = male_heads(heads, pool, n - 1);
        if contains(lower(heads[pool[n - 1] as int]@), "/male/"@) {
            before.push(pool[n - 1])
        } else {
            before
        }
    }
}

/// The heads to pick from: a bearded pawn keeps to male heads where the
/// pool has any.
pub open spec fn head_pool(body: Seq<char>, heads: Seq<String>, bearded: bool) -> Seq<usize> {
    let base = base_head_pool(body, heads);
    let male = male_heads(heads, base, base.len() as int);
    if bearded && male.len() > 0 {
        male
    } else {
        base
    }
}

pub open spec fn pick(count: int, at: int) -> Option<usize> {
    if count <= 0 {
        None
    } else {
        Some((at % count) as usize)
    }
}

/// The loadout of a pawn with body texture `body` in fixture variant
/// `variant`: hair picked by a fifth of the variant, beard by a seventh,
/// the head by the variant from the head pool.
pub open spec fn loadout_for(body: Seq<char>, heads: Seq<String>, hair_count: int, beard_count: int, variant: int) -> PawnLoadout {
    let pool = head_pool(body, heads, beard_count > 0);
    PawnLoadout {
        head: if pool.len() == 0 {
            None
        } else {
            Some(pool[variant % (pool.len() as int)])
        },
        hair: pick(hair_count, variant / 5),
        beard: pick(beard_count, variant / 7),
    }
}

pub fn choose_pawn_loadout(
    body_tex: &str,
    head_paths: &[String],
    hair_count: usize,
    beard_count: usize,
    variant: usize,
) -> (r: PawnLoadout)
    ensures
        r == loadout_for(body_tex@, head_paths@, hair_count as int, beard_count as int, variant as int),
{
    let mut suited: Vec<usize> = Vec::new();
    let mut j: usize = 0;
    while j < head_paths.len()
        invariant
            j <= head_paths@.len(),
            suited@ == suited_heads(body_tex@, head_paths@, j as int),
            forall|k: int| 0 <= k < suited@.len() ==> suited@[k] < j,
        decreases head_paths.len() - j,
    {
        if body_head_compatible(body_tex, head_paths[j].as_str()) {
            suited.push(j);
        }
        j += 1;
    }
    let base: Vec<usize> = if suited.len() > 0 {
        suited
    } else {
        let mut all: Vec<usize> = Vec::new();
        let mut k: usize = 0;
        while k < head_paths.len()
            invariant
                k <= head_paths@.len(),
                all@ =~= Seq::new(k as nat, |i: int| i as usize),
            decreases head_paths.len() - k,
        {
            all.push(k);
            k += 1;
        }
        all
    };
    proof {
        assert(base@ == base_head_pool(body_tex@, head_paths@));
    }
    let mut male: Vec<usize> = Vec::new();
    let mut m: usize = 0;
    while m < base.len()
        invariant
            m <= base@.len(),
            base@ == base_head_pool(body_tex@, head_paths@),
            forall|k: int| 0 <= k < base@.len() ==> base@[k] < head_paths@.len(),
            male@ == male_heads(head_paths@, base@, m as int),
        decreases base.len() - m,
    {
        let path = lower_chars(chars_of(head_paths[base[m]].as_str()).as_slice());
        if contains_chars(path.as_slice(), chars_of("/male/").as_slice()) {
            male.push(base[m]);
        }
        m += 1;
    }
    let pool: Vec<usize> = if beard_count > 0 && male.len() > 0 {
        male
    } else {
        base
    };
    let head = if pool.len() == 0 {
        None
    } else {
        Some(pool[variant % pool.len()])
    };
    let hair = if hair_count == 0 {
        None
    } else {
        Some((variant / 5) % hair_count)
    };
    let beard = if beard_count == 0 {
        None
    } else {
        Some((variant / 7) % beard_count)
    };
    PawnLoadout { head, hair, beard }
}

/// Def name `name` is close to the name `q` asked for: equal up to ASCII
/// case, or either holds the other once both are lower-cased.
pub open spec fn close_to(q: Seq<char>, name: Seq<char>) -> bool {
    ||| lower(name) == lower(q)
    ||| contains(unicode_lowercase(name), unicode_lowercase(q))
    ||| contains(unicode_lowercase(q), unicode_lowercase(name))
}

/// The first five names among the first `n` that are close to `q`.
pub open spec fn close_matches(q: Seq<char>, names: Seq<String>, n: int) -> Seq<Seq<char>>
    decreases n,
{
    if n <= 0 {
        Seq::empty()
    } else {
        let before = close_matches(q, names, n - 1);
        if before.len() < 5 && close_to(q, names[n - 1]@) {
            before.push(names[n - 1]@)
        } else {
            before
        }
    }
}

/// The message for a def name `q` that is not there, with the close
/// matches found.
pub open spec fn missing_def_text(q: Seq<char>, found: Seq<Seq<char>>) -> Seq<char> {
    if found.len() == 0 {
        "thingdef '"@ + q + "' not found"@
    } else {
        "thingdef '"@ + q + "' not found. Close matches: "@ + comma_joined(found)
    }
}

fn insert_sorted_name(out: &mut Vec<String>, x: String)
    ensures
        final(out)@.map_values(|s: String| s@) == insert_view(old(out)@.map_values(|s: String| s@), x@),
{
    let ghost start = out@.map_values(|s: String| s@);
    let mut k: usize = out.len();
    proof {
        assert(start.take(k as int) =~= start);
        assert(start.skip(k as int) =~= Seq::<Seq<char>>::empty());
        assert(insert_view(start, x@) + Seq::<Seq<char>>::empty() =~= insert_view(start, x@));
    }
    while k > 0 && string_lt(x.as_str(), out[k - 1].as_str())
        invariant
            k <= out@.len(),
            out@.map_values(|s: String| s@) == start,
            insert_view(start, x@) == insert_view(start.take(k as int), x@) + start.skip(k as int),
        decreases k,
    {
        proof {
            let t = start.take(k as int);
            assert(out@[k - 1]@ == start[k - 1]);
            assert(t.drop_last() =~= start.take(k - 1));
            assert(t.last() == start[k - 1]);
            assert(start.skip(k - 1) =~= seq![start[k - 1]] + start.skip(k as int));
            assert(insert_view(t, x@) == insert_view(start.take(k - 1), x@).push(start[k - 1]));
            assert(insert_view(t, x@) + start.skip(k as int) =~= insert_view(start.take(k - 1), x@) + start.skip(k - 1));
        }
        k -= 1;
    }
    proof {
        let t = start.take(k as int);
        if k > 0 {
            assert(out@[k - 1]@ == start[k - 1]);
            assert(t.last() == start[k - 1]);
        }
        assert(insert_view(t, x@) =~= t.push(x@));
    }
    out.insert(k, x);
    proof {
        assert(out@.map_values(|s: String| s@) =~= start.take(k as int).push(x@) + start.skip(k as int));
    }
}

/// The message for a thing def name that is not there: the first five
/// close matches, sorted, when there are any.
pub fn make_missing_def_message(thingdef: &str, names: &[String]) -> (r: String)
    ensures
        r@ == missing_def_text(thingdef@, sort_views(close_matches(thingdef@, names@, names@.len() as int))),
{
    let q_ascii = lower_chars(chars_of(thingdef).as_slice());
    let q_full_s = unicode_lower_str(thingdef);
    let q_full = chars_of(q_full_s.as_str());
    let mut found: Vec<String> = Vec::new();
    let mut count: usize = 0;
    let ghost mut taken: Seq<Seq<char>> = Seq::empty();
    let mut i: usize = 0;
    while i < names.len()
        invariant
            i <= names@.len(),
            q_ascii@ == lower(thingdef@),
            q_full@ == unicode_lowercase(thingdef@),
            taken == close_matches(thingdef@, names@, i as int),
            count == taken.len(),
            count <= 5,
            found@.map_values(|s: String| s@) == sort_views(taken),
        decreases names.len() - i,
    {
        if count < 5 {
            let name = names[i].as_str();
            let name_ascii = lower_chars(chars_of(name).as_slice());
            let close = if chars_eq(name_ascii.as_slice(), q_ascii.as_slice()) {
                true
            } else {
                let full_s = unicode_lower_str(name);
                let full = chars_of(full_s.as_str());
                contains_chars(full.as_slice(), q_full.as_slice()) || contains_chars(q_full.as_slice(), full.as_slice())
            };
            if close {
                proof {
                    let old_taken = taken;
                    taken = taken.push(names@[i as int]@);
                    assert(taken.drop_last() =~= old_taken);
                }
                insert_sorted_name(&mut found, names[i].clone());
                count += 1;
            }
        }
        i += 1;
    }
    let mut out: Vec<char> = Vec::new();
    push_str(&mut out, "thingdef '");
    push_str(&mut out, thingdef);
    if found.len() == 0 {
        push_str(&mut out, "' not found");
    } else {
        push_str(&mut out, "' not found. Close matches: ");
        push_comma_joined(&mut out, &found);
    }
    proof {
        assert(("thingdef '"@ + thingdef@) + "' not found"@ =~= "thingdef '"@ + thingdef@ + "' not found"@);
    }
    string_of(out.as_slice())
}

/// The paths that hold `needle`, sorted, each once.
pub fn sorted_paths_containing(paths: &[String], needle: &str) -> (r: Vec<String>)
    ensures
        strictly_sorted(r@),
        forall|x: Seq<char>| holds_view(r@, x) <==> (holds_view(paths@, x) && contains(x, needle@)),
{
    let n = chars_of(needle);
    let mut kept: Vec<String> = Vec::new();
    let mut i: usize = 0;
    while i < paths.len()
        invariant
            i <= paths@.len(),
            n@ == needle@,
            forall|x: Seq<char>| holds_view(kept@, x) <==> (holds_view(paths@.take(i as int), x) && contains(x, needle@)),
        decreases paths.len() - i,
    {
        let keep = contains_chars(chars_of(paths[i].as_str()).as_slice(), n.as_slice());
        let ghost before = kept@;
        if keep {
            kept.push(paths[i].clone());
        }
        proof {
            assert forall|x: Seq<char>| holds_view(kept@, x) <==> (holds_view(paths@.take(i + 1), x) && contains(x, needle@)) by {
                if holds_view(paths@.take(i + 1), x) && contains(x, needle@) {
                    let j = choose|j: int| 0 <= j < paths@.take(i + 1).len() && (#[trigger] paths@.take(i + 1)[j])@ == x;
                    if j < i {
                        assert(paths@.take(i as int)[j] == paths@.take(i + 1)[j]);
                        assert(holds_view(paths@.take(i as int), x));
                        let k = choose|k: int| 0 <= k < before.len() && (#[trigger] before[k])@ == x;
                        assert(kept@[k] == before[k]);
                    } else {
                        assert(kept@[kept@.len() - 1]@ == x);
                    }
                }
                if holds_view(kept@, x) {
                    let k = choose|k: int| 0 <= k < kept@.len() && (#[trigger] kept@[k])@ == x;
                    if k < before.len() {
                        assert(kept@[k] == before[k]);
                        assert(holds_view(before, x));
                        let j = choose|j: int| 0 <= j < paths@.take(i as int).len() && (#[trigger] paths@.take(i as int)[j])@ == x;
                        assert(paths@.take(i + 1)[j] == paths@.take(i as int)[j]);
                    } else {
                        assert(paths@.take(i + 1)[i as int] == paths@[i as int]);
                    }
                }
            }
        }
        i += 1;
    }
    proof {
        assert(paths@.take(paths@.len() as int) =~= paths@);
    }
    sorted_set(kept)
}

/// The side of the worn graphic and its body-type changes for a facing.
pub open spec fn side_for(w: WornGraphicView, facing: PawnFacing) -> (WornView, OverrideList) {
    match facing {
        PawnFacing::North => (w.north, w.north_overrides),
        PawnFacing::East => (w.east, w.east_overrides),
        PawnFacing::South => (w.south, w.south_overrides),
        PawnFacing::West => (w.west, w.west_overrides),
    }
}

/// The change that `list` keeps for body type `key`.
pub open spec fn change_for(list: OverrideList, key: Seq<char>) -> Option<WornView> {
    let p = named_at(list, key, key_fn::<(String, ApparelWornPartialDef)>());
    if p >= 0 {
        Some(list[p].1)
    } else {
        None
    }
}

/// `side` with the offset and scale that `change` gives.
pub open spec fn changed(side: WornView, change: Option<WornView>) -> WornView {
    match change {
        Some(c) => WornView {
            offset: if c.offset is Some {
                c.offset
            } else {
                side.offset
            },
            scale: if c.scale is Some {
                c.scale
            } else {
                side.scale
            },
        },
        None => side,
    }
}

/// How apparel sits for a facing: the side's own offset and scale, then,
/// for a known body type (ASCII case ignored), the change for all sides,
/// then the side's own change.
pub open spec fn worn_for(w: WornGraphicView, facing: PawnFacing, body: Option<Seq<char>>) -> WornView {
    let (side, local) = side_for(w, facing);
    match body {
        None => side,
        Some(b) => changed(changed(side, change_for(w.global, lower(b))), change_for(local, lower(b))),
    }
}

fn change_of(list: &Vec<(String, ApparelWornPartialDef)>, key: &Vec<char>) -> (r: Option<ApparelWornPartialDef>)
    ensures
        match r {
            Some(c) => change_for(overrides_view(list@), key@) == Some(c@),
            None => change_for(overrides_view(list@), key@) is None,
        },
{
    let ghost lv = overrides_view(list@);
    let mut p: usize = 0;
    while p < list.len()
        invariant
            p <= list@.len(),
            lv == overrides_view(list@),
            forall|q: int| 0 <= q < p ==> (#[trigger] lv[q]).0 != key@,
        decreases list.len() - p,
    {
        proof {
            assert(lv[p as int] == (list@[p as int].0@, list@[p as int].1@));
        }
        if chars_eq(chars_of(list[p].0.as_str()).as_slice(), key.as_slice()) {
            proof {
                crate::defs::reader::lemma_named_at_generic(lv, key@, key_fn::<(String, ApparelWornPartialDef)>(), p as int);
            }
            let c = &list[p].1;
            return Some(ApparelWornPartialDef { offset: c.offset.clone(), scale: c.scale.clone() });
        }
        p += 1;
    }
    proof {
        crate::defs::reader::lemma_named_at_generic(lv, key@, key_fn::<(String, ApparelWornPartialDef)>(), -1);
    }
    None
}

fn apply_change(side: ApparelWornDirectionDef, change: Option<ApparelWornPartialDef>) -> (r: ApparelWornDirectionDef)
    ensures
        r@ == changed(side@, match change {
            Some(c) => Some(c@),
            None => None,
        }),
{
    match change {
        Some(c) => ApparelWornDirectionDef {
            offset: if c.offset.is_some() {
                c.offset
            } else {
                side.offset
            },
            scale: if c.scale.is_some() {
                c.scale
            } else {
                side.scale
            },
        },
        None => side,
    }
}

/// How `apparel` sits on a pawn facing `facing` with body type `body_type`.
pub fn apparel_worn_data_for_facing(apparel: &ApparelDef, facing: PawnFacing, body_type: Option<&str>) -> (r: ApparelWornDirectionDef)
    ensures
        r@ == worn_for(apparel@.worn, facing, match body_type {
            Some(b) => Some(b@),
            None => None,
        }),
{
    let w = &apparel.worn_graphic;
    let (side, local) = match facing {
        PawnFacing::North => (&w.north, &w.north_body_overrides),
        PawnFacing::East => (&w.east, &w.east_body_overrides),
        PawnFacing::South => (&w.south, &w.south_body_overrides),
        PawnFacing::West => (&w.west, &w.west_body_overrides),
    };
    let out = ApparelWornDirectionDef { offset: side.offset.clone(), scale: side.scale.clone() };
    match body_type {
        None => out,
        Some(b) => {
            let key = lower_chars(chars_of(b).as_slice());
            let out = apply_change(out, change_of(&w.global_body_overrides, &key));
            apply_change(out, change_of(local, &key))
        },
    }
}

/// The draw layer `apparel` asks for when seen facing `facing`, as a
/// number; none when it asks for none.
pub fn apparel_draw_layer_for_facing(apparel: &ApparelDef, facing: PawnFacing) -> (r: Option<String>)
    ensures
        opt_view(r) == match facing {
            PawnFacing::North => apparel@.draw_data.north,
            PawnFacing::East => apparel@.draw_data.east,
            PawnFacing::South => apparel@.draw_data.south,
            PawnFacing::West => apparel@.draw_data.west,
        },
{
    let d = &apparel.draw_data;
    match facing {
        PawnFacing::North => d.north_layer.clone(),
        PawnFacing::East => d.east_layer.clone(),
        PawnFacing::South => d.south_layer.clone(),
        PawnFacing::West => d.west_layer.clone(),
    }
}

} // verus!
