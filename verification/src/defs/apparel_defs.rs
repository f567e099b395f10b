//! Apparel defs: thing defs with an `apparel` section whose worn graphic
//! lies under `Things/Pawn/Humanlike/Apparel/`. Their numbers are kept as
//! the texts that the def files give (see `numbers`).
use vstd::prelude::*;

use super::apparel::{
    bool_named, head_coverage, outermost_layer, parent_tag_name, parse_bool, skip_flags_named, skip_flags_of,
    some_group_holds, worn_layer,
};
use super::loaders::upsert;
use super::numbers::{inline_vector_of, is_float_text, strings_view};
use super::reader::{def_views, key_fn, upsert_def, DefReader, NamedDef};
use super::render_defs::{graphic_at, number_or_none, opt_numbers_view, vector_in, GraphicData, GraphicView, Numbers};
use super::xml::{child_from, child_of, child_text, child_text_of, node_view, nodes_view, opt_view, NodeSeq, XmlNode};
use super::{ApparelLayerDef, ApparelSkipFlagDef};
use crate::text::{after_last, chars_of, lower, lower_chars, starts_with, starts_with_chars, str_eq};

verus! {

broadcast use vstd::string::group_string_axioms;

/// How apparel sits when seen from one side: its offset (two numbers; none
/// for no offset) and scale (two numbers; none for one).
#[derive(Debug, Clone)]
pub struct ApparelWornDirectionDef {
    pub offset: Option<Vec<String>>,
    pub scale: Option<Vec<String>>,
}

/// What a body type changes of how apparel sits: an offset or a scale (two
/// numbers each), or both; none where it keeps the side's own.
#[derive(Debug, Clone)]
pub struct ApparelWornPartialDef {
    pub offset: Option<Vec<String>>,
    pub scale: Option<Vec<String>>,
}

/// How apparel sits on the body: whether a utility item is drawn as a pack,
/// the four sides, and the body-type changes, for all sides and per side,
/// each list keyed by the lower-cased body type name.
#[derive(Debug, Clone)]
pub struct ApparelWornGraphicDef {
    pub render_utility_as_pack: bool,
    pub north: ApparelWornDirectionDef,
    pub east: ApparelWornDirectionDef,
    pub south: ApparelWornDirectionDef,
    pub west: ApparelWornDirectionDef,
    pub global_body_overrides: Vec<(String, ApparelWornPartialDef)>,
    pub north_body_overrides: Vec<(String, ApparelWornPartialDef)>,
    pub east_body_overrides: Vec<(String, ApparelWornPartialDef)>,
    pub south_body_overrides: Vec<(String, ApparelWornPartialDef)>,
    pub west_body_overrides: Vec<(String, ApparelWornPartialDef)>,
}

/// The draw layer apparel asks for when seen from each side, as a number;
/// none where it leaves the layer to its apparel layer.
#[derive(Debug, Clone)]
pub struct ApparelDrawDataDef {
    pub north_layer: Option<String>,
    pub east_layer: Option<String>,
    pub south_layer: Option<String>,
    pub west_layer: Option<String>,
}

/// An apparel def.
#[derive(Debug, Clone)]
pub struct ApparelDef {
    pub def_name: String,
    pub tex_path: String,
    pub layer: ApparelLayerDef,
    pub color: Option<Vec<String>>,
    pub covers_upper_head: bool,
    pub covers_full_head: bool,
    pub render_skip_flags: Option<Vec<ApparelSkipFlagDef>>,
    pub draw_data: ApparelDrawDataDef,
    pub worn_graphic: ApparelWornGraphicDef,
    pub shell_rendered_behind_head: bool,
    pub parent_tag_def: Option<String>,
}

pub struct WornView {
    pub offset: Option<Numbers>,
    pub scale: Option<Numbers>,
}

pub type OverrideList = Seq<(Seq<char>, WornView)>;

pub struct WornGraphicView {
    pub pack: bool,
    pub north: WornView,
    pub east: WornView,
    pub south: WornView,
    pub west: WornView,
    pub global: OverrideList,
    pub north_overrides: OverrideList,
    pub east_overrides: OverrideList,
    pub south_overrides: OverrideList,
    pub west_overrides: OverrideList,
}

pub struct DrawDataView {
    pub north: Option<Seq<char>>,
    pub east: Option<Seq<char>>,
    pub south: Option<Seq<char>>,
    pub west: Option<Seq<char>>,
}

pub struct ApparelView {
    pub def_name: Seq<char>,
    pub tex_path: Seq<char>,
    pub layer: ApparelLayerDef,
    pub color: Option<Numbers>,
    pub covers_upper_head: bool,
    pub covers_full_head: bool,
    pub skip_flags: Option<Seq<ApparelSkipFlagDef>>,
    pub draw_data: DrawDataView,
    pub worn: WornGraphicView,
    pub behind_head: bool,
    pub parent_tag: Option<Seq<char>>,
}

impl View for ApparelWornDirectionDef {
    type V = WornView;

    open spec fn view(&self) -> WornView {
        WornView { offset: opt_numbers_view(self.offset), scale: opt_numbers_view(self.scale) }
    }
}

impl View for ApparelWornPartialDef {
    type V = WornView;

    open spec fn view(&self) -> WornView {
        WornView { offset: opt_numbers_view(self.offset), scale: opt_numbers_view(self.scale) }
    }
}

pub open spec fn overrides_view(v: Seq<(String, ApparelWornPartialDef)>) -> OverrideList {
    v.map_values(|e: (String, ApparelWornPartialDef)| (e.0@, e.1@))
}

impl View for ApparelWornGraphicDef {
    type V = WornGraphicView;

    open spec fn view(&self) -> WornGraphicView {
        WornGraphicView {
            pack: self.render_utility_as_pack,
            north: self.north@,
            east: self.east@,
            south: self.south@,
            west: self.west@,
            global: overrides_view(self.global_body_overrides@),
            north_overrides: overrides_view(self.north_body_overrides@),
            east_overrides: overrides_view(self.east_body_overrides@),
            south_overrides: overrides_view(self.south_body_overrides@),
            west_overrides: overrides_view(self.west_body_overrides@),
        }
    }
}

impl View for ApparelDrawDataDef {
    type V = DrawDataView;

    open spec fn view(&self) -> DrawDataView {
        DrawDataView {
            north: opt_view(self.north_layer),
            east: opt_view(self.east_layer),
            south: opt_view(self.south_layer),
            west: opt_view(self.west_layer),
        }
    }
}

pub open spec fn opt_flags_view(o: Option<Vec<ApparelSkipFlagDef>>) -> Option<Seq<ApparelSkipFlagDef>> {
    match o {
        Some(v) => Some(v@),
        None => None,
    }
}

impl View for ApparelDef {
    type V = ApparelView;

    open spec fn view(&self) -> ApparelView {
        ApparelView {
            def_name: self.def_name@,
            tex_path: self.tex_path@,
            layer: self.layer,
            color: opt_numbers_view(self.color),
            covers_upper_head: self.covers_upper_head,
            covers_full_head: self.covers_full_head,
            skip_flags: opt_flags_view(self.render_skip_flags),
            draw_data: self.draw_data@,
            worn: self.worn_graphic@,
            behind_head: self.shell_rendered_behind_head,
            parent_tag: opt_view(self.parent_tag_def),
        }
    }
}

impl NamedDef for (String, ApparelWornPartialDef) {
    open spec fn name_view(v: (Seq<char>, WornView)) -> Seq<char> {
        v.0
    }

    fn name(&self) -> (r: &String) {
        &self.0
    }
}

/// The trimmed texts of node `j`'s children among the first `n` nodes, in
/// order, as a list element's items give them.
pub open spec fn child_texts(nodes: NodeSeq, j: int, n: int) -> Seq<Seq<char>>
    decreases n,
{
    if n <= 0 {
        Seq::empty()
    } else {
        let before = child_texts(nodes, j, n - 1);
        if nodes[n - 1].2 == Some(j as usize) {
            match nodes[n - 1].3 {
                Some(t) => before.push(crate::text::trim(t)),
                None => before,
            }
        } else {
            before
        }
    }
}

/// The items of node `i`'s first child element named `tag`.
pub open spec fn list_under(nodes: NodeSeq, i: int, tag: Seq<char>) -> Option<Seq<Seq<char>>> {
    match child_from(nodes, i, tag, 0) {
        Some(j) => Some(child_texts(nodes, j, nodes.len() as int)),
        None => None,
    }
}

pub open spec fn no_layers() -> DrawDataView {
    DrawDataView { north: None, east: None, south: None, west: None }
}

/// The per-side draw layers read from the element children of node `d`
/// among the first `n` nodes: `dataNorth` and the like (any ASCII case),
/// each giving its `layer`; a later one of a side replaces an earlier.
pub open spec fn draw_layers(nodes: NodeSeq, d: int, n: int) -> DrawDataView
    decreases n,
{
    if n <= 0 {
        no_layers()
    } else {
        let b = draw_layers(nodes, d, n - 1);
        let c = nodes[n - 1];
        if c.2 == Some(d as usize) && c.0 {
            let key = lower(c.1);
            let layer = number_or_none(child_text(nodes, n - 1, "layer"@));
            if key == "datanorth"@ {
                DrawDataView { north: layer, ..b }
            } else if key == "dataeast"@ {
                DrawDataView { east: layer, ..b }
            } else if key == "datasouth"@ {
                DrawDataView { south: layer, ..b }
            } else if key == "datawest"@ {
                DrawDataView { west: layer, ..b }
            } else {
                b
            }
        } else {
            b
        }
    }
}

pub open spec fn side_tags() -> Seq<Seq<char>> {
    seq!["north"@, "east"@, "south"@, "west"@]
}

pub open spec fn adjustment_tags() -> Seq<Seq<char>> {
    seq!["offset"@, "scale"@]
}

/// The offset and scale read from node `j`.
pub open spec fn worn_at(nodes: NodeSeq, j: int) -> WornView {
    WornView {
        offset: vector_in(child_text(nodes, j, "offset"@), 2),
        scale: vector_in(child_text(nodes, j, "scale"@), 2),
    }
}

/// The body-type changes read from the element children of node `w` among
/// the first `n` nodes: each child not named in `excluded` (ASCII case
/// ignored) that gives an offset or a scale, keyed by its lower-cased
/// name, a later one replacing an earlier of the same key.
pub open spec fn body_overrides(nodes: NodeSeq, w: int, excluded: Seq<Seq<char>>, n: int) -> OverrideList
    decreases n,
{
    if n <= 0 {
        Seq::empty()
    } else {
        let b = body_overrides(nodes, w, excluded, n - 1);
        let c = nodes[n - 1];
        if c.2 == Some(w as usize) && c.0 && !excluded.contains(lower(c.1)) {
            let adj = worn_at(nodes, n - 1);
            if adj.offset is Some || adj.scale is Some {
                upsert(b, (lower(c.1), adj), key_fn::<(String, ApparelWornPartialDef)>())
            } else {
                b
            }
        } else {
            b
        }
    }
}

pub open spec fn plain_side() -> WornView {
    WornView { offset: None, scale: None }
}

/// One side of the worn graphic at node `w`: the side's offset and scale,
/// and its body-type changes; defaults when the side is not given.
pub open spec fn side_at(nodes: NodeSeq, w: int, side: Seq<char>) -> (WornView, OverrideList) {
    match child_from(nodes, w, side, 0) {
        Some(d) => (worn_at(nodes, d), body_overrides(nodes, d, adjustment_tags(), nodes.len() as int)),
        None => (plain_side(), Seq::empty()),
    }
}

pub open spec fn worn_graphic_at(nodes: NodeSeq, w: int) -> WornGraphicView {
    WornGraphicView {
        pack: match child_text(nodes, w, "renderUtilityAsPack"@) {
            Some(t) => bool_named(t) == Some(true),
            None => false,
        },
        north: side_at(nodes, w, "north"@).0,
        east: side_at(nodes, w, "east"@).0,
        south: side_at(nodes, w, "south"@).0,
        west: side_at(nodes, w, "west"@).0,
        global: body_overrides(nodes, w, side_tags(), nodes.len() as int),
        north_overrides: side_at(nodes, w, "north"@).1,
        east_overrides: side_at(nodes, w, "east"@).1,
        south_overrides: side_at(nodes, w, "south"@).1,
        west_overrides: side_at(nodes, w, "west"@).1,
    }
}

pub open spec fn plain_worn_graphic() -> WornGraphicView {
    WornGraphicView {
        pack: false,
        north: plain_side(),
        east: plain_side(),
        south: plain_side(),
        west: plain_side(),
        global: Seq::empty(),
        north_overrides: Seq::empty(),
        east_overrides: Seq::empty(),
        south_overrides: Seq::empty(),
        west_overrides: Seq::empty(),
    }
}

pub open spec fn apparel_from(nodes: NodeSeq, name: Seq<char>, a: int, gd: GraphicView, tex: Seq<char>) -> ApparelView {
    let groups = match list_under(nodes, a, "bodyPartGroups"@) {
        Some(g) => g,
        None => Seq::empty(),
    };
    ApparelView {
        def_name: name,
        tex_path: tex,
        layer: match list_under(nodes, a, "layers"@) {
            Some(l) => worn_layer(l, l.len() as int),
            None => ApparelLayerDef::OnSkin,
        },
        color: gd.2,
        covers_upper_head: some_group_holds(groups, "fullhead"@) || some_group_holds(groups, "upperhead"@),
        covers_full_head: some_group_holds(groups, "fullhead"@),
        skip_flags: match list_under(nodes, a, "renderSkipFlags"@) {
            Some(k) => Some(skip_flags_named(k)),
            None => None,
        },
        draw_data: match child_from(nodes, a, "drawData"@, 0) {
            Some(d) => draw_layers(nodes, d, nodes.len() as int),
            None => no_layers(),
        },
        worn: match child_from(nodes, a, "wornGraphicData"@, 0) {
            Some(w) => worn_graphic_at(nodes, w),
            None => plain_worn_graphic(),
        },
        behind_head: match child_text(nodes, a, "shellRenderedBehindHead"@) {
            Some(t) => bool_named(t) == Some(true),
            None => false,
        },
        parent_tag: match child_text(nodes, a, "parentTagDef"@) {
            Some(t) => Some(after_last(t, '.')),
            None => None,
        },
    }
}

/// The apparel def at node `i`: `defName`, an `apparel` child, readable
/// graphic data, and a `wornGraphicPath` under the humanlike apparel
/// folder are required.
pub open spec fn apparel_at(nodes: NodeSeq, i: int) -> Option<ApparelView> {
    match child_text(nodes, i, "defName"@) {
        None => None,
        Some(name) => match child_from(nodes, i, "apparel"@, 0) {
            None => None,
            Some(a) => match child_from(nodes, i, "graphicData"@, 0) {
                None => None,
                Some(g) => match graphic_at(nodes, g) {
                    None => None,
                    Some(gd) => match child_text(nodes, a, "wornGraphicPath"@) {
                        None => None,
                        Some(tex) => if starts_with(tex, "Things/Pawn/Humanlike/Apparel/"@) {
                            Some(apparel_from(nodes, name, a, gd, tex))
                        } else {
                            None
                        },
                    },
                },
            },
        },
    }
}

fn child_texts_of(nodes: &Vec<XmlNode>, j: usize) -> (r: Vec<String>)
    ensures
        strings_view(r@) == child_texts(nodes_view(nodes@), j as int, nodes@.len() as int),
{
    let ghost nv = nodes_view(nodes@);
    let mut out: Vec<String> = Vec::new();
    let mut k: usize = 0;
    while k < nodes.len()
        invariant
            k <= nodes@.len(),
            nv == nodes_view(nodes@),
            strings_view(out@) == child_texts(nv, j as int, k as int),
        decreases nodes.len() - k,
    {
        proof {
            assert(nv[k as int] == node_view(nodes@[k as int]));
        }
        if nodes[k].parent == Some(j) {
            match &nodes[k].text {
                Some(t) => {
                    let tt = crate::text::trim_chars(chars_of(t.as_str()).as_slice());
                    let ghost before = out@;
                    out.push(crate::text::string_of(tt.as_slice()));
                    proof {
                        assert(strings_view(out@) =~= strings_view(before).push(crate::text::trim(t@)));
                    }
                },
                None => {},
            }
        }
        k += 1;
    }
    out
}

fn list_of(nodes: &Vec<XmlNode>, i: usize, tag: &str) -> (r: Option<Vec<String>>)
    ensures
        match r {
            Some(v) => list_under(nodes_view(nodes@), i as int, tag@) == Some(strings_view(v@)),
            None => list_under(nodes_view(nodes@), i as int, tag@) is None,
        },
{
    match child_of(nodes, i, tag) {
        Some(j) => Some(child_texts_of(nodes, j)),
        None => None,
    }
}

fn number_text(t: Option<String>) -> (r: Option<String>)
    ensures
        opt_view(r) == number_or_none(opt_view(t)),
{
    match t {
        Some(x) => if is_float_text(x.as_str()) {
            Some(x)
        } else {
            None
        },
        None => None,
    }
}

fn vector2_text(t: Option<String>) -> (r: Option<Vec<String>>)
    ensures
        opt_numbers_view(r) == vector_in(opt_view(t), 2),
{
    match t {
        Some(x) => inline_vector_of(x.as_str(), 2),
        None => None,
    }
}

fn flag_text(t: Option<String>) -> (r: bool)
    ensures
        r == match opt_view(t) {
            Some(x) => bool_named(x) == Some(true),
            None => false,
        },
{
    match t {
        Some(x) => match parse_bool(x.as_str()) {
            Some(b) => b,
            None => false,
        },
        None => false,
    }
}

fn draw_data_of(nodes: &Vec<XmlNode>, d: usize) -> (r: ApparelDrawDataDef)
    ensures
        r@ == draw_layers(nodes_view(nodes@), d as int, nodes@.len() as int),
{
    let ghost nv = nodes_view(nodes@);
    let mut out = ApparelDrawDataDef { north_layer: None, east_layer: None, south_layer: None, west_layer: None };
    let mut k: usize = 0;
    while k < nodes.len()
        invariant
            k <= nodes@.len(),
            nv == nodes_view(nodes@),
            out@ == draw_layers(nv, d as int, k as int),
        decreases nodes.len() - k,
    {
        proof {
            assert(nv[k as int] == node_view(nodes@[k as int]));
        }
        if nodes[k].parent == Some(d) && nodes[k].element {
            let key = lower_chars(chars_of(nodes[k].name.as_str()).as_slice());
            let layer = number_text(child_text_of(nodes, k, "layer"));
            if crate::text::chars_eq(key.as_slice(), chars_of("datanorth").as_slice()) {
                out.north_layer = layer;
            } else if crate::text::chars_eq(key.as_slice(), chars_of("dataeast").as_slice()) {
                out.east_layer = layer;
            } else if crate::text::chars_eq(key.as_slice(), chars_of("datasouth").as_slice()) {
                out.south_layer = layer;
            } else if crate::text::chars_eq(key.as_slice(), chars_of("datawest").as_slice()) {
                out.west_layer = layer;
            }
        }
        k += 1;
    }
    out
}

fn worn_side_of(nodes: &Vec<XmlNode>, j: usize) -> (r: ApparelWornDirectionDef)
    ensures
        r@ == worn_at(nodes_view(nodes@), j as int),
{
    ApparelWornDirectionDef {
        offset: vector2_text(child_text_of(nodes, j, "offset")),
        scale: vector2_text(child_text_of(nodes, j, "scale")),
    }
}

fn is_excluded(key: &Vec<char>, sides: bool) -> (r: bool)
    ensures
        r == (if sides { side_tags() } else { adjustment_tags() }).contains(key@),
{
    let ghost tags = if sides { side_tags() } else { adjustment_tags() };
    if sides {
        let hit = crate::text::chars_eq(key.as_slice(), chars_of("north").as_slice())
            || crate::text::chars_eq(key.as_slice(), chars_of("east").as_slice())
            || crate::text::chars_eq(key.as_slice(), chars_of("south").as_slice())
            || crate::text::chars_eq(key.as_slice(), chars_of("west").as_slice());
        proof {
            if hit {
                if key@ == "north"@ {
                    assert(tags[0] == key@);
                } else if key@ == "east"@ {
                    assert(tags[1] == key@);
                } else if key@ == "south"@ {
                    assert(tags[2] == key@);
                } else {
                    assert(tags[3] == key@);
                }
            }
        }
        hit
    } else {
        let hit = crate::text::chars_eq(key.as_slice(), chars_of("offset").as_slice())
            || crate::text::chars_eq(key.as_slice(), chars_of("scale").as_slice());
        proof {
            if hit {
                if key@ == "offset"@ {
                    assert(tags[0] == key@);
                } else {
                    assert(tags[1] == key@);
                }
            }
        }
        hit
    }
}

fn body_overrides_of(nodes: &Vec<XmlNode>, w: usize, sides: bool) -> (r: Vec<(String, ApparelWornPartialDef)>)
    ensures
        overrides_view(r@) == body_overrides(
            nodes_view(nodes@),
            w as int,
            if sides { side_tags() } else { adjustment_tags() },
            nodes@.len() as int,
        ),
{
    let ghost nv = nodes_view(nodes@);
    let ghost excluded = if sides { side_tags() } else { adjustment_tags() };
    let mut out: Vec<(String, ApparelWornPartialDef)> = Vec::new();
    let mut k: usize = 0;
    while k < nodes.len()
        invariant
            k <= nodes@.len(),
            nv == nodes_view(nodes@),
            excluded == (if sides { side_tags() } else { adjustment_tags() }),
            overrides_view(out@) == body_overrides(nv, w as int, excluded, k as int),
        decreases nodes.len() - k,
    {
        proof {
            assert(nv[k as int] == node_view(nodes@[k as int]));
            assert(overrides_view(out@) == def_views(out@));
        }
        if nodes[k].parent == Some(w) && nodes[k].element {
            let key = lower_chars(chars_of(nodes[k].name.as_str()).as_slice());
            if !is_excluded(&key, sides) {
                let adj = worn_side_of(nodes, k);
                if adj.offset.is_some() || adj.scale.is_some() {
                    let entry = (crate::text::string_of(key.as_slice()), ApparelWornPartialDef { offset: adj.offset, scale: adj.scale });
                    upsert_def(&mut out, entry);
                    proof {
                        assert(overrides_view(out@) == def_views(out@));
                    }
                }
            }
        }
        k += 1;
    }
    out
}

fn side_of(nodes: &Vec<XmlNode>, w: usize, side: &str) -> (r: (ApparelWornDirectionDef, Vec<(String, ApparelWornPartialDef)>))
    ensures
        r.0@ == side_at(nodes_view(nodes@), w as int, side@).0,
        overrides_view(r.1@) == side_at(nodes_view(nodes@), w as int, side@).1,
{
    match child_of(nodes, w, side) {
        Some(d) => (worn_side_of(nodes, d), body_overrides_of(nodes, d, false)),
        None => {
            let v: Vec<(String, ApparelWornPartialDef)> = Vec::new();
            proof {
                assert(overrides_view(v@) =~= Seq::<(Seq<char>, WornView)>::empty());
            }
            (ApparelWornDirectionDef { offset: None, scale: None }, v)
        },
    }
}

fn worn_graphic_of(nodes: &Vec<XmlNode>, w: usize) -> (r: ApparelWornGraphicDef)
    ensures
        r@ == worn_graphic_at(nodes_view(nodes@), w as int),
{
    let (north, north_body_overrides) = side_of(nodes, w, "north");
    let (east, east_body_overrides) = side_of(nodes, w, "east");
    let (south, south_body_overrides) = side_of(nodes, w, "south");
    let (west, west_body_overrides) = side_of(nodes, w, "west");
    ApparelWornGraphicDef {
        render_utility_as_pack: flag_text(child_text_of(nodes, w, "renderUtilityAsPack")),
        north,
        east,
        south,
        west,
        global_body_overrides: body_overrides_of(nodes, w, true),
        north_body_overrides,
        east_body_overrides,
        south_body_overrides,
        west_body_overrides,
    }
}

fn plain_worn_graphic_exec() -> (r: ApparelWornGraphicDef)
    ensures
        r@ == plain_worn_graphic(),
{
    let r = ApparelWornGraphicDef {
        render_utility_as_pack: false,
        north: ApparelWornDirectionDef { offset: None, scale: None },
        east: ApparelWornDirectionDef { offset: None, scale: None },
        south: ApparelWornDirectionDef { offset: None, scale: None },
        west: ApparelWornDirectionDef { offset: None, scale: None },
        global_body_overrides: Vec::new(),
        north_body_overrides: Vec::new(),
        east_body_overrides: Vec::new(),
        south_body_overrides: Vec::new(),
        west_body_overrides: Vec::new(),
    };
    proof {
        assert(overrides_view(r.global_body_overrides@) =~= Seq::<(Seq<char>, WornView)>::empty());
        assert(overrides_view(r.north_body_overrides@) =~= Seq::<(Seq<char>, WornView)>::empty());
        assert(overrides_view(r.east_body_overrides@) =~= Seq::<(Seq<char>, WornView)>::empty());
        assert(overrides_view(r.south_body_overrides@) =~= Seq::<(Seq<char>, WornView)>::empty());
        assert(overrides_view(r.west_body_overrides@) =~= Seq::<(Seq<char>, WornView)>::empty());
    }
    r
}

fn apparel_from_exec(nodes: &Vec<XmlNode>, def_name: String, a: usize, graphic: GraphicData, tex_path: String) -> (r: ApparelDef)
    ensures
        r@ == apparel_from(
            nodes_view(nodes@),
            def_name@,
            a as int,
            (
                graphic.tex_path@,
                opt_view(graphic.graphic_class),
                opt_numbers_view(graphic.color),
                super::render_defs::opt_axes_view(graphic.draw_size),
                super::render_defs::opt_axes_view(graphic.draw_offset),
            ),
            tex_path@,
        ),
{
    let ghost nv = nodes_view(nodes@);
    let layer = match list_of(nodes, a, "layers") {
        Some(l) => outermost_layer(l.as_slice()),
        None => ApparelLayerDef::OnSkin,
    };
    let groups = match list_of(nodes, a, "bodyPartGroups") {
        Some(g) => g,
        None => Vec::new(),
    };
    proof {
        if list_under(nv, a as int, "bodyPartGroups"@) is None {
            assert(strings_view(groups@) =~= Seq::<Seq<char>>::empty());
        }
    }
    let (covers_upper_head, covers_full_head) = head_coverage(groups.as_slice());
    let render_skip_flags = match list_of(nodes, a, "renderSkipFlags") {
        Some(k) => Some(skip_flags_of(k.as_slice())),
        None => None,
    };
    let draw_data = match child_of(nodes, a, "drawData") {
        Some(d) => draw_data_of(nodes, d),
        None => ApparelDrawDataDef { north_layer: None, east_layer: None, south_layer: None, west_layer: None },
    };
    let worn_graphic = match child_of(nodes, a, "wornGraphicData") {
        Some(w) => worn_graphic_of(nodes, w),
        None => plain_worn_graphic_exec(),
    };
    let parent_tag_def = match child_text_of(nodes, a, "parentTagDef") {
        Some(t) => Some(parent_tag_name(t.as_str())),
        None => None,
    };
    ApparelDef {
        def_name,
        tex_path,
        layer,
        color: graphic.color,
        covers_upper_head,
        covers_full_head,
        render_skip_flags,
        draw_data,
        worn_graphic,
        shell_rendered_behind_head: flag_text(child_text_of(nodes, a, "shellRenderedBehindHead")),
        parent_tag_def,
    }
}

impl NamedDef for ApparelDef {
    open spec fn name_view(v: ApparelView) -> Seq<char> {
        v.def_name
    }

    fn name(&self) -> (r: &String) {
        &self.def_name
    }
}

impl DefReader for ApparelDef {
    open spec fn tag() -> Seq<char> {
        "ThingDef"@
    }

    open spec fn read_spec(nodes: NodeSeq, i: int) -> Option<ApparelView> {
        apparel_at(nodes, i)
    }

    fn tag_str() -> (r: &'static str) {
        "ThingDef"
    }

    fn read(nodes: &Vec<XmlNode>, i: usize) -> (r: Option<ApparelDef>) {
        let def_name = match child_text_of(nodes, i, "defName") {
            Some(n) => n,
            None => {
                return None;
            },
        };
        let a = match child_of(nodes, i, "apparel") {
            Some(a) => a,
            None => {
                return None;
            },
        };
        let g = match child_of(nodes, i, "graphicData") {
            Some(g) => g,
            None => {
                return None;
            },
        };
        let graphic = match super::render_defs::graphic_of(nodes, g) {
            Some(gd) => gd,
            None => {
                return None;
            },
        };
        let tex_path = match child_text_of(nodes, a, "wornGraphicPath") {
            Some(t) => t,
            None => {
                return None;
            },
        };
        if !starts_with_chars(chars_of(tex_path.as_str()).as_slice(), chars_of("Things/Pawn/Humanlike/Apparel/").as_slice()) {
            return None;
        }
        Some(apparel_from_exec(nodes, def_name, a, graphic, tex_path))
    }
}

/// The apparel defs in the given XML def files.
pub fn load_apparel_defs(documents: &[String]) -> (r: Vec<ApparelDef>)
    ensures
        def_views(r@) == super::reader::defs_in::<ApparelDef>(
            super::loaders::docs_view(documents@),
            documents@.len() as int,
        ),
{
    super::reader::load_defs::<ApparelDef>(documents)
}

} // verus!
