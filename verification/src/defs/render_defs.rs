//! Thing, body type and beard defs: what the renderer reads of them. Their
//! numbers are kept as the texts that the def files give (see `numbers`).
use vstd::prelude::*;

use super::apparel::{bool_named, parse_bool};
use super::numbers::{color_numbers, color_numbers_of, float_text, inline_vector, inline_vector_of, is_float_text, strings_view};
use super::reader::{defs_in, load_defs, DefReader, NamedDef};
use super::loaders::docs_view;
use super::xml::{child_from, child_of, child_text, child_text_of, nodes_view, opt_view, NodeSeq, XmlNode};

verus! {

/// Number texts, in order.
pub type Numbers = Seq<Seq<char>>;

/// The texts of a vector's `x`, `y` (and `z`) child elements; none for a
/// component that is missing or not a number.
pub type Axes = Seq<Option<Seq<char>>>;

pub type GraphicView = (Seq<char>, Option<Seq<char>>, Option<Numbers>, Option<Axes>, Option<Axes>);

/// How a thing is drawn: its texture, graphic class, colour (three or four
/// numbers; none for white), draw size (`x`, `y`; none for one by one, a
/// missing component is one) and draw offset (`x`, `y`, `z`; none for no
/// offset, a missing component is zero).
#[derive(Debug, Clone)]
pub struct GraphicData {
    pub tex_path: String,
    pub graphic_class: Option<String>,
    pub color: Option<Vec<String>>,
    pub draw_size: Option<Vec<Option<String>>>,
    pub draw_offset: Option<Vec<Option<String>>>,
}

/// A thing def with its graphic data.
#[derive(Debug, Clone)]
pub struct ThingDef {
    pub def_name: String,
    pub graphic_data: GraphicData,
}

/// A body type def: its name, the head offset (two numbers) and the naked
/// body texture.
#[derive(Debug, Clone)]
pub struct BodyTypeDefRender {
    pub def_name: String,
    pub head_offset: Vec<String>,
    pub body_naked_graphic_path: String,
}

/// A beard def: its name, texture (empty when the def has none), whether
/// it has no graphic, and its offsets for narrow heads seen from the east
/// and the south (three numbers each; none for no offset).
#[derive(Debug, Clone)]
pub struct BeardDefRender {
    pub def_name: String,
    pub tex_path: String,
    pub no_graphic: bool,
    pub offset_narrow_east: Option<Vec<String>>,
    pub offset_narrow_south: Option<Vec<String>>,
}

pub open spec fn opt_numbers_view(o: Option<Vec<String>>) -> Option<Numbers> {
    match o {
        Some(v) => Some(strings_view(v@)),
        None => None,
    }
}

pub open spec fn axes_view(v: Seq<Option<String>>) -> Axes {
    v.map_values(|o: Option<String>| opt_view(o))
}

pub open spec fn opt_axes_view(o: Option<Vec<Option<String>>>) -> Option<Axes> {
    match o {
        Some(v) => Some(axes_view(v@)),
        None => None,
    }
}

/// The text, when it is a number.
pub open spec fn number_or_none(t: Option<Seq<char>>) -> Option<Seq<char>> {
    match t {
        Some(x) => if float_text(x) {
            Some(x)
        } else {
            None
        },
        None => None,
    }
}

pub open spec fn color_in(t: Option<Seq<char>>) -> Option<Numbers> {
    match t {
        Some(x) => color_numbers(x),
        None => None,
    }
}

pub open spec fn vector_in(t: Option<Seq<char>>, n: int) -> Option<Numbers> {
    match t {
        Some(x) => inline_vector(x, n),
        None => None,
    }
}

pub open spec fn xy() -> Seq<Seq<char>> {
    seq!["x"@, "y"@]
}

pub open spec fn xyz() -> Seq<Seq<char>> {
    seq!["x"@, "y"@, "z"@]
}

/// The components of the vector at node `j`, read from its child elements
/// named in `names`.
pub open spec fn axes_at(nodes: NodeSeq, j: int, names: Seq<Seq<char>>) -> Axes {
    Seq::new(names.len(), |k: int| number_or_none(child_text(nodes, j, names[k])))
}

/// The vector of node `i`'s first child element named `tag`.
pub open spec fn axes_under(nodes: NodeSeq, i: int, tag: Seq<char>, names: Seq<Seq<char>>) -> Option<Axes> {
    match child_from(nodes, i, tag, 0) {
        Some(j) => Some(axes_at(nodes, j, names)),
        None => None,
    }
}

/// The graphic data at node `g`: `texPath` is required.
pub open spec fn graphic_at(nodes: NodeSeq, g: int) -> Option<GraphicView> {
    match child_text(nodes, g, "texPath"@) {
        None => None,
        Some(tex) => Some(
            (
                tex,
                child_text(nodes, g, "graphicClass"@),
                color_in(child_text(nodes, g, "color"@)),
                axes_under(nodes, g, "drawSize"@, xy()),
                axes_under(nodes, g, "drawOffset"@, xyz()),
            ),
        ),
    }
}

/// The thing def at node `i`: `defName` and a readable first
/// `graphicData` child are required.
pub open spec fn thing_at(nodes: NodeSeq, i: int) -> Option<(Seq<char>, GraphicView)> {
    match child_text(nodes, i, "defName"@) {
        None => None,
        Some(name) => match child_from(nodes, i, "graphicData"@, 0) {
            None => None,
            Some(g) => match graphic_at(nodes, g) {
                None => None,
                Some(gd) => Some((name, gd)),
            },
        },
    }
}

/// The body type def at node `i`: `defName`, a `headOffset` of two numbers
/// and `bodyNakedGraphicPath` are required.
pub open spec fn body_type_at(nodes: NodeSeq, i: int) -> Option<(Seq<char>, Numbers, Seq<char>)> {
    match child_text(nodes, i, "defName"@) {
        None => None,
        Some(name) => match vector_in(child_text(nodes, i, "headOffset"@), 2) {
            None => None,
            Some(offset) => match child_text(nodes, i, "bodyNakedGraphicPath"@) {
                None => None,
                Some(path) => Some((name, offset, path)),
            },
        },
    }
}

/// The beard def at node `i`: `defName` is required; `noGraphic` is false
/// unless it reads true.
pub open spec fn beard_at(nodes: NodeSeq, i: int) -> Option<(Seq<char>, Seq<char>, bool, Option<Numbers>, Option<Numbers>)> {
    match child_text(nodes, i, "defName"@) {
        None => None,
        Some(name) => Some(
            (
                name,
                match child_text(nodes, i, "texPath"@) {
                    Some(t) => t,
                    None => Seq::empty(),
                },
                match child_text(nodes, i, "noGraphic"@) {
                    Some(t) => bool_named(t) == Some(true),
                    None => false,
                },
                vector_in(child_text(nodes, i, "offsetNarrowEast"@), 3),
                vector_in(child_text(nodes, i, "offsetNarrowSouth"@), 3),
            ),
        ),
    }
}

impl View for ThingDef {
    type V = (Seq<char>, GraphicView);

    open spec fn view(&self) -> (Seq<char>, GraphicView) {
        (
            self.def_name@,
            (
                self.graphic_data.tex_path@,
                opt_view(self.graphic_data.graphic_class),
                opt_numbers_view(self.graphic_data.color),
                opt_axes_view(self.graphic_data.draw_size),
                opt_axes_view(self.graphic_data.draw_offset),
            ),
        )
    }
}

impl View for BodyTypeDefRender {
    type V = (Seq<char>, Numbers, Seq<char>);

    open spec fn view(&self) -> (Seq<char>, Numbers, Seq<char>) {
        (self.def_name@, strings_view(self.head_offset@), self.body_naked_graphic_path@)
    }
}

impl View for BeardDefRender {
    type V = (Seq<char>, Seq<char>, bool, Option<Numbers>, Option<Numbers>);

    open spec fn view(&self) -> (Seq<char>, Seq<char>, bool, Option<Numbers>, Option<Numbers>) {
        (
            self.def_name@,
            self.tex_path@,
            self.no_graphic,
            opt_numbers_view(self.offset_narrow_east),
            opt_numbers_view(self.offset_narrow_south),
        )
    }
}

fn number_text(t: Option<String>) -> (r: Option<String>)
    ensures
        opt_view(r) == number_or_none(opt_view(t)),
{
    match t {
        Some(x) => if is_float_text(x.as_str()) {
            Some(x)
        } else {
            None
        },
        None => None,
    }
}

fn color_text(t: Option<String>) -> (r: Option<Vec<String>>)
    ensures
        opt_numbers_view(r) == color_in(opt_view(t)),
{
    match t {
        Some(x) => color_numbers_of(x.as_str()),
        None => None,
    }
}

fn vector_text(t: Option<String>, n: usize) -> (r: Option<Vec<String>>)
    ensures
        opt_numbers_view(r) == vector_in(opt_view(t), n as int),
{
    match t {
        Some(x) => inline_vector_of(x.as_str(), n),
        None => None,
    }
}

fn axes_text(nodes: &Vec<XmlNode>, i: usize, tag: &str, three: bool) -> (r: Option<Vec<Option<String>>>)
    ensures
        opt_axes_view(r) == axes_under(nodes_view(nodes@), i as int, tag@, if three { xyz() } else { xy() }),
{
    match child_of(nodes, i, tag) {
        None => None,
        Some(j) => {
            let mut v: Vec<Option<String>> = Vec::new();
            v.push(number_text(child_text_of(nodes, j, "x")));
            v.push(number_text(child_text_of(nodes, j, "y")));
            if three {
                v.push(number_text(child_text_of(nodes, j, "z")));
            }
            proof {
                let names = if three { xyz() } else { xy() };
                assert(axes_view(v@) =~= axes_at(nodes_view(nodes@), j as int, names));
            }
            Some(v)
        },
    }
}

pub(crate) fn graphic_of(nodes: &Vec<XmlNode>, g: usize) -> (r: Option<GraphicData>)
    ensures
        match r {
            Some(d) => graphic_at(nodes_view(nodes@), g as int) == Some(
                (
                    d.tex_path@,
                    opt_view(d.graphic_class),
                    opt_numbers_view(d.color),
                    opt_axes_view(d.draw_size),
                    opt_axes_view(d.draw_offset),
                ),
            ),
            None => graphic_at(nodes_view(nodes@), g as int) is None,
        },
{
    match child_text_of(nodes, g, "texPath") {
        None => None,
        Some(tex_path) => Some(
            GraphicData {
                tex_path,
                graphic_class: child_text_of(nodes, g, "graphicClass"),
                color: color_text(child_text_of(nodes, g, "color")),
                draw_size: axes_text(nodes, g, "drawSize", false),
                draw_offset: axes_text(nodes, g, "drawOffset", true),
            },
        ),
    }
}

impl NamedDef for ThingDef {
    open spec fn name_view(v: (Seq<char>, GraphicView)) -> Seq<char> {
        v.0
    }

    fn name(&self) -> (r: &String) {
        &self.def_name
    }
}

impl DefReader for ThingDef {
    open spec fn tag() -> Seq<char> {
        "ThingDef"@
    }

    open spec fn read_spec(nodes: NodeSeq, i: int) -> Option<(Seq<char>, GraphicView)> {
        thing_at(nodes, i)
    }

    fn tag_str() -> (r: &'static str) {
        "ThingDef"
    }

    fn read(nodes: &Vec<XmlNode>, i: usize) -> (r: Option<ThingDef>) {
        match child_text_of(nodes, i, "defName") {
            None => None,
            Some(def_name) => match child_of(nodes, i, "graphicData") {
                None => None,
                Some(g) => match graphic_of(nodes, g) {
                    None => None,
                    Some(graphic_data) => Some(ThingDef { def_name, graphic_data }),
                },
            },
        }
    }
}

impl NamedDef for BodyTypeDefRender {
    open spec fn name_view(v: (Seq<char>, Numbers, Seq<char>)) -> Seq<char> {
        v.0
    }

    fn name(&self) -> (r: &String) {
        &self.def_name
    }
}

impl DefReader for BodyTypeDefRender {
    open spec fn tag() -> Seq<char> {
        "BodyTypeDef"@
    }

    open spec fn read_spec(nodes: NodeSeq, i: int) -> Option<(Seq<char>, Numbers, Seq<char>)> {
        body_type_at(nodes, i)
    }

    fn tag_str() -> (r: &'static str) {
        "BodyTypeDef"
    }

    fn read(nodes: &Vec<XmlNode>, i: usize) -> (r: Option<BodyTypeDefRender>) {
        match child_text_of(nodes, i, "defName") {
            None => None,
            Some(def_name) => match vector_text(child_text_of(nodes, i, "headOffset"), 2) {
                None => None,
                Some(head_offset) => match child_text_of(nodes, i, "bodyNakedGraphicPath") {
                    None => None,
                    Some(body_naked_graphic_path) => Some(
                        BodyTypeDefRender { def_name, head_offset, body_naked_graphic_path },
                    ),
                },
            },
        }
    }
}

impl NamedDef for BeardDefRender {
    open spec fn name_view(v: (Seq<char>, Seq<char>, bool, Option<Numbers>, Option<Numbers>)) -> Seq<char> {
        v.0
    }

    fn name(&self) -> (r: &String) {
        &self.def_name
    }
}

impl DefReader for BeardDefRender {
    open spec fn tag() -> Seq<char> {
        "BeardDef"@
    }

    open spec fn read_spec(nodes: NodeSeq, i: int) -> Option<(Seq<char>, Seq<char>, bool, Option<Numbers>, Option<Numbers>)> {
        beard_at(nodes, i)
    }

    fn tag_str() -> (r: &'static str) {
        "BeardDef"
    }

    fn read(nodes: &Vec<XmlNode>, i: usize) -> (r: Option<BeardDefRender>) {
        match child_text_of(nodes, i, "defName") {
            None => None,
            Some(def_name) => {
                let tex_path = match child_text_of(nodes, i, "texPath") {
                    Some(t) => t,
                    None => String::new(),
                };
                let no_graphic = match child_text_of(nodes, i, "noGraphic") {
                    Some(t) => match parse_bool(t.as_str()) {
                        Some(b) => b,
                        None => false,
                    },
                    None => false,
                };
                Some(
                    BeardDefRender {
                        def_name,
                        tex_path,
                        no_graphic,
                        offset_narrow_east: vector_text(child_text_of(nodes, i, "offsetNarrowEast"), 3),
                        offset_narrow_south: vector_text(child_text_of(nodes, i, "offsetNarrowSouth"), 3),
                    },
                )
            },
        }
    }
}

/// The thing defs in the given XML def files that have a name and readable
/// graphic data, in the order their names were first read.
pub fn load_thing_defs(documents: &[String]) -> (r: Vec<ThingDef>)
    ensures
        r@.map_values(|d: ThingDef| d@) == defs_in::<ThingDef>(docs_view(documents@), documents@.len() as int),
{
    load_defs::<ThingDef>(documents)
}

/// The body type defs in the given XML def files.
pub fn load_body_type_defs(documents: &[String]) -> (r: Vec<BodyTypeDefRender>)
    ensures
        r@.map_values(|d: BodyTypeDefRender| d@) == defs_in::<BodyTypeDefRender>(
            docs_view(documents@),
            documents@.len() as int,
        ),
{
    load_defs::<BodyTypeDefRender>(documents)
}

/// The beard defs in the given XML def files.
pub fn load_beard_defs(documents: &[String]) -> (r: Vec<BeardDefRender>)
    ensures
        r@.map_values(|d: BeardDefRender| d@) == defs_in::<BeardDefRender>(docs_view(documents@), documents@.len() as int),
{
    load_defs::<BeardDefRender>(documents)
}

} // verus!
