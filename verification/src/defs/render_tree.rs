//! The base draw layers of the humanlike pawn render tree: the `Humanlike`
//! render tree def is walked from its `root` node through the element items
//! of each node's `children` list, and the base layer of the body, head,
//! beard and hair nodes (by debug label) and of the apparel nodes (by tag)
//! is read. A layer is kept as the number text a node gives; a node that
//! gives none, or no number, has base layer zero.
use vstd::prelude::*;

use super::numbers::is_float_text;
use super::render_defs::number_or_none;
use super::xml::{child_from, child_of, child_text, child_text_of, is_tag, node_view, nodes_view, opt_view, parse_xml, parsed_xml, NodeSeq, XmlNode};
use crate::text::{chars_of, push_str, str_eq, string_of};

verus! {

broadcast use vstd::string::group_string_axioms;

/// The base layers of the humanlike render tree, each as a number text;
/// none for zero.
#[derive(Debug, Clone)]
pub struct HumanlikeRenderTreeLayers {
    pub body_base_layer: Option<String>,
    pub head_base_layer: Option<String>,
    pub beard_base_layer: Option<String>,
    pub hair_base_layer: Option<String>,
    pub apparel_body_base_layer: Option<String>,
    pub apparel_head_base_layer: Option<String>,
}

/// Why the render tree layers could not be read.
#[derive(Debug, Clone)]
pub enum RenderTreeError {
    /// The file is not well-formed XML.
    Malformed,
    /// A part the layers are read from is missing; the text says which.
    Missing(String),
}

/// The layers found by a walk: for each, none while no node has set it,
/// else the base layer the last such node gave.
pub struct WalkView {
    pub body: Option<Option<Seq<char>>>,
    pub head: Option<Option<Seq<char>>>,
    pub beard: Option<Option<Seq<char>>>,
    pub hair: Option<Option<Seq<char>>>,
    pub apparel_body: Option<Option<Seq<char>>>,
    pub apparel_head: Option<Option<Seq<char>>>,
}

pub type LayersView = (
    Option<Seq<char>>,
    Option<Seq<char>>,
    Option<Seq<char>>,
    Option<Seq<char>>,
    Option<Seq<char>>,
    Option<Seq<char>>,
);

/// Node `k` is reached by the walk from `root`: it is the root, or an
/// element item of the first `children` list of a node that is reached.
pub open spec fn reached(nodes: NodeSeq, root: int, k: int) -> bool
    decreases k,
{
    if k == root {
        true
    } else if k < 0 || k >= nodes.len() || !nodes[k].0 {
        false
    } else {
        match nodes[k].2 {
            Some(c) => {
                &&& (c as int) < k
                &&& is_tag(nodes[c as int], "children"@)
                &&& match nodes[c as int].2 {
                    Some(q) => (q as int) < (c as int) && child_from(nodes, q as int, "children"@, 0) == Some(c as int)
                        && reached(nodes, root, q as int),
                    None => false,
                }
            },
            None => false,
        }
    }
}

pub open spec fn unset() -> WalkView {
    WalkView { body: None, head: None, beard: None, hair: None, apparel_body: None, apparel_head: None }
}

pub open spec fn or_empty(t: Option<Seq<char>>) -> Seq<char> {
    match t {
        Some(x) => x,
        None => Seq::empty(),
    }
}

/// The layers after the walk has read the nodes among the first `n` that
/// it reaches, in document order (the order the walk visits them).
pub open spec fn walk(nodes: NodeSeq, root: int, n: int) -> WalkView
    decreases n,
{
    if n <= 0 {
        unset()
    } else {
        let b = walk(nodes, root, n - 1);
        let k = n - 1;
        if reached(nodes, root, k) {
            let base = Some(number_or_none(child_text(nodes, k, "baseLayer"@)));
            let label = or_empty(child_text(nodes, k, "debugLabel"@));
            let tag = or_empty(child_text(nodes, k, "tagDef"@));
            let b1 = if label == "Body"@ {
                WalkView { body: base, ..b }
            } else if label == "Head"@ {
                WalkView { head: base, ..b }
            } else if label == "Beard"@ {
                WalkView { beard: base, ..b }
            } else if label == "Hair"@ {
                WalkView { hair: base, ..b }
            } else {
                b
            };
            if tag == "ApparelBody"@ {
                WalkView { apparel_body: base, ..b1 }
            } else if tag == "ApparelHead"@ {
                WalkView { apparel_head: base, ..b1 }
            } else {
                b1
            }
        } else {
            b
        }
    }
}

/// The first node from `j` on that is the `Humanlike` render tree def.
pub open spec fn humanlike_from(nodes: NodeSeq, j: int) -> Option<int>
    decreases nodes.len() - j,
{
    if j < 0 || j >= nodes.len() {
        None
    } else if is_tag(nodes[j], "PawnRenderTreeDef"@) && child_text(nodes, j, "defName"@) == Some("Humanlike"@) {
        Some(j)
    } else {
        humanlike_from(nodes, j + 1)
    }
}

/// The layers, or the text of the first thing missing.
pub open spec fn tree_layers(nodes: NodeSeq) -> Result<LayersView, Seq<char>> {
    match humanlike_from(nodes, 0) {
        None => Err("Humanlike PawnRenderTreeDef not found"@),
        Some(h) => match child_from(nodes, h, "root"@, 0) {
            None => Err("Humanlike root not found"@),
            Some(r) => {
                let w = walk(nodes, r, nodes.len() as int);
                if w.body is None {
                    Err("Body base layer missing"@)
                } else if w.head is None {
                    Err("Head base layer missing"@)
                } else if w.beard is None {
                    Err("Beard base layer missing"@)
                } else if w.hair is None {
                    Err("Hair base layer missing"@)
                } else if w.apparel_body is None {
                    Err("ApparelBody base layer missing"@)
                } else if w.apparel_head is None {
                    Err("ApparelHead base layer missing"@)
                } else {
                    Ok(
                        (
                            w.body->0,
                            w.head->0,
                            w.beard->0,
                            w.hair->0,
                            w.apparel_body->0,
                            w.apparel_head->0,
                        ),
                    )
                }
            },
        },
    }
}

pub open spec fn layers_view(l: HumanlikeRenderTreeLayers) -> LayersView {
    (
        opt_view(l.body_base_layer),
        opt_view(l.head_base_layer),
        opt_view(l.beard_base_layer),
        opt_view(l.hair_base_layer),
        opt_view(l.apparel_body_base_layer),
        opt_view(l.apparel_head_base_layer),
    )
}

pub open spec fn slot_view(s: Option<Option<String>>) -> Option<Option<Seq<char>>> {
    match s {
        Some(o) => Some(opt_view(o)),
        None => None,
    }
}

fn error_text(s: &str) -> (r: String)
    ensures
        r@ == s@,
{
    let mut out: Vec<char> = Vec::new();
    push_str(&mut out, s);
    string_of(out.as_slice())
}

fn number_text(t: Option<String>) -> (r: Option<String>)
    ensures
        opt_view(r) == number_or_none(opt_view(t)),
{
    match t {
        Some(x) => if is_float_text(x.as_str()) {
            Some(x)
        } else {
            None
        },
        None => None,
    }
}

fn text_is(t: &Option<String>, w: &str) -> (r: bool)
    ensures
        r == (or_empty(opt_view(*t)) == w@),
{
    match t {
        Some(x) => {
            let same = str_eq(x.as_str(), w);
            proof {
                assert(opt_view(*t) == Some(x@));
            }
            same
        },
        None => {
            let e = chars_of(w);
            proof {
                assert(or_empty(opt_view(*t)) =~= Seq::<char>::empty());
                if e@.len() == 0 {
                    assert(w@ =~= Seq::<char>::empty());
                }
            }
            e.len() == 0
        },
    }
}

fn find_humanlike(nodes: &Vec<XmlNode>) -> (r: Option<usize>)
    ensures
        match r {
            Some(h) => humanlike_from(nodes_view(nodes@), 0) == Some(h as int) && h < nodes@.len(),
            None => humanlike_from(nodes_view(nodes@), 0) is None,
        },
{
    let ghost nv = nodes_view(nodes@);
    let mut j: usize = 0;
    while j < nodes.len()
        invariant
            j <= nodes@.len(),
            nv == nodes_view(nodes@),
            humanlike_from(nv, 0) == humanlike_from(nv, j as int),
        decreases nodes.len() - j,
    {
        proof {
            assert(nv[j as int] == node_view(nodes@[j as int]));
        }
        if nodes[j].element && str_eq(nodes[j].name.as_str(), "PawnRenderTreeDef") {
            let name = child_text_of(nodes, j, "defName");
            let hit = match &name {
                Some(n) => str_eq(n.as_str(), "Humanlike"),
                None => false,
            };
            if hit {
                return Some(j);
            }
        }
        j += 1;
    }
    None
}

fn walk_from(nodes: &Vec<XmlNode>, root: usize) -> (r: (
    Option<Option<String>>,
    Option<Option<String>>,
    Option<Option<String>>,
    Option<Option<String>>,
    Option<Option<String>>,
    Option<Option<String>>,
))
    ensures
        ({
            let w = walk(nodes_view(nodes@), root as int, nodes@.len() as int);
            &&& slot_view(r.0) == w.body
            &&& slot_view(r.1) == w.head
            &&& slot_view(r.2) == w.beard
            &&& slot_view(r.3) == w.hair
            &&& slot_view(r.4) == w.apparel_body
            &&& slot_view(r.5) == w.apparel_head
        }),
{
    let ghost nv = nodes_view(nodes@);
    let mut seen: Vec<bool> = Vec::new();
    let mut body: Option<Option<String>> = None;
    let mut head: Option<Option<String>> = None;
    let mut beard: Option<Option<String>> = None;
    let mut hair: Option<Option<String>> = None;
    let mut apparel_body: Option<Option<String>> = None;
    let mut apparel_head: Option<Option<String>> = None;
    let mut k: usize = 0;
    while k < nodes.len()
        invariant
            k <= nodes@.len(),
            nv == nodes_view(nodes@),
            seen@.len() == k,
            forall|q: int| 0 <= q < k ==> seen@[q] == reached(nv, root as int, q),
            ({
                let w = walk(nv, root as int, k as int);
                &&& slot_view(body) == w.body
                &&& slot_view(head) == w.head
                &&& slot_view(beard) == w.beard
                &&& slot_view(hair) == w.hair
                &&& slot_view(apparel_body) == w.apparel_body
                &&& slot_view(apparel_head) == w.apparel_head
            }),
        decreases nodes.len() - k,
    {
        proof {
            assert(nv[k as int] == node_view(nodes@[k as int]));
        }
        let here = if k == root {
            true
        } else if !nodes[k].element {
            false
        } else {
            match nodes[k].parent {
                Some(c) => {
                    if c < k && nodes[c].element && str_eq(nodes[c].name.as_str(), "children") {
                        proof {
                            assert(nv[c as int] == node_view(nodes@[c as int]));
                        }
                        match nodes[c].parent {
                            Some(q) => {
                                if q < c && seen[q] {
                                    match child_of(nodes, q, "children") {
                                        Some(first) => first == c,
                                        None => false,
                                    }
                                } else {
                                    false
                                }
                            },
                            None => false,
                        }
                    } else {
                        false
                    }
                },
                None => false,
            }
        };
        proof {
            assert(here == reached(nv, root as int, k as int));
        }
        seen.push(here);
        if here {
            let base = number_text(child_text_of(nodes, k, "baseLayer"));
            let label = child_text_of(nodes, k, "debugLabel");
            let tag = child_text_of(nodes, k, "tagDef");
            if text_is(&label, "Body") {
                body = Some(base.clone());
            } else if text_is(&label, "Head") {
                head = Some(base.clone());
            } else if text_is(&label, "Beard") {
                beard = Some(base.clone());
            } else if text_is(&label, "Hair") {
                hair = Some(base.clone());
            }
            if text_is(&tag, "ApparelBody") {
                apparel_body = Some(base);
            } else if text_is(&tag, "ApparelHead") {
                apparel_head = Some(base);
            }
        }
        k += 1;
    }
    (body, head, beard, hair, apparel_body, apparel_head)
}

/// The humanlike render tree layers in a parsed render tree def file.
pub fn render_tree_layers_in(nodes: &Vec<XmlNode>) -> (r: Result<HumanlikeRenderTreeLayers, String>)
    ensures
        match r {
            Ok(l) => tree_layers(nodes_view(nodes@)) == Ok::<LayersView, Seq<char>>(layers_view(l)),
            Err(e) => tree_layers(nodes_view(nodes@)) == Err::<LayersView, Seq<char>>(e@),
        },
{
    let h = match find_humanlike(nodes) {
        Some(h) => h,
        None => {
            return Err(error_text("Humanlike PawnRenderTreeDef not found"));
        },
    };
    let root = match child_of(nodes, h, "root") {
        Some(r) => r,
        None => {
            return Err(error_text("Humanlike root not found"));
        },
    };
    let (body, head, beard, hair, apparel_body, apparel_head) = walk_from(nodes, root);
    let body_base_layer = match body {
        Some(b) => b,
        None => {
            return Err(error_text("Body base layer missing"));
        },
    };
    let head_base_layer = match head {
        Some(b) => b,
        None => {
            return Err(error_text("Head base layer missing"));
        },
    };
    let beard_base_layer = match beard {
        Some(b) => b,
        None => {
            return Err(error_text("Beard base layer missing"));
        },
    };
    let hair_base_layer = match hair {
        Some(b) => b,
        None => {
            return Err(error_text("Hair base layer missing"));
        },
    };
    let apparel_body_base_layer = match apparel_body {
        Some(b) => b,
        None => {
            return Err(error_text("ApparelBody base layer missing"));
        },
    };
    let apparel_head_base_layer = match apparel_head {
        Some(b) => b,
        None => {
            return Err(error_text("ApparelHead base layer missing"));
        },
    };
    Ok(
        HumanlikeRenderTreeLayers {
            body_base_layer,
            head_base_layer,
            beard_base_layer,
            hair_base_layer,
            apparel_body_base_layer,
            apparel_head_base_layer,
        },
    )
}

/// The humanlike render tree layers in the text of a render tree def file.
pub fn parse_humanlike_render_tree_layers(xml: &str) -> (r: Result<HumanlikeRenderTreeLayers, RenderTreeError>)
    ensures
        match parsed_xml(xml@) {
            None => r matches Err(RenderTreeError::Malformed),
            Some(nodes) => match r {
                Ok(l) => tree_layers(nodes) == Ok::<LayersView, Seq<char>>(layers_view(l)),
                Err(RenderTreeError::Missing(e)) => tree_layers(nodes) == Err::<LayersView, Seq<char>>(e@),
                Err(RenderTreeError::Malformed) => false,
            },
        },
{
    match parse_xml(xml) {
        None => Err(RenderTreeError::Malformed),
        Some(nodes) => match render_tree_layers_in(&nodes) {
            Ok(l) => Ok(l),
            Err(e) => Err(RenderTreeError::Missing(e)),
        },
    }
}

} // verus!
