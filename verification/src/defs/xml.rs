//! XML documents as a list of nodes in document order, parsed by
//! `roxmltree`, and the lookups the def readers make on them.
use vstd::prelude::*;

use crate::text::{chars_of, string_of, trim, trim_chars};

verus! {

/// One node of a parsed document: whether it is an element, its local tag
/// name (empty for other nodes), the index of its parent node, its text as
/// `roxmltree` gives it (for an element, the text of a leading text child),
/// and its attributes as (local name, value) pairs in document order.
#[derive(Debug, Clone)]
pub struct XmlNode {
    pub element: bool,
    pub name: String,
    pub parent: Option<usize>,
    pub text: Option<String>,
    pub attributes: Vec<(String, String)>,
}

pub type NodeView = (bool, Seq<char>, Option<usize>, Option<Seq<char>>, Seq<(Seq<char>, Seq<char>)>);

pub type NodeSeq = Seq<NodeView>;

pub open spec fn attrs_view(a: Seq<(String, String)>) -> Seq<(Seq<char>, Seq<char>)> {
    a.map_values(|p: (String, String)| (p.0@, p.1@))
}

pub open spec fn opt_view(s: Option<String>) -> Option<Seq<char>> {
    match s {
        Some(t) => Some(t@),
        None => None,
    }
}

pub open spec fn node_view(n: XmlNode) -> NodeView {
    (n.element, n.name@, n.parent, opt_view(n.text), attrs_view(n.attributes@))
}

pub open spec fn nodes_view(v: Seq<XmlNode>) -> NodeSeq {
    v.map_values(|n: XmlNode| node_view(n))
}

/// The nodes `roxmltree` finds in `text`, in document order, or none when
/// the text is not well-formed XML.
pub uninterp spec fn parsed_xml(text: Seq<char>) -> Option<NodeSeq>;

/// Parses `text` with `roxmltree::Document::parse` and lists the document's
/// nodes (`Document::descendants`, the root node first) with each node's
/// `is_element`, `tag_name().name()`, parent's `NodeId` as an index,
/// `text`, and `attributes()` as `name()` and `value()` pairs. The contract only names the result: which nodes a document
/// yields is `roxmltree`'s to decide. A node's parent id is its index in
/// this list, as `roxmltree` numbers nodes in document order.
#[verifier::external_body]
pub(crate) fn parse_xml(text: &str) -> (r: Option<Vec<XmlNode>>)
    ensures
        match r {
            Some(v) => parsed_xml(text@) == Some(nodes_view(v@)),
            None => parsed_xml(text@) is None,
        },
{
    let doc = match roxmltree::Document::parse(text) {
        Ok(doc) => doc,
        Err(_) => return None,
    };
    let mut out = Vec::new();
    for n in doc.descendants() {
        let parent = n.parent().map(|p| p.id().get_usize());
        let text = n.text().map(str::to_string);
        let attributes = n.attributes().map(|a| (a.name().to_string(), a.value().to_string())).collect();
        out.push(XmlNode { element: n.is_element(), name: n.tag_name().name().to_string(), parent, text, attributes });
    }
    Some(out)
}

/// An element named `tag`.
pub open spec fn is_tag(n: NodeView, tag: Seq<char>) -> bool {
    n.0 && n.1 == tag
}

/// The first child of node `i`, from index `j` on, that is an element
/// named `tag`.
pub open spec fn child_from(
    nodes: NodeSeq,
    i: int,
    tag: Seq<char>,
    j: int,
) -> Option<int>
    decreases nodes.len() - j,
{
    if j < 0 || j >= nodes.len() {
        None
    } else if nodes[j].2 == Some(i as usize) && is_tag(nodes[j], tag) {
        Some(j)
    } else {
        child_from(nodes, i, tag, j + 1)
    }
}

/// The trimmed text of node `i`'s first child element named `tag`; none
/// when there is no such child or it has no text.
pub open spec fn child_text(nodes: NodeSeq, i: int, tag: Seq<char>) -> Option<Seq<char>> {
    match child_from(nodes, i, tag, 0) {
        Some(j) => match nodes[j].3 {
            Some(t) => Some(trim(t)),
            None => None,
        },
        None => None,
    }
}

/// The trimmed text of node `i`'s first child element named `tag`.
pub fn child_text_of(nodes: &Vec<XmlNode>, i: usize, tag: &str) -> (r: Option<String>)
    ensures
        opt_view(r) == child_text(nodes_view(nodes@), i as int, tag@),
{
    let ghost nv = nodes_view(nodes@);
    let tag_chars = chars_of(tag);
    let mut j: usize = 0;
    while j < nodes.len()
        invariant
            j <= nodes@.len(),
            nv == nodes_view(nodes@),
            tag_chars@ == tag@,
            child_from(nv, i as int, tag@, 0) == child_from(nv, i as int, tag@, j as int),
        decreases nodes.len() - j,
    {
        let n = &nodes[j];
        let hit = match n.parent {
            Some(p) => p == i && n.element && string_eq_chars(&n.name, tag_chars.as_slice()),
            None => false,
        };
        proof {
            assert(nv[j as int] == node_view(nodes@[j as int]));
        }
        if hit {
            return match &n.text {
                Some(t) => {
                    let c = chars_of(t.as_str());
                    let tc = trim_chars(c.as_slice());
                    Some(string_of(tc.as_slice()))
                },
                None => None,
            };
        }
        j += 1;
    }
    None
}

fn string_eq_chars(s: &String, c: &[char]) -> (r: bool)
    ensures
        r == (s@ == c@),
{
    let sc = chars_of(s.as_str());
    crate::text::chars_eq(sc.as_slice(), c)
}


/// The value of the first attribute of node `i` named `key`.
pub open spec fn attribute_from(attrs: Seq<(Seq<char>, Seq<char>)>, key: Seq<char>, j: int) -> Option<Seq<char>>
    decreases attrs.len() - j,
{
    if j < 0 || j >= attrs.len() {
        None
    } else if attrs[j].0 == key {
        Some(attrs[j].1)
    } else {
        attribute_from(attrs, key, j + 1)
    }
}

pub open spec fn attribute(nodes: NodeSeq, i: int, key: Seq<char>) -> Option<Seq<char>> {
    attribute_from(nodes[i].4, key, 0)
}

/// The value of node `i`'s first attribute named `key`.
pub fn attribute_of(nodes: &Vec<XmlNode>, i: usize, key: &str) -> (r: Option<String>)
    requires
        i < nodes@.len(),
    ensures
        opt_view(r) == attribute(nodes_view(nodes@), i as int, key@),
{
    let attrs = &nodes[i].attributes;
    let ghost av = attrs_view(attrs@);
    proof {
        assert(nodes_view(nodes@)[i as int].4 == av);
    }
    let key_chars = chars_of(key);
    let mut j: usize = 0;
    while j < attrs.len()
        invariant
            j <= attrs@.len(),
            av == attrs_view(attrs@),
            nodes_view(nodes@)[i as int].4 == av,
            key_chars@ == key@,
            attribute_from(av, key@, 0) == attribute_from(av, key@, j as int),
        decreases attrs.len() - j,
    {
        proof {
            assert(av[j as int] == (attrs@[j as int].0@, attrs@[j as int].1@));
        }
        if string_eq_chars(&attrs[j].0, key_chars.as_slice()) {
            let v = attrs[j].1.clone();
            proof {
                assert(v@ == av[j as int].1);
                assert(attribute_from(av, key@, j as int) == Some(av[j as int].1));
            }
            return Some(v);
        }
        j += 1;
    }
    None
}

/// The index of node `i`'s first child element named `tag`.
pub fn child_of(nodes: &Vec<XmlNode>, i: usize, tag: &str) -> (r: Option<usize>)
    ensures
        match r {
            Some(j) => child_from(nodes_view(nodes@), i as int, tag@, 0) == Some(j as int) && j < nodes@.len(),
            None => child_from(nodes_view(nodes@), i as int, tag@, 0) is None,
        },
{
    let ghost nv = nodes_view(nodes@);
    let tag_chars = chars_of(tag);
    let mut j: usize = 0;
    while j < nodes.len()
        invariant
            j <= nodes@.len(),
            nv == nodes_view(nodes@),
            tag_chars@ == tag@,
            child_from(nv, i as int, tag@, 0) == child_from(nv, i as int, tag@, j as int),
        decreases nodes.len() - j,
    {
        let n = &nodes[j];
        let hit = match n.parent {
            Some(p) => p == i && n.element && string_eq_chars(&n.name, tag_chars.as_slice()),
            None => false,
        };
        proof {
            assert(nv[j as int] == node_view(nodes@[j as int]));
        }
        if hit {
            return Some(j);
        }
        j += 1;
    }
    None
}

} // verus!
