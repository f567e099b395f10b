//! Reading one kind of def from XML def files: every element with the
//! kind's tag is read; a def that lacks what it needs is skipped; a def read
//! later replaces an earlier one of the same name. Files that are not
//! well-formed XML are skipped.
use vstd::prelude::*;

use super::loaders::{distinct_names, docs_view, lemma_upsert_distinct, named_at, upsert};
use super::xml::{is_tag, node_view, nodes_view, parse_xml, parsed_xml, NodeSeq, XmlNode};

verus! {

/// A def with a name, by which a later def replaces an earlier one.
pub trait NamedDef: View + Sized {
    spec fn name_view(v: Self::V) -> Seq<char>;

    fn name(&self) -> (r: &String)
        ensures
            r@ == Self::name_view(self@),
    ;
}

/// A kind of def that can be read from a node of a parsed document.
pub trait DefReader: NamedDef {
    /// The element tag that holds a def of this kind.
    spec fn tag() -> Seq<char>;

    /// The def at node `i`, when the node holds one.
    spec fn read_spec(nodes: NodeSeq, i: int) -> Option<Self::V>;

    fn tag_str() -> (r: &'static str)
        ensures
            r@ == Self::tag(),
    ;

    fn read(nodes: &Vec<XmlNode>, i: usize) -> (r: Option<Self>)
        requires
            i < nodes@.len(),
        ensures
            match r {
                Some(d) => Self::read_spec(nodes_view(nodes@), i as int) == Some(d@),
                None => Self::read_spec(nodes_view(nodes@), i as int) is None,
            },
    ;
}

pub open spec fn key_fn<T: NamedDef>() -> spec_fn(T::V) -> Seq<char> {
    |v: T::V| T::name_view(v)
}

pub open spec fn def_views<T: View>(s: Seq<T>) -> Seq<T::V> {
    s.map_values(|d: T| d@)
}

/// The defs after reading the first `n` nodes of a document into `list`.
pub open spec fn scan_defs<T: DefReader>(list: Seq<T::V>, nodes: NodeSeq, n: int) -> Seq<T::V>
    decreases n,
{
    if n <= 0 {
        list
    } else {
        let before = scan_defs::<T>(list, nodes, n - 1);
        if is_tag(nodes[n - 1], T::tag()) {
            match T::read_spec(nodes, n - 1) {
                Some(d) => upsert(before, d, key_fn::<T>()),
                None => before,
            }
        } else {
            before
        }
    }
}

/// The defs of the first `k` documents.
pub open spec fn defs_in<T: DefReader>(docs: Seq<Seq<char>>, k: int) -> Seq<T::V>
    decreases k,
{
    if k <= 0 {
        Seq::empty()
    } else {
        let before = defs_in::<T>(docs, k - 1);
        match parsed_xml(docs[k - 1]) {
            Some(nodes) => scan_defs::<T>(before, nodes, nodes.len() as int),
            None => before,
        }
    }
}

pub(crate) proof fn lemma_named_at_generic<V>(list: Seq<V>, name: Seq<char>, key: spec_fn(V) -> Seq<char>, p: int)
    requires
        -1 <= p < list.len(),
        p >= 0 ==> key(list[p]) == name,
        forall|q: int| 0 <= q < list.len() && (p < 0 || q < p) ==> key(#[trigger] list[q]) != name,
    ensures
        named_at(list, name, key) == p,
    decreases list.len(),
{
    if list.len() > 0 {
        let l = list.drop_last();
        if p == list.len() - 1 {
            lemma_named_at_generic(l, name, key, -1);
        } else {
            lemma_named_at_generic(l, name, key, p);
        }
    }
}

pub(crate) fn upsert_def<T: NamedDef>(list: &mut Vec<T>, d: T)
    ensures
        def_views(final(list)@) == upsert(def_views(old(list)@), d@, key_fn::<T>()),
{
    let ghost before = def_views(list@);
    let ghost key = key_fn::<T>();
    let mut p: usize = 0;
    while p < list.len()
        invariant
            p <= list@.len(),
            before == def_views(list@),
            list@ == old(list)@,
            key == key_fn::<T>(),
            forall|q: int| 0 <= q < p ==> T::name_view(#[trigger] list@[q]@) != T::name_view(d@),
        decreases list.len() - p,
    {
        if *list[p].name() == *d.name() {
            proof {
                assert forall|q: int| 0 <= q < before.len() && q < p implies key(#[trigger] before[q]) != T::name_view(d@) by {
                    assert(before[q] == list@[q]@);
                }
                assert(before[p as int] == list@[p as int]@);
                lemma_named_at_generic(before, T::name_view(d@), key, p as int);
            }
            let ghost dv = d@;
            list.set(p, d);
            proof {
                assert(upsert(before, dv, key) == before.update(p as int, dv));
                assert(def_views(list@) =~= before.update(p as int, dv));
            }
            return;
        }
        p += 1;
    }
    proof {
        assert forall|q: int| 0 <= q < before.len() implies key(#[trigger] before[q]) != T::name_view(d@) by {
            assert(before[q] == list@[q]@);
        }
        lemma_named_at_generic(before, T::name_view(d@), key, -1);
    }
    let ghost dv = d@;
    list.push(d);
    proof {
        assert(def_views(list@) =~= before.push(dv));
    }
}

fn is_element_named(n: &XmlNode, tag: &str) -> (r: bool)
    ensures
        r == is_tag(node_view(*n), tag@),
{
    n.element && crate::text::str_eq(n.name.as_str(), tag)
}

/// Reads the defs of kind `T` from the nodes of one parsed document into
/// `out`: each element with the kind's tag that holds a def replaces the
/// def of its name in `out`, or is appended.
pub fn scan_nodes<T: DefReader>(out: &mut Vec<T>, nodes: &Vec<XmlNode>)
    ensures
        def_views(final(out)@) == scan_defs::<T>(def_views(old(out)@), nodes_view(nodes@), nodes@.len() as int),
{
    let tag = T::tag_str();
    let ghost start = def_views(out@);
    let ghost nv = nodes_view(nodes@);
    let mut i: usize = 0;
    while i < nodes.len()
        invariant
            i <= nodes@.len(),
            nv == nodes_view(nodes@),
            tag@ == T::tag(),
            start == def_views(old(out)@),
            def_views(out@) == scan_defs::<T>(start, nv, i as int),
        decreases nodes.len() - i,
    {
        proof {
            assert(nv[i as int] == node_view(nodes@[i as int]));
        }
        if is_element_named(&nodes[i], tag) {
            match T::read(nodes, i) {
                Some(d) => upsert_def(out, d),
                None => {},
            }
        }
        i += 1;
    }
}

/// The defs of kind `T` in the given XML def files, in the order their
/// names were first read.
pub fn load_defs<T: DefReader>(documents: &[String]) -> (r: Vec<T>)
    ensures
        def_views(r@) == defs_in::<T>(docs_view(documents@), documents@.len() as int),
{
    let mut out: Vec<T> = Vec::new();
    let mut k: usize = 0;
    while k < documents.len()
        invariant
            k <= documents@.len(),
            def_views(out@) == defs_in::<T>(docs_view(documents@), k as int),
        decreases documents.len() - k,
    {
        proof {
            assert(docs_view(documents@)[k as int] == documents@[k as int]@);
        }
        match parse_xml(documents[k].as_str()) {
            None => {},
            Some(nodes) => scan_nodes(&mut out, &nodes),
        }
        k += 1;
    }
    out
}

proof fn lemma_scan_defs_distinct<T: DefReader>(list: Seq<T::V>, nodes: NodeSeq, n: int)
    requires
        distinct_names(list, key_fn::<T>()),
    ensures
        distinct_names(scan_defs::<T>(list, nodes, n), key_fn::<T>()),
    decreases n,
{
    if n > 0 {
        lemma_scan_defs_distinct::<T>(list, nodes, n - 1);
        let before = scan_defs::<T>(list, nodes, n - 1);
        if is_tag(nodes[n - 1], T::tag()) {
            match T::read_spec(nodes, n - 1) {
                Some(d) => lemma_upsert_distinct(before, d, key_fn::<T>()),
                None => {},
            }
        }
    }
}

/// Defs of one kind read from any files have distinct names: a def read
/// later replaces the earlier one of its name.
pub proof fn lemma_defs_distinct<T: DefReader>(docs: Seq<Seq<char>>, k: int)
    ensures
        distinct_names(defs_in::<T>(docs, k), key_fn::<T>()),
    decreases k,
{
    if k > 0 {
        lemma_defs_distinct::<T>(docs, k - 1);
        match parsed_xml(docs[k - 1]) {
            Some(nodes) => lemma_scan_defs_distinct::<T>(defs_in::<T>(docs, k - 1), nodes, nodes.len() as int),
            None => {},
        }
    }
}

} // verus!
