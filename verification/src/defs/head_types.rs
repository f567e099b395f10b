//! Head type defs, with inheritance: a def names its parent with the
//! `ParentName` attribute, and takes from it every field it leaves out.
//! Abstract parents are known by their `Name` attribute. A def whose parent
//! chain loops back on itself stops at the def where the loop closes.
use vstd::prelude::*;

use super::apparel::{bool_named, parse_bool};
use super::loaders::{distinct_names, docs_view, lemma_upsert_distinct, named_at, upsert};
use super::numbers::{float_text, inline_vector_of, is_float_text, strings_view};
use super::reader::{def_views, defs_in, key_fn, load_defs, upsert_def, DefReader, NamedDef};
use super::render_defs::{number_or_none, opt_numbers_view, vector_in, Numbers};
use super::xml::{attribute, attribute_of, child_text, child_text_of, nodes_view, opt_view, NodeSeq, XmlNode};

verus! {

/// A head type def as written: the key it is known by (its `defName`, else
/// its `Name` attribute), its parent's key, and each field it sets.
#[derive(Debug, Clone)]
pub struct RawHeadType {
    pub key: String,
    pub parent_name: Option<String>,
    pub def_name: Option<String>,
    pub graphic_path: Option<String>,
    pub narrow: Option<bool>,
    pub beard_offset: Option<Vec<String>>,
    pub beard_offset_x_east: Option<String>,
}

/// A head type with what it inherits filled in: its graphic (empty when no
/// def in its chain gives one), whether it is narrow, and its beard offset
/// (three numbers; none for zero) and eastward beard shift (none for zero).
#[derive(Debug, Clone)]
pub struct HeadTypeDefRender {
    pub def_name: String,
    pub graphic_path: String,
    pub narrow: bool,
    pub beard_offset: Option<Vec<String>>,
    pub beard_offset_x_east: Option<String>,
}

pub type RawView = (
    Seq<char>,
    Option<Seq<char>>,
    Option<Seq<char>>,
    Option<Seq<char>>,
    Option<bool>,
    Option<Numbers>,
    Option<Seq<char>>,
);

pub type HeadView = (Seq<char>, Seq<char>, bool, Option<Numbers>, Option<Seq<char>>);

impl View for RawHeadType {
    type V = RawView;

    open spec fn view(&self) -> RawView {
        (
            self.key@,
            opt_view(self.parent_name),
            opt_view(self.def_name),
            opt_view(self.graphic_path),
            self.narrow,
            opt_numbers_view(self.beard_offset),
            opt_view(self.beard_offset_x_east),
        )
    }
}

impl View for HeadTypeDefRender {
    type V = HeadView;

    open spec fn view(&self) -> HeadView {
        (
            self.def_name@,
            self.graphic_path@,
            self.narrow,
            opt_numbers_view(self.beard_offset),
            opt_view(self.beard_offset_x_east),
        )
    }
}

pub open spec fn or_else<T>(a: Option<T>, b: Option<T>) -> Option<T> {
    match a {
        Some(x) => Some(x),
        None => b,
    }
}

/// The head type def as written at node `i`; one with neither a `defName`
/// nor a `Name` is skipped. A `narrow` that does not read true is false.
pub open spec fn raw_head_at(nodes: NodeSeq, i: int) -> Option<RawView> {
    let def_name = child_text(nodes, i, "defName"@);
    match or_else(def_name, attribute(nodes, i, "Name"@)) {
        None => None,
        Some(key) => Some(
            (
                key,
                attribute(nodes, i, "ParentName"@),
                def_name,
                child_text(nodes, i, "graphicPath"@),
                match child_text(nodes, i, "narrow"@) {
                    Some(t) => Some(bool_named(t) == Some(true)),
                    None => None,
                },
                vector_in(child_text(nodes, i, "beardOffset"@), 3),
                number_or_none(child_text(nodes, i, "beardOffsetXEast"@)),
            ),
        ),
    }
}

impl NamedDef for RawHeadType {
    open spec fn name_view(v: RawView) -> Seq<char> {
        v.0
    }

    fn name(&self) -> (r: &String) {
        &self.key
    }
}

impl NamedDef for HeadTypeDefRender {
    open spec fn name_view(v: HeadView) -> Seq<char> {
        v.0
    }

    fn name(&self) -> (r: &String) {
        &self.def_name
    }
}

impl DefReader for RawHeadType {
    open spec fn tag() -> Seq<char> {
        "HeadTypeDef"@
    }

    open spec fn read_spec(nodes: NodeSeq, i: int) -> Option<RawView> {
        raw_head_at(nodes, i)
    }

    fn tag_str() -> (r: &'static str) {
        "HeadTypeDef"
    }

    fn read(nodes: &Vec<XmlNode>, i: usize) -> (r: Option<RawHeadType>) {
        let def_name = child_text_of(nodes, i, "defName");
        let key = match &def_name {
            Some(d) => d.clone(),
            None => match attribute_of(nodes, i, "Name") {
                Some(n) => n,
                None => {
                    return None;
                },
            },
        };
        let narrow = match child_text_of(nodes, i, "narrow") {
            Some(t) => Some(
                match parse_bool(t.as_str()) {
                    Some(b) => b,
                    None => false,
                },
            ),
            None => None,
        };
        let beard_offset = match child_text_of(nodes, i, "beardOffset") {
            Some(t) => inline_vector_of(t.as_str(), 3),
            None => None,
        };
        let beard_offset_x_east = match child_text_of(nodes, i, "beardOffsetXEast") {
            Some(t) => if is_float_text(t.as_str()) {
                Some(t)
            } else {
                None
            },
            None => None,
        };
        Some(
            RawHeadType {
                key,
                parent_name: attribute_of(nodes, i, "ParentName"),
                def_name,
                graphic_path: child_text_of(nodes, i, "graphicPath"),
                narrow,
                beard_offset,
                beard_offset_x_east,
            },
        )
    }
}

/// How many defs have a key that is not on `stack`.
pub open spec fn open_count(all: Seq<RawView>, stack: Seq<Seq<char>>) -> nat
    decreases all.len(),
{
    if all.len() == 0 {
        0
    } else {
        open_count(all.drop_last(), stack) + if stack.contains(all.last().0) {
            0nat
        } else {
            1nat
        }
    }
}

pub proof fn lemma_open_count_push(all: Seq<RawView>, stack: Seq<Seq<char>>, name: Seq<char>)
    ensures
        open_count(all, stack.push(name)) <= open_count(all, stack),
        named_at(all, name, key_fn::<RawHeadType>()) >= 0 && !stack.contains(name) ==> open_count(all, stack.push(name))
            < open_count(all, stack),
    decreases all.len(),
{
    if all.len() > 0 {
        let l = all.drop_last();
        lemma_open_count_push(l, stack, name);
        let k = all.last().0;
        if stack.contains(k) {
            let j = choose|j: int| 0 <= j < stack.len() && stack[j] == k;
            assert(stack.push(name)[j] == k);
        }
        if k == name {
            assert(stack.push(name)[stack.len() as int] == name);
        }
        if !stack.contains(k) && k != name {
            if stack.push(name).contains(k) {
                let j = choose|j: int| 0 <= j < stack.push(name).len() && stack.push(name)[j] == k;
                assert(j < stack.len());
                assert(stack[j] == k);
            }
        }
    }
}

/// The fields of the def `raw` known as `name`, with what it leaves out
/// taken from its resolved parent.
pub open spec fn merged(raw: RawView, name: Seq<char>, parent: Option<HeadView>) -> HeadView {
    (
        match raw.2 {
            Some(d) => d,
            None => name,
        },
        match raw.3 {
            Some(g) => g,
            None => match parent {
                Some(p) => p.1,
                None => Seq::empty(),
            },
        },
        match raw.4 {
            Some(n) => n,
            None => match parent {
                Some(p) => p.2,
                None => false,
            },
        },
        match raw.5 {
            Some(o) => Some(o),
            None => match parent {
                Some(p) => p.3,
                None => None,
            },
        },
        match raw.6 {
            Some(x) => Some(x),
            None => match parent {
                Some(p) => p.4,
                None => None,
            },
        },
    )
}

/// Resolves the def known as `name`, with the defs already resolved in
/// `cache` (by position in `all`) and the keys being resolved on `stack`:
/// a cached def is reused; a key on the stack, or unknown, resolves to
/// nothing; else the def is merged with its resolved parent and cached.
pub open spec fn resolve(all: Seq<RawView>, name: Seq<char>, cache: Seq<Option<HeadView>>, stack: Seq<Seq<char>>) -> (
    Option<HeadView>,
    Seq<Option<HeadView>>,
)
    decreases open_count(all, stack),
{
    let p = named_at(all, name, key_fn::<RawHeadType>());
    if p < 0 || p >= cache.len() {
        (None, cache)
    } else if cache[p] is Some {
        (cache[p], cache)
    } else if stack.contains(name) {
        (None, cache)
    } else {
        let raw = all[p];
        let (parent, after) = match raw.1 {
            Some(pn) => {
                proof {
                    lemma_open_count_push(all, stack, name);
                }
                resolve(all, pn, cache, stack.push(name))
            },
            None => (None, cache),
        };
        let h = merged(raw, name, parent);
        (Some(h), if p < after.len() { after.update(p, Some(h)) } else { after })
    }
}

/// A resolved def is kept when it has a name and a graphic.
pub open spec fn kept(h: HeadView) -> bool {
    h.0.len() > 0 && h.1.len() > 0
}

/// The defs resolved from the first `j` keys, in turn, and the cache after.
pub open spec fn resolved_prefix(all: Seq<RawView>, j: int) -> (Seq<HeadView>, Seq<Option<HeadView>>)
    decreases j,
{
    if j <= 0 {
        (Seq::empty(), Seq::new(all.len(), |k: int| None::<HeadView>))
    } else {
        let (out, cache) = resolved_prefix(all, j - 1);
        let (res, after) = resolve(all, all[j - 1].0, cache, Seq::empty());
        (
            match res {
                Some(h) => if kept(h) {
                    upsert(out, h, key_fn::<HeadTypeDefRender>())
                } else {
                    out
                },
                None => out,
            },
            after,
        )
    }
}

pub open spec fn cache_view(c: Seq<Option<HeadTypeDefRender>>) -> Seq<Option<HeadView>> {
    c.map_values(
        |o: Option<HeadTypeDefRender>|
            match o {
                Some(h) => Some(h@),
                None => None,
            },
    )
}

pub open spec fn opt_head_view(o: Option<HeadTypeDefRender>) -> Option<HeadView> {
    match o {
        Some(h) => Some(h@),
        None => None,
    }
}

fn find_key(all: &Vec<RawHeadType>, name: &String) -> (r: Option<usize>)
    ensures
        match r {
            Some(p) => named_at(def_views(all@), name@, key_fn::<RawHeadType>()) == p && p < all@.len(),
            None => named_at(def_views(all@), name@, key_fn::<RawHeadType>()) < 0,
        },
{
    let ghost av = def_views(all@);
    let mut p: usize = 0;
    while p < all.len()
        invariant
            p <= all@.len(),
            av == def_views(all@),
            forall|q: int| 0 <= q < p ==> (#[trigger] av[q]).0 != name@,
        decreases all.len() - p,
    {
        if all[p].key == *name {
            proof {
                assert(av[p as int].0 == name@);
                super::reader::lemma_named_at_generic(av, name@, key_fn::<RawHeadType>(), p as int);
            }
            return Some(p);
        }
        proof {
            assert(av[p as int].0 == all@[p as int].key@);
        }
        p += 1;
    }
    proof {
        super::reader::lemma_named_at_generic(av, name@, key_fn::<RawHeadType>(), -1);
    }
    None
}

fn on_stack(stack: &Vec<String>, name: &String) -> (r: bool)
    ensures
        r == strings_view(stack@).contains(name@),
{
    let ghost sv = strings_view(stack@);
    let mut i: usize = 0;
    while i < stack.len()
        invariant
            i <= stack@.len(),
            sv == strings_view(stack@),
            forall|q: int| 0 <= q < i ==> sv[q] != name@,
        decreases stack.len() - i,
    {
        if stack[i] == *name {
            proof {
                assert(sv[i as int] == name@);
            }
            return true;
        }
        proof {
            assert(sv[i as int] == stack@[i as int]@);
        }
        i += 1;
    }
    false
}

fn merge_exec(raw: &RawHeadType, name: &String, parent: &Option<HeadTypeDefRender>) -> (r: HeadTypeDefRender)
    ensures
        r@ == merged(raw@, name@, opt_head_view(*parent)),
{
    let def_name = match &raw.def_name {
        Some(d) => d.clone(),
        None => name.clone(),
    };
    let graphic_path = match &raw.graphic_path {
        Some(g) => g.clone(),
        None => match parent {
            Some(p) => p.graphic_path.clone(),
            None => String::new(),
        },
    };
    let narrow = match raw.narrow {
        Some(n) => n,
        None => match parent {
            Some(p) => p.narrow,
            None => false,
        },
    };
    let beard_offset = match &raw.beard_offset {
        Some(o) => Some(o.clone()),
        None => match parent {
            Some(p) => p.beard_offset.clone(),
            None => None,
        },
    };
    let beard_offset_x_east = match &raw.beard_offset_x_east {
        Some(x) => Some(x.clone()),
        None => match parent {
            Some(p) => p.beard_offset_x_east.clone(),
            None => None,
        },
    };
    HeadTypeDefRender { def_name, graphic_path, narrow, beard_offset, beard_offset_x_east }
}

fn copy_head(h: &HeadTypeDefRender) -> (r: HeadTypeDefRender)
    ensures
        r@ == h@,
{
    HeadTypeDefRender {
        def_name: h.def_name.clone(),
        graphic_path: h.graphic_path.clone(),
        narrow: h.narrow,
        beard_offset: h.beard_offset.clone(),
        beard_offset_x_east: h.beard_offset_x_east.clone(),
    }
}

fn resolve_exec(
    all: &Vec<RawHeadType>,
    name: &String,
    cache: &mut Vec<Option<HeadTypeDefRender>>,
    stack: &mut Vec<String>,
) -> (r: Option<HeadTypeDefRender>)
    requires
        old(cache)@.len() == all@.len(),
    ensures
        final(cache)@.len() == all@.len(),
        strings_view(final(stack)@) == strings_view(old(stack)@),
        (opt_head_view(r), cache_view(final(cache)@)) == resolve(
            def_views(all@),
            name@,
            cache_view(old(cache)@),
            strings_view(old(stack)@),
        ),
    decreases open_count(def_views(all@), strings_view(old(stack)@)),
{
    let ghost av = def_views(all@);
    let ghost cv = cache_view(cache@);
    let ghost sv = strings_view(stack@);
    let p = match find_key(all, name) {
        None => {
            return None;
        },
        Some(p) => p,
    };
    proof {
        assert(cv[p as int] == opt_head_view(cache@[p as int]));
    }
    if let Some(h) = &cache[p] {
        return Some(copy_head(h));
    }
    if on_stack(stack, name) {
        return None;
    }
    proof {
        assert(av[p as int] == all@[p as int]@);
    }
    let parent = match &all[p].parent_name {
        Some(pn) => {
            proof {
                lemma_open_count_push(av, sv, name@);
            }
            stack.push(name.clone());
            proof {
                assert(strings_view(stack@) =~= sv.push(name@));
            }
            let res = resolve_exec(all, pn, cache, stack);
            let ghost before_pop = stack@;
            stack.pop();
            proof {
                assert(strings_view(stack@) =~= sv) by {
                    assert(strings_view(before_pop) == sv.push(name@));
                    assert forall|q: int| 0 <= q < stack@.len() implies #[trigger] strings_view(stack@)[q] == sv[q] by {
                        assert(stack@[q] == before_pop[q]);
                        assert(strings_view(before_pop)[q] == sv.push(name@)[q]);
                    }
                }
            }
            res
        },
        None => None,
    };
    let h = merge_exec(&all[p], name, &parent);
    let ghost after = cache_view(cache@);
    cache.set(p, Some(copy_head(&h)));
    proof {
        assert(cache_view(cache@) =~= after.update(p as int, Some(h@)));
    }
    Some(h)
}

/// The head types of `raw` with their inheritance resolved, each def in
/// turn, keeping those with a name and a graphic.
pub fn resolve_head_types(raw: &Vec<RawHeadType>) -> (r: Vec<HeadTypeDefRender>)
    ensures
        def_views(r@) == resolved_prefix(def_views(raw@), raw@.len() as int).0,
{
    let ghost av = def_views(raw@);
    let mut cache: Vec<Option<HeadTypeDefRender>> = Vec::new();
    let mut c: usize = 0;
    while c < raw.len()
        invariant
            c <= raw@.len(),
            cache@.len() == c,
            forall|q: int| 0 <= q < c ==> cache@[q] is None,
        decreases raw.len() - c,
    {
        cache.push(None);
        c += 1;
    }
    proof {
        assert(cache_view(cache@) =~= Seq::new(av.len(), |k: int| None::<HeadView>));
    }
    let mut out: Vec<HeadTypeDefRender> = Vec::new();
    let mut j: usize = 0;
    while j < raw.len()
        invariant
            j <= raw@.len(),
            av == def_views(raw@),
            cache@.len() == raw@.len(),
            (def_views(out@), cache_view(cache@)) == resolved_prefix(av, j as int),
        decreases raw.len() - j,
    {
        let mut stack: Vec<String> = Vec::new();
        proof {
            assert(strings_view(stack@) =~= Seq::<Seq<char>>::empty());
            assert(av[j as int].0 == raw@[j as int].key@);
        }
        let res = resolve_exec(raw, &raw[j].key, &mut cache, &mut stack);
        match res {
            Some(h) => {
                if crate::text::chars_of(h.def_name.as_str()).len() > 0 && crate::text::chars_of(h.graphic_path.as_str()).len() > 0 {
                    upsert_def(&mut out, h);
                }
            },
            None => {},
        }
        j += 1;
    }
    out
}

/// The head type defs in the given XML def files, with inheritance
/// resolved.
pub fn load_head_type_defs(documents: &[String]) -> (r: Vec<HeadTypeDefRender>)
    ensures
        def_views(r@) == resolved_prefix(
            defs_in::<RawHeadType>(docs_view(documents@), documents@.len() as int),
            defs_in::<RawHeadType>(docs_view(documents@), documents@.len() as int).len() as int,
        ).0,
{
    let raw = load_defs::<RawHeadType>(documents);
    resolve_head_types(&raw)
}


/// Resolved head types have distinct names, whatever the defs read.
pub proof fn lemma_head_types_distinct(all: Seq<RawView>, j: int)
    ensures
        distinct_names(resolved_prefix(all, j).0, key_fn::<HeadTypeDefRender>()),
    decreases j,
{
    if j > 0 {
        lemma_head_types_distinct(all, j - 1);
        let (out, cache) = resolved_prefix(all, j - 1);
        let (res, after) = resolve(all, all[j - 1].0, cache, Seq::empty());
        match res {
            Some(h) => if kept(h) {
                lemma_upsert_distinct(out, h, key_fn::<HeadTypeDefRender>());
            },
            None => {},
        }
    }
}

/// A def's own fields win over its parent's: each field of the merged head
/// type is the def's own value where it gives one, the parent's where it
/// gives none, and else the default (no graphic, not narrow, no beard
/// offsets); its name is the def's `defName`, else the key it is known by.
pub proof fn lemma_child_fields_override(raw: RawView, name: Seq<char>, parent: Option<HeadView>)
    ensures
        raw.2 is Some ==> merged(raw, name, parent).0 == raw.2->0,
        raw.2 is None ==> merged(raw, name, parent).0 == name,
        raw.3 is Some ==> merged(raw, name, parent).1 == raw.3->0,
        raw.3 is None && parent is Some ==> merged(raw, name, parent).1 == parent.unwrap().1,
        raw.3 is None && parent is None ==> merged(raw, name, parent).1 == Seq::<char>::empty(),
        raw.4 is Some ==> merged(raw, name, parent).2 == raw.4->0,
        raw.4 is None && parent is Some ==> merged(raw, name, parent).2 == parent.unwrap().2,
        raw.4 is None && parent is None ==> !merged(raw, name, parent).2,
        raw.5 is Some ==> merged(raw, name, parent).3 == raw.5,
        raw.5 is None && parent is Some ==> merged(raw, name, parent).3 == parent.unwrap().3,
        raw.5 is None && parent is None ==> merged(raw, name, parent).3 is None,
        raw.6 is Some ==> merged(raw, name, parent).4 == raw.6,
        raw.6 is None && parent is Some ==> merged(raw, name, parent).4 == parent.unwrap().4,
        raw.6 is None && parent is None ==> merged(raw, name, parent).4 is None,
{
}

/// The parent that a def freshly resolved at position `p` inherits from:
/// its `ParentName` resolved with the def's own key on the stack, or none.
pub open spec fn fresh_parent(all: Seq<RawView>, name: Seq<char>, cache: Seq<Option<HeadView>>, stack: Seq<Seq<char>>, p: int) -> Option<HeadView> {
    match all[p].1 {
        Some(pn) => resolve(all, pn, cache, stack.push(name)).0,
        None => None,
    }
}

/// Resolving a def that is neither cached nor being resolved gives a head
/// type, and every field the def sets itself (beard offset, graphic,
/// narrow, eastward shift, name) is the def's own value; a field the def
/// leaves out is its resolved parent's.
pub proof fn lemma_resolved_own_fields(
    all: Seq<RawView>,
    name: Seq<char>,
    cache: Seq<Option<HeadView>>,
    stack: Seq<Seq<char>>,
)
    requires
        0 <= named_at(all, name, key_fn::<RawHeadType>()) < cache.len(),
        cache[named_at(all, name, key_fn::<RawHeadType>())] is None,
        !stack.contains(name),
    ensures
        ({
            let p = named_at(all, name, key_fn::<RawHeadType>());
            let raw = all[p];
            let r = resolve(all, name, cache, stack).0;
            let par = fresh_parent(all, name, cache, stack, p);
            &&& r is Some
            &&& raw.5 is Some ==> r.unwrap().3 == raw.5
            &&& raw.5 is None ==> r.unwrap().3 == (match par {
                Some(q) => q.3,
                None => None,
            })
            &&& raw.3 is Some ==> r.unwrap().1 == raw.3->0
            &&& raw.4 is Some ==> r.unwrap().2 == raw.4->0
            &&& raw.6 is Some ==> r.unwrap().4 == raw.6
            &&& raw.2 is Some ==> r.unwrap().0 == raw.2->0
            &&& raw.2 is None ==> r.unwrap().0 == name
        }),
{
    let p = named_at(all, name, key_fn::<RawHeadType>());
    lemma_child_fields_override(all[p], name, fresh_parent(all, name, cache, stack, p));
}

} // verus!
