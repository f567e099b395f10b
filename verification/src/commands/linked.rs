//! Decisions for linked things (walls, fences): which atlas texture they
//! draw, how their links are drawn, and which neighbours they link to.
use vstd::prelude::*;

use crate::defs::GraphicKind;
use crate::linking::{slot_links, LinkDrawerType, LinkFlag, LinkFlags};
use crate::text::{after_last, after_last_chars, chars_of, concat_str, contains, contains_chars, string_of};

verus! {

/// The link atlas of a linked thing: its own path when the texture's name
/// holds `_Atlas`; for a graphic with appearances, the `_Atlas_Bricks`
/// texture in the folder of that name; else its own path.
pub open spec fn atlas_path(tex_path: Seq<char>, kind: GraphicKind) -> Seq<char> {
    let base = after_last(tex_path, '/');
    if contains(base, "_Atlas"@) {
        tex_path
    } else if kind is Appearances {
        tex_path + "/"@ + base + "_Atlas_Bricks"@
    } else {
        tex_path
    }
}

pub fn linked_atlas_path(tex_path: &str, kind: GraphicKind) -> (r: String)
    ensures
        r@ == atlas_path(tex_path@, kind),
{
    let path = chars_of(tex_path);
    let base = after_last_chars(path.as_slice(), '/');
    if contains_chars(base.as_slice(), chars_of("_Atlas").as_slice()) {
        return string_of(path.as_slice());
    }
    match kind {
        GraphicKind::Appearances => {
            let a = concat_str(path.as_slice(), "/");
            let b = crate::text::append_chars(chars_of(a.as_str()).as_slice(), base.as_slice());
            let r = concat_str(b.as_slice(), "_Atlas_Bricks");
            proof {
                assert(r@ =~= tex_path@ + "/"@ + after_last(tex_path@, '/') + "_Atlas_Bricks"@);
            }
            r
        },
        _ => string_of(path.as_slice()),
    }
}

/// How a link type is drawn: corner fillers as such, everything else as
/// basic links.
pub fn effective_link_type(link_type: LinkDrawerType) -> (r: LinkDrawerType)
    ensures
        r == (if link_type is CornerFiller { LinkDrawerType::CornerFiller } else { LinkDrawerType::Basic }),
{
    match link_type {
        LinkDrawerType::CornerFiller => LinkDrawerType::CornerFiller,
        _ => LinkDrawerType::Basic,
    }
}

/// The union of the first `n` flag sets.
pub open spec fn union_bits(flags: Seq<LinkFlags>, n: int) -> u32
    decreases n,
{
    if n <= 0 {
        0
    } else {
        union_bits(flags, n - 1) | flags[n - 1].bits()
    }
}

/// The link flags of a cell: the union of those of the things on it.
pub fn merged_link_flags(flags: &[LinkFlags]) -> (r: LinkFlags)
    ensures
        r.bits() == union_bits(flags@, flags@.len() as int),
{
    let mut merged = LinkFlags::empty();
    let mut i: usize = 0;
    while i < flags.len()
        invariant
            i <= flags@.len(),
            merged.bits() == union_bits(flags@, i as int),
        decreases flags.len() - i,
    {
        merged = merged.union(flags[i]);
        i += 1;
    }
    merged
}

/// Which of four neighbours a thing with `self_flags` links to: one on the
/// map when their flags meet, one off the map when the thing links to the
/// map edge. `None` stands for a neighbour off the map.
pub fn neighbor_links(self_flags: LinkFlags, neighbors: [Option<LinkFlags>; 4]) -> (r: [bool; 4])
    ensures
        forall|i: int| 0 <= i < 4 ==> r@[i] == slot_links(self_flags, neighbors@[i]),
{
    let edge = self_flags.contains(LinkFlags::of(LinkFlag::MapEdge));
    let mut links = [false; 4];
    let mut i: usize = 0;
    while i < 4
        invariant
            i <= 4,
            edge == slot_links(self_flags, None),
            forall|j: int| 0 <= j < i ==> links@[j] == slot_links(self_flags, neighbors@[j]),
        decreases 4 - i,
    {
        let v = match neighbors[i] {
            Some(n) => n.intersects(self_flags),
            None => edge,
        };
        links.set(i, v);
        i += 1;
    }
    links
}

} // verus!
