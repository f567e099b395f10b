//! Link-drawer and terrain-edge types, mirroring RimWorld's `Verse.LinkDrawer*`
//! and `Verse.TerrainEdgeType` enums. Pure data and arithmetic.
use vstd::prelude::*;

use crate::text::str_eq;

verus! {

/// One named member of RimWorld's `LinkFlags` `[Flags]` enum.
#[derive(Debug, Clone, Copy, PartialEq, Eq, Structural)]
pub enum LinkFlag {
    MapEdge,
    Rock,
    Wall,
    Sandbags,
    PowerConduit,
    Barricades,
    Fences,
    Fleshmass,
    SolidIce,
    BurrowWall,
    Custom1,
    Custom2,
    Custom3,
    Custom4,
    Custom5,
    Custom6,
    Custom7,
    Custom8,
    Custom9,
    Custom10,
}

/// The bit RimWorld assigns to each named flag.
pub open spec fn flag_bit(f: LinkFlag) -> u32 {
    match f {
        LinkFlag::MapEdge => 0x01,
        LinkFlag::Rock => 0x02,
        LinkFlag::Wall => 0x04,
        LinkFlag::Sandbags => 0x08,
        LinkFlag::PowerConduit => 0x10,
        LinkFlag::Barricades => 0x20,
        LinkFlag::Fences => 0x40,
        LinkFlag::Fleshmass => 0x80,
        LinkFlag::SolidIce => 0x100,
        LinkFlag::BurrowWall => 0x200,
        LinkFlag::Custom1 => 0x20000,
        LinkFlag::Custom2 => 0x40000,
        LinkFlag::Custom3 => 0x80000,
        LinkFlag::Custom4 => 0x100000,
        LinkFlag::Custom5 => 0x200000,
        LinkFlag::Custom6 => 0x400000,
        LinkFlag::Custom7 => 0x800000,
        LinkFlag::Custom8 => 0x1000000,
        LinkFlag::Custom9 => 0x2000000,
        LinkFlag::Custom10 => 0x4000000,
    }
}

impl LinkFlag {
    pub fn bit(self) -> (b: u32)
        ensures
            b == flag_bit(self),
    {
        match self {
            LinkFlag::MapEdge => 0x01,
            LinkFlag::Rock => 0x02,
            LinkFlag::Wall => 0x04,
            LinkFlag::Sandbags => 0x08,
            LinkFlag::PowerConduit => 0x10,
            LinkFlag::Barricades => 0x20,
            LinkFlag::Fences => 0x40,
            LinkFlag::Fleshmass => 0x80,
            LinkFlag::SolidIce => 0x100,
            LinkFlag::BurrowWall => 0x200,
            LinkFlag::Custom1 => 0x20000,
            LinkFlag::Custom2 => 0x40000,
            LinkFlag::Custom3 => 0x80000,
            LinkFlag::Custom4 => 0x100000,
            LinkFlag::Custom5 => 0x200000,
            LinkFlag::Custom6 => 0x400000,
            LinkFlag::Custom7 => 0x800000,
            LinkFlag::Custom8 => 0x1000000,
            LinkFlag::Custom9 => 0x2000000,
            LinkFlag::Custom10 => 0x4000000,
        }
    }
}

/// A set of link flags. A wall's `linkFlags` lists both what it is and what
/// it matches against; `MapEdge` makes out-of-bounds cells count as a match.
#[derive(Debug, Clone, Copy, PartialEq, Eq, Structural, Default)]
pub struct LinkFlags(u32);

/// `a` holds every bit of `b`.
pub open spec fn flags_contain(a: LinkFlags, b: LinkFlags) -> bool {
    (a.bits() & b.bits()) == b.bits()
}

/// `a` and `b` share at least one bit.
pub open spec fn flags_intersect(a: LinkFlags, b: LinkFlags) -> bool {
    (a.bits() & b.bits()) != 0
}

/// The token spelling RimWorld uses for each flag, `None` for the empty set.
pub open spec fn spec_link_flags_from_token(name: Seq<char>) -> Option<u32> {
    if name == "None"@ {
        Some(0u32)
    } else if name == "MapEdge"@ {
        Some(flag_bit(LinkFlag::MapEdge))
    } else if name == "Rock"@ {
        Some(flag_bit(LinkFlag::Rock))
    } else if name == "Wall"@ {
        Some(flag_bit(LinkFlag::Wall))
    } else if name == "Sandbags"@ {
        Some(flag_bit(LinkFlag::Sandbags))
    } else if name == "PowerConduit"@ {
        Some(flag_bit(LinkFlag::PowerConduit))
    } else if name == "Barricades"@ {
        Some(flag_bit(LinkFlag::Barricades))
    } else if name == "Fences"@ {
        Some(flag_bit(LinkFlag::Fences))
    } else if name == "Fleshmass"@ {
        Some(flag_bit(LinkFlag::Fleshmass))
    } else if name == "SolidIce"@ {
        Some(flag_bit(LinkFlag::SolidIce))
    } else if name == "BurrowWall"@ {
        Some(flag_bit(LinkFlag::BurrowWall))
    } else if name == "Custom1"@ {
        Some(flag_bit(LinkFlag::Custom1))
    } else if name == "Custom2"@ {
        Some(flag_bit(LinkFlag::Custom2))
    } else if name == "Custom3"@ {
        Some(flag_bit(LinkFlag::Custom3))
    } else if name == "Custom4"@ {
        Some(flag_bit(LinkFlag::Custom4))
    } else if name == "Custom5"@ {
        Some(flag_bit(LinkFlag::Custom5))
    } else if name == "Custom6"@ {
        Some(flag_bit(LinkFlag::Custom6))
    } else if name == "Custom7"@ {
        Some(flag_bit(LinkFlag::Custom7))
    } else if name == "Custom8"@ {
        Some(flag_bit(LinkFlag::Custom8))
    } else if name == "Custom9"@ {
        Some(flag_bit(LinkFlag::Custom9))
    } else if name == "Custom10"@ {
        Some(flag_bit(LinkFlag::Custom10))
    } else {
        None
    }
}

impl LinkFlags {
    /// The flag bits.
    pub closed spec fn bits(self) -> u32 {
        self.0
    }

    /// The set with no flag.
    pub closed spec fn spec_empty() -> Self {
        LinkFlags(0)
    }

    /// The set holding the flags of both.
    pub closed spec fn spec_union(self, other: Self) -> Self {
        LinkFlags(self.0 | other.0)
    }

    /// A set is its bits: equal bits make equal sets.
    pub proof fn lemma_bits_determine(self, other: Self)
        ensures
            self.bits() == other.bits() <==> self == other,
            Self::spec_empty().bits() == 0,
            self.spec_union(other).bits() == self.bits() | other.bits(),
    {
    }

    /// The empty set.
    pub fn empty() -> (r: Self)
        ensures
            r.bits() == 0,
            r == Self::spec_empty(),
    {
        LinkFlags(0)
    }

    /// The set holding one named flag.
    pub fn of(flag: LinkFlag) -> (r: Self)
        ensures
            r.bits() == flag_bit(flag),
    {
        LinkFlags(flag.bit())
    }

    pub fn contains(self, other: Self) -> (r: bool)
        ensures
            r == flags_contain(self, other),
    {
        (self.0 & other.0) == other.0
    }

    pub fn intersects(self, other: Self) -> (r: bool)
        ensures
            r == flags_intersect(self, other),
    {
        (self.0 & other.0) != 0
    }

    pub fn union(self, other: Self) -> (r: Self)
        ensures
            r.bits() == self.bits() | other.bits(),
            r == self.spec_union(other),
    {
        LinkFlags(self.0 | other.0)
    }

    /// Parses a single `<li>` value from `<linkFlags>`. Case-sensitive,
    /// matching RimWorld's spelling; `None` for unknown tokens.
    pub fn from_token(name: &str) -> (r: Option<Self>)
        ensures
            match r {
                Some(f) => spec_link_flags_from_token(name@) == Some(f.bits()),
                None => spec_link_flags_from_token(name@) is None,
            },
    {
        let bits: u32 = if str_eq(name, "None") {
            0
        } else if str_eq(name, "MapEdge") {
            LinkFlag::MapEdge.bit()
        } else if str_eq(name, "Rock") {
            LinkFlag::Rock.bit()
        } else if str_eq(name, "Wall") {
            LinkFlag::Wall.bit()
        } else if str_eq(name, "Sandbags") {
            LinkFlag::Sandbags.bit()
        } else if str_eq(name, "PowerConduit") {
            LinkFlag::PowerConduit.bit()
        } else if str_eq(name, "Barricades") {
            LinkFlag::Barricades.bit()
        } else if str_eq(name, "Fences") {
            LinkFlag::Fences.bit()
        } else if str_eq(name, "Fleshmass") {
            LinkFlag::Fleshmass.bit()
        } else if str_eq(name, "SolidIce") {
            LinkFlag::SolidIce.bit()
        } else if str_eq(name, "BurrowWall") {
            LinkFlag::BurrowWall.bit()
        } else if str_eq(name, "Custom1") {
            LinkFlag::Custom1.bit()
        } else if str_eq(name, "Custom2") {
            LinkFlag::Custom2.bit()
        } else if str_eq(name, "Custom3") {
            LinkFlag::Custom3.bit()
        } else if str_eq(name, "Custom4") {
            LinkFlag::Custom4.bit()
        } else if str_eq(name, "Custom5") {
            LinkFlag::Custom5.bit()
        } else if str_eq(name, "Custom6") {
            LinkFlag::Custom6.bit()
        } else if str_eq(name, "Custom7") {
            LinkFlag::Custom7.bit()
        } else if str_eq(name, "Custom8") {
            LinkFlag::Custom8.bit()
        } else if str_eq(name, "Custom9") {
            LinkFlag::Custom9.bit()
        } else if str_eq(name, "Custom10") {
            LinkFlag::Custom10.bit()
        } else {
            return None;
        };
        Some(LinkFlags(bits))
    }
}

impl std::ops::BitOr for LinkFlags {
    type Output = Self;

    fn bitor(self, rhs: Self) -> (r: Self)
        ensures
            r.bits() == self.bits() | rhs.bits(),
            r == self.spec_union(rhs),
    {
        self.union(rhs)
    }
}

impl vstd::std_specs::ops::BitOrSpecImpl for LinkFlags {
    open spec fn obeys_bitor_spec() -> bool {
        true
    }

    open spec fn bitor_req(self, rhs: Self) -> bool {
        true
    }

    closed spec fn bitor_spec(self, rhs: Self) -> Self {
        LinkFlags(self.0 | rhs.0)
    }
}

impl std::ops::BitOrAssign for LinkFlags {
    fn bitor_assign(&mut self, rhs: Self)
        ensures
            final(self).bits() == old(self).bits() | rhs.bits(),
            *final(self) == old(self).spec_union(rhs),
    {
        self.0 = self.0 | rhs.0;
    }
}

/// The algebra of flag sets: union is commutative, associative and
/// idempotent with the empty set as identity; a union holds both operands;
/// it shares a bit with a third set exactly when one operand does; and a
/// set holds the empty set.
pub proof fn lemma_union_laws(a: LinkFlags, b: LinkFlags, c: LinkFlags)
    ensures
        a.spec_union(b) == b.spec_union(a),
        a.spec_union(b.spec_union(c)) == a.spec_union(b).spec_union(c),
        a.spec_union(LinkFlags::spec_empty()) == a,
        a.spec_union(a) == a,
        flags_contain(a.spec_union(b), a),
        flags_contain(a.spec_union(b), b),
        flags_intersect(a.spec_union(b), c) <==> flags_intersect(a, c) || flags_intersect(b, c),
        flags_contain(a, LinkFlags::spec_empty()),
{
    let (x, y, z) = (a.bits(), b.bits(), c.bits());
    a.lemma_bits_determine(b);
    b.lemma_bits_determine(c);
    a.lemma_bits_determine(b.spec_union(c));
    a.spec_union(b).lemma_bits_determine(c);
    b.lemma_bits_determine(a);
    a.lemma_bits_determine(a);
    a.lemma_bits_determine(LinkFlags::spec_empty());
    assert(x | y == y | x) by (bit_vector);
    assert((x | y) | z == x | (y | z)) by (bit_vector);
    assert(x | 0 == x) by (bit_vector);
    assert(x | x == x) by (bit_vector);
    assert(((x | y) & x) == x && ((x | y) & y) == y) by (bit_vector);
    assert(((x | y) & z) != 0 <==> (x & z) != 0 || (y & z) != 0) by (bit_vector);
    assert((x & 0) == 0) by (bit_vector);
    a.spec_union(b).lemma_bits_determine(b.spec_union(a));
    a.spec_union(b.spec_union(c)).lemma_bits_determine(a.spec_union(b).spec_union(c));
    a.spec_union(LinkFlags::spec_empty()).lemma_bits_determine(a);
    a.spec_union(a).lemma_bits_determine(a);
}

/// Sharing a bit is symmetric, and holding a non-empty set means sharing a
/// bit with it.
pub proof fn lemma_intersect_facts(a: LinkFlags, b: LinkFlags)
    ensures
        flags_intersect(a, b) == flags_intersect(b, a),
        flags_contain(a, b) && b.bits() != 0 ==> flags_intersect(a, b),
        flags_contain(a, a),
{
    let (x, y) = (a.bits(), b.bits());
    assert((x & y) == (y & x)) by (bit_vector);
    assert((x & x) == x) by (bit_vector);
}

#[derive(Debug, Clone, Copy, PartialEq, Eq, Structural, Default)]
pub enum LinkDrawerType {
    #[default]
    NoLinks,
    Basic,
    CornerFiller,
    /// Parsed but not yet rendered; treated as `Basic` when drawn.
    Transmitter,
    /// Parsed but not yet rendered; treated as `Basic` when drawn.
    TransmitterOverlay,
    /// Parsed but not yet rendered; treated as `Basic` when drawn.
    Asymmetric,
}

pub open spec fn spec_link_drawer_from_token(name: Seq<char>) -> Option<LinkDrawerType> {
    if name == "None"@ {
        Some(LinkDrawerType::NoLinks)
    } else if name == "Basic"@ {
        Some(LinkDrawerType::Basic)
    } else if name == "CornerFiller"@ {
        Some(LinkDrawerType::CornerFiller)
    } else if name == "Transmitter"@ {
        Some(LinkDrawerType::Transmitter)
    } else if name == "TransmitterOverlay"@ {
        Some(LinkDrawerType::TransmitterOverlay)
    } else if name == "Asymmetric"@ {
        Some(LinkDrawerType::Asymmetric)
    } else {
        None
    }
}

impl LinkDrawerType {
    pub fn from_token(name: &str) -> (r: Option<Self>)
        ensures
            r == spec_link_drawer_from_token(name@),
    {
        if str_eq(name, "None") {
            Some(LinkDrawerType::NoLinks)
        } else if str_eq(name, "Basic") {
            Some(LinkDrawerType::Basic)
        } else if str_eq(name, "CornerFiller") {
            Some(LinkDrawerType::CornerFiller)
        } else if str_eq(name, "Transmitter") {
            Some(LinkDrawerType::Transmitter)
        } else if str_eq(name, "TransmitterOverlay") {
            Some(LinkDrawerType::TransmitterOverlay)
        } else if str_eq(name, "Asymmetric") {
            Some(LinkDrawerType::Asymmetric)
        } else {
            None
        }
    }
}

#[derive(Debug, Clone, Copy, PartialEq, Eq, Structural, Default)]
pub enum TerrainEdgeType {
    #[default]
    NoEdge,
    Hard,
    FadeRough,
    Water,
}

pub open spec fn spec_terrain_edge_from_token(name: Seq<char>) -> Option<TerrainEdgeType> {
    if name == "None"@ {
        Some(TerrainEdgeType::NoEdge)
    } else if name == "Hard"@ {
        Some(TerrainEdgeType::Hard)
    } else if name == "FadeRough"@ {
        Some(TerrainEdgeType::FadeRough)
    } else if name == "Water"@ {
        Some(TerrainEdgeType::Water)
    } else {
        None
    }
}

impl TerrainEdgeType {
    pub fn from_token(name: &str) -> (r: Option<Self>)
        ensures
            r == spec_terrain_edge_from_token(name@),
    {
        if str_eq(name, "None") {
            Some(TerrainEdgeType::NoEdge)
        } else if str_eq(name, "Hard") {
            Some(TerrainEdgeType::Hard)
        } else if str_eq(name, "FadeRough") {
            Some(TerrainEdgeType::FadeRough)
        } else if str_eq(name, "Water") {
            Some(TerrainEdgeType::Water)
        } else {
            None
        }
    }
}

/// Atlas cell of a link index: column `index % 4`, and the row counted from
/// the top of the image, since the atlas is authored with a bottom-left
/// origin and sampled with a top-left one.
pub fn atlas_cell(index: u8) -> (r: (u8, u8))
    requires
        index < 16,
    ensures
        r.0 == index % 4,
        r.1 == 3 - index / 4,
{
    (index % 4, 3 - index / 4)
}

/// Whether cardinal slot `d` links: an in-bounds neighbour links when its
/// flags share a bit with `self_flags`; an out-of-bounds one links when
/// `self_flags` holds `MapEdge`.
pub open spec fn slot_links(self_flags: LinkFlags, neighbor: Option<LinkFlags>) -> bool {
    match neighbor {
        Some(n) => flags_intersect(n, self_flags),
        None => (self_flags.bits() & flag_bit(LinkFlag::MapEdge)) == flag_bit(LinkFlag::MapEdge),
    }
}

pub open spec fn bit_if(b: bool, v: int) -> int {
    if b {
        v
    } else {
        0
    }
}

/// NESW bitmask for link-atlas lookup: bit 1 for north, 2 east, 4 south,
/// 8 west, each set when that slot links.
pub open spec fn spec_link_index(self_flags: LinkFlags, n: Seq<Option<LinkFlags>>) -> int {
    bit_if(slot_links(self_flags, n[0]), 1) + bit_if(slot_links(self_flags, n[1]), 2) + bit_if(
        slot_links(self_flags, n[2]),
        4,
    ) + bit_if(slot_links(self_flags, n[3]), 8)
}

/// NESW bitmask for link-atlas lookup. `neighbor_flags` is in the order
/// N, E, S, W; `None` means out of bounds, which only counts as a match if
/// `self_flags` contains `MapEdge`.
pub fn link_index(self_flags: LinkFlags, neighbor_flags: [Option<LinkFlags>; 4]) -> (r: u8)
    ensures
        r == spec_link_index(self_flags, neighbor_flags@),
        r < 16,
{
    let mut idx: u8 = 0;
    let mut bit: usize = 0;
    let mut weight: u8 = 1;
    while bit < 4
        invariant
            bit <= 4,
            weight == if bit == 0 {
                1u8
            } else if bit == 1 {
                2u8
            } else if bit == 2 {
                4u8
            } else if bit == 3 {
                8u8
            } else {
                16u8
            },
            idx < weight,
            idx == (if bit >= 1 {
                bit_if(slot_links(self_flags, neighbor_flags@[0]), 1)
            } else {
                0
            }) + (if bit >= 2 {
                bit_if(slot_links(self_flags, neighbor_flags@[1]), 2)
            } else {
                0
            }) + (if bit >= 3 {
                bit_if(slot_links(self_flags, neighbor_flags@[2]), 4)
            } else {
                0
            }) + (if bit >= 4 {
                bit_if(slot_links(self_flags, neighbor_flags@[3]), 8)
            } else {
                0
            }),
        decreases 4 - bit,
    {
        let links = match neighbor_flags[bit] {
            Some(n) => n.intersects(self_flags),
            None => self_flags.contains(LinkFlags::of(LinkFlag::MapEdge)),
        };
        if links {
            idx = idx + weight;
        }
        weight = weight * 2;
        bit += 1;
    }
    idx
}

/// For each diagonal (NE, SE, SW, NW), whether a corner-filler quad is
/// drawn there: both orthogonal neighbours link and the diagonal links.
/// Inputs are ordered N, E, S, W and NE, SE, SW, NW.
pub fn corner_filler_positions(cardinal_links: [bool; 4], diagonal_links: [bool; 4]) -> (r: [bool;
    4])
    ensures
        r@[0] == (cardinal_links@[0] && cardinal_links@[1] && diagonal_links@[0]),
        r@[1] == (cardinal_links@[2] && cardinal_links@[1] && diagonal_links@[1]),
        r@[2] == (cardinal_links@[2] && cardinal_links@[3] && diagonal_links@[2]),
        r@[3] == (cardinal_links@[0] && cardinal_links@[3] && diagonal_links@[3]),
{
    [
        cardinal_links[0] && cardinal_links[1] && diagonal_links[0],
        cardinal_links[2] && cardinal_links[1] && diagonal_links[1],
        cardinal_links[2] && cardinal_links[3] && diagonal_links[2],
        cardinal_links[0] && cardinal_links[3] && diagonal_links[3],
    ]
}

/// Whether perimeter vertex `i` (0 S mid, 1 SW, 2 W mid, 3 NW, 4 N mid,
/// 5 NE, 6 E mid, 7 SE) is lit: a matching cardinal neighbour (even slot)
/// lights its midpoint and both flanking corners, a matching diagonal (odd
/// slot) lights only its corner.
pub open spec fn perimeter_lit(m: Seq<bool>, i: int) -> bool {
    if i % 2 == 0 {
        m[i]
    } else {
        m[i] || m[(i + 7) % 8] || m[(i + 1) % 8]
    }
}

/// Perimeter vertices lit by the 8 surrounding cells that match the overlay
/// def. Input order S, SW, W, NW, N, NE, E, SE; output order as
/// `perimeter_lit`.
pub fn perimeter_lit_from_neighbor_matches(matches: [bool; 8]) -> (r: [bool; 8])
    ensures
        forall|i: int| 0 <= i < 8 ==> #[trigger] r@[i] == perimeter_lit(matches@, i),
{
    let m = matches;
    let lit = [
        m[0],
        m[1] || m[0] || m[2],
        m[2],
        m[3] || m[2] || m[4],
        m[4],
        m[5] || m[4] || m[6],
        m[6],
        m[7] || m[6] || m[0],
    ];
    proof {
        assert forall|i: int| 0 <= i < 8 implies #[trigger] lit@[i] == perimeter_lit(matches@, i) by {
            if i == 0 {
            } else if i == 1 {
            } else if i == 2 {
            } else if i == 3 {
            } else if i == 4 {
            } else if i == 5 {
            } else if i == 6 {
            } else {
                assert((i + 1) % 8 == 0);
            }
        }
    }
    lit
}

} // verus!
