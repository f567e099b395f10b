//! Which apparel a fixture pawn wears when the fixture leaves it to the
//! scene builder: a deterministic pick from the body, shell and head
//! apparel found, varied by pawn.
use vstd::prelude::*;

verus! {

/// The apparel list an item is picked from.
#[derive(Debug, Clone, Copy, PartialEq, Eq, Structural)]
pub enum ApparelGroup {
    Body,
    Shell,
    Head,
}

pub open spec fn at_least_one(v: int) -> int {
    if v < 1 {
        1
    } else {
        v
    }
}

/// The picks before the fallback: a body item unless the pawn's index is a
/// multiple of 4, a shell item when it is even, a head item unless it is a
/// multiple of 3 (every group when only one pawn is shown), each from a
/// non-empty list at an index derived from `seed`.
pub open spec fn main_picks(seed: int, index: int, focus: bool, body: int, shell: int, head: int) -> Seq<(ApparelGroup, int)> {
    let b: Seq<(ApparelGroup, int)> = if body > 0 && (focus || index % 4 != 0) {
        seq![(ApparelGroup::Body, seed % body)]
    } else {
        Seq::empty()
    };
    let s: Seq<(ApparelGroup, int)> = if shell > 0 && (focus || index % 2 == 0) {
        seq![(ApparelGroup::Shell, at_least_one(seed / 2) % shell)]
    } else {
        Seq::empty()
    };
    let h: Seq<(ApparelGroup, int)> = if head > 0 && (focus || index % 3 != 0) {
        seq![(ApparelGroup::Head, at_least_one(seed / 3) % head)]
    } else {
        Seq::empty()
    };
    b + s + h
}

/// The picks: the main ones, or when there are none, one item from the first
/// non-empty list of shell, body, head.
pub open spec fn apparel_picks(seed: int, index: int, focus: bool, body: int, shell: int, head: int) -> Seq<(ApparelGroup, int)> {
    let main = main_picks(seed, index, focus, body, shell, head);
    if main.len() > 0 {
        main
    } else if shell > 0 {
        seq![(ApparelGroup::Shell, seed % shell)]
    } else if body > 0 {
        seq![(ApparelGroup::Body, seed % body)]
    } else if head > 0 {
        seq![(ApparelGroup::Head, seed % head)]
    } else {
        Seq::empty()
    }
}

pub open spec fn picks_view(v: Seq<(ApparelGroup, usize)>) -> Seq<(ApparelGroup, int)> {
    v.map_values(|p: (ApparelGroup, usize)| (p.0, p.1 as int))
}

/// The apparel for pawn `pawn_index` of a fixture in variant
/// `fixture_variant`, given how many body, shell and head items there are:
/// each pick names a list and an index into it.
pub fn select_fixture_apparel_for_pawn(
    pawn_index: usize,
    fixture_variant: usize,
    focus_only: bool,
    body_len: usize,
    shell_len: usize,
    head_len: usize,
) -> (r: Vec<(ApparelGroup, usize)>)
    requires
        fixture_variant + pawn_index * 17 <= usize::MAX,
    ensures
        picks_view(r@) == apparel_picks(
            fixture_variant + pawn_index * 17,
            pawn_index as int,
            focus_only,
            body_len as int,
            shell_len as int,
            head_len as int,
        ),
{
    let seed = fixture_variant + pawn_index * 17;
    let mut out: Vec<(ApparelGroup, usize)> = Vec::new();
    if body_len > 0 && (focus_only || pawn_index % 4 != 0) {
        out.push((ApparelGroup::Body, seed % body_len));
    }
    if shell_len > 0 && (focus_only || pawn_index % 2 == 0) {
        let half = seed / 2;
        let at = if half < 1 { 1 } else { half };
        out.push((ApparelGroup::Shell, at % shell_len));
    }
    if head_len > 0 && (focus_only || pawn_index % 3 != 0) {
        let third = seed / 3;
        let at = if third < 1 { 1 } else { third };
        out.push((ApparelGroup::Head, at % head_len));
    }
    proof {
        assert(picks_view(out@) =~= main_picks(seed as int, pawn_index as int, focus_only, body_len as int, shell_len as int, head_len as int));
    }
    if out.len() == 0 {
        if shell_len > 0 {
            out.push((ApparelGroup::Shell, seed % shell_len));
        } else if body_len > 0 {
            out.push((ApparelGroup::Body, seed % body_len));
        } else if head_len > 0 {
            out.push((ApparelGroup::Head, seed % head_len));
        }
        proof {
            assert(picks_view(out@) =~= apparel_picks(seed as int, pawn_index as int, focus_only, body_len as int, shell_len as int, head_len as int));
        }
    }
    out
}

} // verus!
