//! Which head parts a pawn's apparel hides.
use vstd::prelude::*;

use super::model::{ApparelCoverage, PawnDrawFlags};

verus! {

#[derive(Debug, Clone, Copy, PartialEq, Eq, Structural)]
pub struct ResolvedSkipFlags {
    pub hide_hair: bool,
    pub hide_beard: bool,
}

/// Hair is hidden by the pawn's own flag or by any item over the upper or
/// the full head.
pub open spec fn hides_hair(d: PawnDrawFlags, worn: Seq<ApparelCoverage>) -> bool {
    d.hide_hair || exists|i: int| 0 <= i < worn.len() && covers_hair(#[trigger] worn[i])
}

/// An item over the upper or the full head.
pub open spec fn covers_hair(c: ApparelCoverage) -> bool {
    c.covers_full_head || c.covers_upper_head
}

/// An item over the full head.
pub open spec fn covers_face(c: ApparelCoverage) -> bool {
    c.covers_full_head
}

/// The beard is hidden by the pawn's own flag or by any full-head item.
pub open spec fn hides_beard(d: PawnDrawFlags, worn: Seq<ApparelCoverage>) -> bool {
    d.hide_beard || exists|i: int| 0 <= i < worn.len() && covers_face(#[trigger] worn[i])
}

/// The eyes are hidden by any full-head item.
pub open spec fn hides_eyes(worn: Seq<ApparelCoverage>) -> bool {
    exists|i: int| 0 <= i < worn.len() && covers_face(#[trigger] worn[i])
}

pub fn resolve_skip_flags(draw_flags: PawnDrawFlags, apparel: &[ApparelCoverage]) -> (r: ResolvedSkipFlags)
    ensures
        r.hide_hair == hides_hair(draw_flags, apparel@),
        r.hide_beard == hides_beard(draw_flags, apparel@),
{
    let mut hide_hair = draw_flags.hide_hair;
    let mut hide_beard = draw_flags.hide_beard;
    let mut i: usize = 0;
    while i < apparel.len()
        invariant
            i <= apparel@.len(),
            hide_hair == hides_hair(draw_flags, apparel@.take(i as int)),
            hide_beard == hides_beard(draw_flags, apparel@.take(i as int)),
        decreases apparel.len() - i,
    {
        let item = apparel[i];
        proof {
            let next = apparel@.take(i + 1);
            assert(next[i as int] == item);
            assert forall|j: int| 0 <= j < i implies #[trigger] next[j] == apparel@.take(i as int)[j] by {}
        }
        if item.covers_full_head {
            hide_hair = true;
            hide_beard = true;
        } else if item.covers_upper_head {
            hide_hair = true;
        }
        i += 1;
    }
    proof {
        assert(apparel@.take(apparel@.len() as int) =~= apparel@);
    }
    ResolvedSkipFlags { hide_hair, hide_beard }
}

} // verus!
