//! The per-draw parameters of a pawn: which head parts are skipped.
use vstd::prelude::*;

use super::model::{ApparelCoverage, PawnDrawFlags, PawnFacing};
use super::rules::{hides_beard, hides_eyes, hides_hair};

verus! {

/// A head part that is not drawn.
#[derive(Debug, Clone, Copy, PartialEq, Eq, Structural)]
pub enum RenderSkipFlag {
    Hair,
    Beard,
    Eyes,
}

/// Facing, draw flags and the head parts skipped, in the order they were
/// first found hidden.
#[derive(Debug, Clone)]
pub struct PawnDrawParms {
    pub facing: PawnFacing,
    pub draw_flags: PawnDrawFlags,
    pub skip_flags: Vec<RenderSkipFlag>,
}

/// `s` with `f` appended unless it is already there.
pub open spec fn with_flag(s: Seq<RenderSkipFlag>, f: RenderSkipFlag) -> Seq<RenderSkipFlag> {
    if s.contains(f) {
        s
    } else {
        s.push(f)
    }
}

/// The flags the pawn's own state hides.
pub open spec fn own_skips(d: PawnDrawFlags) -> Seq<RenderSkipFlag> {
    let s: Seq<RenderSkipFlag> = if d.hide_hair {
        seq![RenderSkipFlag::Hair]
    } else {
        Seq::empty()
    };
    if d.hide_beard {
        s.push(RenderSkipFlag::Beard)
    } else {
        s
    }
}

/// What one worn item adds: hair, beard and eyes for a full-head item,
/// hair for an upper-head one.
pub open spec fn with_coverage(s: Seq<RenderSkipFlag>, c: ApparelCoverage) -> Seq<RenderSkipFlag> {
    if c.covers_full_head {
        with_flag(with_flag(with_flag(s, RenderSkipFlag::Hair), RenderSkipFlag::Beard), RenderSkipFlag::Eyes)
    } else if c.covers_upper_head {
        with_flag(s, RenderSkipFlag::Hair)
    } else {
        s
    }
}

/// The skip flags after the pawn's own flags and every worn item in turn.
pub open spec fn skips_after(d: PawnDrawFlags, worn: Seq<ApparelCoverage>) -> Seq<RenderSkipFlag>
    decreases worn.len(),
{
    if worn.len() == 0 {
        own_skips(d)
    } else {
        with_coverage(skips_after(d, worn.drop_last()), worn.last())
    }
}

/// Whether `flags` holds `flag`.
fn has_flag(flags: &Vec<RenderSkipFlag>, flag: RenderSkipFlag) -> (r: bool)
    ensures
        r == flags@.contains(flag),
{
    let mut i: usize = 0;
    while i < flags.len()
        invariant
            i <= flags@.len(),
            forall|j: int| 0 <= j < i ==> flags@[j] != flag,
        decreases flags.len() - i,
    {
        if flags[i] == flag {
            return true;
        }
        i += 1;
    }
    false
}

fn push_unique(out: &mut Vec<RenderSkipFlag>, flag: RenderSkipFlag)
    ensures
        final(out)@ == with_flag(old(out)@, flag),
{
    if !has_flag(out, flag) {
        out.push(flag);
    }
}

impl PawnDrawParms {
    /// The parameters for a pawn facing `facing` with `draw_flags`, wearing
    /// items whose head coverage is `apparel`, in wearing order.
    pub fn from_inputs(facing: PawnFacing, draw_flags: PawnDrawFlags, apparel: &[ApparelCoverage]) -> (r: Self)
        ensures
            r.facing == facing,
            r.draw_flags == draw_flags,
            r.skip_flags@ == skips_after(draw_flags, apparel@),
    {
        let mut skip_flags: Vec<RenderSkipFlag> = Vec::new();
        if draw_flags.hide_hair {
            skip_flags.push(RenderSkipFlag::Hair);
        }
        if draw_flags.hide_beard {
            skip_flags.push(RenderSkipFlag::Beard);
        }
        proof {
            assert(apparel@.take(0) =~= Seq::<ApparelCoverage>::empty());
            assert(skip_flags@ =~= skips_after(draw_flags, apparel@.take(0)));
        }
        let mut i: usize = 0;
        while i < apparel.len()
            invariant
                i <= apparel@.len(),
                skip_flags@ == skips_after(draw_flags, apparel@.take(i as int)),
            decreases apparel.len() - i,
        {
            let item = apparel[i];
            if item.covers_full_head {
                push_unique(&mut skip_flags, RenderSkipFlag::Hair);
                push_unique(&mut skip_flags, RenderSkipFlag::Beard);
                push_unique(&mut skip_flags, RenderSkipFlag::Eyes);
            } else if item.covers_upper_head {
                push_unique(&mut skip_flags, RenderSkipFlag::Hair);
            }
            proof {
                assert(apparel@.take(i + 1).drop_last() =~= apparel@.take(i as int));
            }
            i += 1;
        }
        proof {
            assert(apparel@.take(apparel@.len() as int) =~= apparel@);
        }
        PawnDrawParms { facing, draw_flags, skip_flags }
    }

    /// Whether `flag` is among the skipped parts.
    pub fn skip(&self, flag: RenderSkipFlag) -> (r: bool)
        ensures
            r == self.skip_flags@.contains(flag),
    {
        has_flag(&self.skip_flags, flag)
    }
}

proof fn lemma_with_flag(s: Seq<RenderSkipFlag>, f: RenderSkipFlag)
    requires
        s.no_duplicates(),
    ensures
        with_flag(s, f).no_duplicates(),
        forall|g: RenderSkipFlag| #[trigger] with_flag(s, f).contains(g) == (s.contains(g) || g == f),
{
    if !s.contains(f) {
        let t = s.push(f);
        assert forall|g: RenderSkipFlag| #[trigger] t.contains(g) == (s.contains(g) || g == f) by {
            if s.contains(g) {
                let j = choose|j: int| 0 <= j < s.len() && s[j] == g;
                assert(t[j] == g);
            }
            if g == f {
                assert(t[s.len() as int] == g);
            }
        }
        assert forall|a: int, b: int| 0 <= a < t.len() && 0 <= b < t.len() && a != b implies t[a] != t[b] by {
            if a == s.len() {
                assert(s[b] == t[b]);
            } else if b == s.len() {
                assert(s[a] == t[a]);
            }
        }
    }
}

/// A part is skipped exactly when the apparel rules hide it: hair and beard
/// as `resolve_skip_flags` decides, the eyes under any full-head item; and
/// no part is listed twice.
pub proof fn lemma_skip_flags_match_rules(d: PawnDrawFlags, worn: Seq<ApparelCoverage>)
    ensures
        skips_after(d, worn).contains(RenderSkipFlag::Hair) == hides_hair(d, worn),
        skips_after(d, worn).contains(RenderSkipFlag::Beard) == hides_beard(d, worn),
        skips_after(d, worn).contains(RenderSkipFlag::Eyes) == hides_eyes(worn),
        skips_after(d, worn).no_duplicates(),
    decreases worn.len(),
{
    if worn.len() == 0 {
        let s = own_skips(d);
        if d.hide_hair {
            assert(s[0] == RenderSkipFlag::Hair);
        } else if d.hide_beard {
            assert(s =~= seq![RenderSkipFlag::Beard]);
            assert(!s.contains(RenderSkipFlag::Hair));
        } else {
            assert(s =~= Seq::<RenderSkipFlag>::empty());
        }
        assert(skips_after(d, worn) == s);
        assert(s.contains(RenderSkipFlag::Hair) == hides_hair(d, worn));
        if d.hide_beard {
            assert(s[s.len() - 1] == RenderSkipFlag::Beard);
        }
    } else {
        let prev = worn.drop_last();
        let c = worn.last();
        lemma_skip_flags_match_rules(d, prev);
        let s = skips_after(d, prev);
        lemma_with_flag(s, RenderSkipFlag::Hair);
        let s1 = with_flag(s, RenderSkipFlag::Hair);
        lemma_with_flag(s1, RenderSkipFlag::Beard);
        let s2 = with_flag(s1, RenderSkipFlag::Beard);
        lemma_with_flag(s2, RenderSkipFlag::Eyes);
        let n = (worn.len() - 1) as int;
        assert(worn[n] == c);
        assert forall|i: int| 0 <= i < prev.len() implies #[trigger] prev[i] == worn[i] by {}
        if c.covers_full_head || c.covers_upper_head {
            assert(worn[n].covers_full_head || worn[n].covers_upper_head);
        }
        if hides_hair(d, prev) && !d.hide_hair {
            let i = choose|i: int| 0 <= i < prev.len() && super::rules::covers_hair(#[trigger] prev[i]);
            assert(worn[i] == prev[i]);
            assert(worn[i].covers_full_head || worn[i].covers_upper_head);
        }
        if hides_beard(d, prev) && !d.hide_beard {
            let i = choose|i: int| 0 <= i < prev.len() && super::rules::covers_face(#[trigger] prev[i]);
            assert(worn[i] == prev[i]);
        }
        if hides_eyes(prev) {
            let i = choose|i: int| 0 <= i < prev.len() && super::rules::covers_face(#[trigger] prev[i]);
            assert(worn[i] == prev[i]);
        }
        if hides_hair(d, worn) && !d.hide_hair && !c.covers_full_head && !c.covers_upper_head {
            let i = choose|i: int| 0 <= i < worn.len() && super::rules::covers_hair(#[trigger] worn[i]);
            assert(prev[i] == worn[i]);
        }
        if hides_beard(d, worn) && !d.hide_beard && !c.covers_full_head {
            let i = choose|i: int| 0 <= i < worn.len() && super::rules::covers_face(#[trigger] worn[i]);
            assert(prev[i] == worn[i]);
        }
        if hides_eyes(worn) && !c.covers_full_head {
            let i = choose|i: int| 0 <= i < worn.len() && super::rules::covers_face(#[trigger] worn[i]);
            assert(prev[i] == worn[i]);
        }
        assert(skips_after(d, worn) == with_coverage(s, c));
        assert(hides_hair(d, worn) == (hides_hair(d, prev) || c.covers_full_head || c.covers_upper_head));
    }
}

} // verus!
