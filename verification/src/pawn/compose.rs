//! Which nodes a pawn is drawn from. The nodes are made in a fixed order,
//! body first; the renderer then sorts them by their draw depth.
use vstd::prelude::*;

use super::model::{ApparelCoverage, PawnDrawFlags};
use super::rules::{hides_beard, hides_hair, resolve_skip_flags};
use crate::defs::numbers::strings_view;
use crate::text::{push_str, string_of};

verus! {

broadcast use vstd::string::group_string_axioms;

pub open spec fn coverages(apparel: Seq<(String, ApparelCoverage)>) -> Seq<ApparelCoverage> {
    apparel.map_values(|a: (String, ApparelCoverage)| a.1)
}

pub open spec fn one_if(c: bool, id: Seq<char>) -> Seq<Seq<char>> {
    if c {
        seq![id]
    } else {
        Seq::empty()
    }
}

/// The head nodes: none when the head is hidden or a stump; else the head,
/// hair and beard that have a texture, hair and beard only when nothing
/// hides them.
pub open spec fn head_nodes(
    label: Seq<char>,
    d: PawnDrawFlags,
    worn: Seq<ApparelCoverage>,
    head: bool,
    hair: bool,
    beard: bool,
) -> Seq<Seq<char>> {
    if d.hide_head || d.head_stump {
        Seq::empty()
    } else {
        one_if(head, label + "::Head"@) + one_if(hair && !hides_hair(d, worn), label + "::Hair"@) + one_if(
            beard && !hides_beard(d, worn),
            label + "::Beard"@,
        )
    }
}

/// The ids of a pawn's nodes in the order they are made: its body, its
/// head nodes, then a node for each apparel item, named after the item.
pub open spec fn node_ids(
    label: Seq<char>,
    d: PawnDrawFlags,
    apparel: Seq<(String, ApparelCoverage)>,
    head: bool,
    hair: bool,
    beard: bool,
) -> Seq<Seq<char>> {
    seq![label + "::Body"@] + head_nodes(label, d, coverages(apparel), head, hair, beard) + apparel.map_values(
        |a: (String, ApparelCoverage)| label + "::Apparel::"@ + a.0@,
    )
}

fn node_id(label: &str, part: &str) -> (r: String)
    ensures
        r@ == label@ + part@,
{
    let mut out: Vec<char> = Vec::new();
    push_str(&mut out, label);
    push_str(&mut out, part);
    string_of(out.as_slice())
}

/// The ids of the nodes of pawn `label`, given its draw flags, its apparel
/// (label and head coverage) and whether it has head, hair and beard
/// textures.
pub fn pawn_node_ids(
    label: &str,
    draw_flags: PawnDrawFlags,
    apparel: &[(String, ApparelCoverage)],
    head: bool,
    hair: bool,
    beard: bool,
) -> (r: Vec<String>)
    ensures
        strings_view(r@) == node_ids(label@, draw_flags, apparel@, head, hair, beard),
{
    let mut worn: Vec<ApparelCoverage> = Vec::new();
    let mut i: usize = 0;
    while i < apparel.len()
        invariant
            i <= apparel@.len(),
            worn@ == coverages(apparel@.take(i as int)),
        decreases apparel.len() - i,
    {
        worn.push(apparel[i].1);
        proof {
            assert(coverages(apparel@.take(i + 1)) =~= coverages(apparel@.take(i as int)).push(apparel@[i as int].1));
        }
        i += 1;
    }
    proof {
        assert(apparel@.take(apparel@.len() as int) =~= apparel@);
    }
    let skip = resolve_skip_flags(draw_flags, worn.as_slice());
    let mut out: Vec<String> = Vec::new();
    out.push(node_id(label, "::Body"));
    let ghost mut ids: Seq<Seq<char>> = seq![label@ + "::Body"@];
    if !draw_flags.hide_head && !draw_flags.head_stump {
        if head {
            out.push(node_id(label, "::Head"));
        }
        if hair && !skip.hide_hair {
            out.push(node_id(label, "::Hair"));
        }
        if beard && !skip.hide_beard {
            out.push(node_id(label, "::Beard"));
        }
    }
    proof {
        ids = ids + head_nodes(label@, draw_flags, coverages(apparel@), head, hair, beard);
        assert(strings_view(out@) =~= ids);
    }
    let mut k: usize = 0;
    while k < apparel.len()
        invariant
            k <= apparel@.len(),
            strings_view(out@) == ids + apparel@.take(k as int).map_values(
                |a: (String, ApparelCoverage)| label@ + "::Apparel::"@ + a.0@,
            ),
        decreases apparel.len() - k,
    {
        let mut id: Vec<char> = Vec::new();
        push_str(&mut id, label);
        push_str(&mut id, "::Apparel::");
        push_str(&mut id, apparel[k].0.as_str());
        let ghost before = out@;
        out.push(string_of(id.as_slice()));
        proof {
            let f = |a: (String, ApparelCoverage)| label@ + "::Apparel::"@ + a.0@;
            assert(apparel@.take(k + 1).map_values(f) =~= apparel@.take(k as int).map_values(f).push(f(apparel@[k as int])));
            assert(strings_view(out@) =~= strings_view(before).push(id@));
        }
        k += 1;
    }
    proof {
        assert(apparel@.take(apparel@.len() as int) =~= apparel@);
    }
    out
}

} // verus!
