//! The defs probe: for each kind of pawn def, the texture paths to resolve
//! (in def-name order, leaving out defs without a texture), and the summary
//! line of how many resolved and how many fell back.
use vstd::prelude::*;

use super::listing::{by_name, lemma_by_name_len};
use crate::assets::index_text::decimal;
use crate::assets::ranking::insert_member;
use crate::defs::numbers::strings_view;
use crate::defs::xml::opt_view;
use crate::text::{push_decimal, push_str, string_of};

verus! {

/// The texture a def is probed with: its path, when it has a non-empty one.
pub open spec fn probe_texture(t: Option<Seq<char>>) -> Option<Seq<char>> {
    match t {
        Some(s) => if s.len() > 0 {
            Some(s)
        } else {
            None
        },
        None => None,
    }
}

/// The textures probed for the defs at the first `k` places of `order`.
pub open spec fn planned(textures: Seq<Option<String>>, order: Seq<usize>, k: int) -> Seq<Seq<char>>
    decreases k,
{
    if k <= 0 {
        Seq::empty()
    } else {
        let before = planned(textures, order, k - 1);
        match probe_texture(opt_view(textures[order[k - 1] as int])) {
            Some(s) => before.push(s),
            None => before,
        }
    }
}

/// The textures probed for defs named `names` with textures `textures`, in
/// name order.
pub open spec fn probe_targets(names: Seq<String>, textures: Seq<Option<String>>) -> Seq<Seq<char>> {
    let order = by_name(names, names.len() as int);
    planned(textures, order, order.len() as int)
}

proof fn lemma_planned_len(textures: Seq<Option<String>>, order: Seq<usize>, k: int)
    requires
        k >= 0,
    ensures
        planned(textures, order, k).len() <= k,
    decreases k,
{
    if k > 0 {
        lemma_planned_len(textures, order, k - 1);
    }
}

/// The texture paths to probe, in def-name order, and how many defs are
/// skipped for having no texture or an empty one.
pub fn probe_plan(names: &[String], textures: &[Option<String>]) -> (r: (Vec<String>, usize))
    requires
        names@.len() == textures@.len(),
    ensures
        strings_view(r.0@) == probe_targets(names@, textures@),
        r.1 == names@.len() - probe_targets(names@, textures@).len(),
{
    let mut order: Vec<usize> = Vec::new();
    let mut j: usize = 0;
    while j < names.len()
        invariant
            j <= names@.len(),
            order@ == by_name(names@, j as int),
            forall|q: int| 0 <= q < order@.len() ==> order@[q] < names@.len(),
        decreases names.len() - j,
    {
        insert_member(&mut order, j, names);
        j += 1;
    }
    proof {
        lemma_by_name_len(names@, names@.len() as int);
    }
    let mut out: Vec<String> = Vec::new();
    let mut k: usize = 0;
    while k < order.len()
        invariant
            k <= order@.len(),
            order@.len() == names@.len(),
            names@.len() == textures@.len(),
            order@ == by_name(names@, names@.len() as int),
            forall|q: int| 0 <= q < order@.len() ==> order@[q] < names@.len(),
            strings_view(out@) == planned(textures@, order@, k as int),
        decreases order.len() - k,
    {
        let ghost before = out@;
        let tex = &textures[order[k]];
        proof {
            assert(*tex == textures@[order@[k as int] as int]);
        }
        match tex {
            Some(t) => {
                if !t.as_str().is_empty() {
                    out.push(t.clone());
                    proof {
                        assert(t@.len() > 0);
                        assert(strings_view(out@) =~= strings_view(before).push(t@));
                    }
                } else {
                    proof {
                        assert(t@.len() == 0);
                    }
                }
            },
            None => {},
        }
        proof {
            assert(planned(textures@, order@, k + 1) == match probe_texture(opt_view(*tex)) {
                Some(s) => planned(textures@, order@, k as int).push(s),
                None => planned(textures@, order@, k as int),
            });
        }
        k += 1;
    }
    proof {
        lemma_planned_len(textures@, order@, order@.len() as int);
    }
    let skipped = names.len() - out.len();
    (out, skipped)
}

/// `label` padded with spaces on the right to `w` characters.
pub open spec fn padded(label: Seq<char>, w: int) -> Seq<char> {
    if label.len() >= w {
        label
    } else {
        label + Seq::new((w - label.len()) as nat, |i: int| ' ')
    }
}

/// How many entries of `s` equal `v`.
pub open spec fn count_of(s: Seq<bool>, v: bool) -> nat
    decreases s.len(),
{
    if s.len() == 0 {
        0
    } else {
        count_of(s.drop_last(), v) + if s.last() == v {
            1nat
        } else {
            0nat
        }
    }
}

/// The summary line of one kind: its label padded to 8 characters, how
/// many of the probed textures decoded out of all probed, how many fell
/// back, and how many defs were skipped when any were.
pub open spec fn probe_line(label: Seq<char>, decoded: nat, fallback: nat, skipped: nat) -> Seq<char> {
    padded(label, 8) + " decoded="@ + decimal(decoded) + "/"@ + decimal(decoded + fallback) + " fallback="@
        + decimal(fallback) + if skipped > 0 {
        " skipped="@ + decimal(skipped)
    } else {
        Seq::empty()
    }
}

proof fn lemma_count_split(s: Seq<bool>)
    ensures
        count_of(s, true) + count_of(s, false) == s.len(),
    decreases s.len(),
{
    if s.len() > 0 {
        lemma_count_split(s.drop_last());
    }
}

/// The summary line for a kind whose probed textures fell back where
/// `used_fallback` holds and decoded elsewhere.
pub fn probe_report(label: &str, used_fallback: &[bool], skipped: usize) -> (r: String)
    ensures
        r@ == probe_line(label@, count_of(used_fallback@, false), count_of(used_fallback@, true), skipped as nat),
{
    let mut decoded: usize = 0;
    let mut fallback: usize = 0;
    let mut i: usize = 0;
    while i < used_fallback.len()
        invariant
            i <= used_fallback@.len(),
            decoded == count_of(used_fallback@.take(i as int), false),
            fallback == count_of(used_fallback@.take(i as int), true),
            decoded + fallback == i,
        decreases used_fallback.len() - i,
    {
        proof {
            assert(used_fallback@.take(i + 1).drop_last() =~= used_fallback@.take(i as int));
        }
        if used_fallback[i] {
            fallback += 1;
        } else {
            decoded += 1;
        }
        i += 1;
    }
    proof {
        assert(used_fallback@.take(used_fallback@.len() as int) =~= used_fallback@);
    }
    let mut out: Vec<char> = Vec::new();
    push_str(&mut out, label);
    let ghost lab = out@;
    let n = out.len();
    let mut pad: usize = n;
    while pad < 8
        invariant
            n <= pad <= 8 || (n > 8 && pad == n),
            n == label@.len(),
            lab == label@,
            out@ == lab + Seq::new((pad - n) as nat, |i: int| ' '),
        decreases 8 - pad,
    {
        let ghost before = out@;
        out.push(' ');
        proof {
            assert(out@ =~= lab + Seq::new((pad + 1 - n) as nat, |i: int| ' '));
        }
        pad += 1;
    }
    proof {
        assert(out@ =~= padded(label@, 8));
    }
    push_str(&mut out, " decoded=");
    push_decimal(&mut out, decoded);
    push_str(&mut out, "/");
    push_decimal(&mut out, decoded + fallback);
    push_str(&mut out, " fallback=");
    push_decimal(&mut out, fallback);
    if skipped > 0 {
        push_str(&mut out, " skipped=");
        push_decimal(&mut out, skipped);
    }
    proof {
        assert(out@ =~= probe_line(label@, decoded as nat, fallback as nat, skipped as nat));
    }
    string_of(out.as_slice())
}

} // verus!
