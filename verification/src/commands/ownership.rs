//! Checks on a built scene: which render layer may hold which sprites, and
//! the choice of a def when a fixture names none or an unknown one.
use vstd::prelude::*;

use crate::lexical::{str_le, str_lt, string_lt};
use crate::text::{chars_of, push_str, starts_with, starts_with_chars, str_eq, string_of};

verus! {

/// The names, in order, not starting with any of `prefixes`.
pub open spec fn names_outside(names: Seq<String>, prefixes: Seq<Seq<char>>) -> Seq<Seq<char>>
    decreases names.len(),
{
    if names.len() == 0 {
        Seq::empty()
    } else {
        let before = names_outside(names.drop_last(), prefixes);
        let n = names.last()@;
        if exists|k: int| 0 <= k < prefixes.len() && starts_with(n, #[trigger] prefixes[k]) {
            before
        } else {
            before.push(n)
        }
    }
}

/// `parts` joined by `, `.
pub open spec fn comma_joined(parts: Seq<Seq<char>>) -> Seq<char>
    decreases parts.len(),
{
    if parts.len() == 0 {
        Seq::empty()
    } else if parts.len() == 1 {
        parts[0]
    } else {
        comma_joined(parts.drop_last()) + ", "@ + parts.last()
    }
}

pub open spec fn static_prefixes() -> Seq<Seq<char>> {
    seq!["Terrain::"@, "Thing::"@]
}

pub open spec fn dynamic_prefixes() -> Seq<Seq<char>> {
    seq!["PawnNode::"@]
}

pub open spec fn static_violation_text(bad: Seq<Seq<char>>) -> Seq<char> {
    "v2 layer ownership violation: static layer contains non-terrain/non-thing sprites: "@ + comma_joined(bad)
}

pub open spec fn dynamic_violation_text(bad: Seq<Seq<char>>) -> Seq<char> {
    "v2 layer ownership violation: dynamic layer contains non-pawn sprites: "@ + comma_joined(bad)
}

fn outside(names: &[String], prefixes: &Vec<Vec<char>>, Ghost(ps): Ghost<Seq<Seq<char>>>) -> (r: Vec<String>)
    requires
        prefixes@.map_values(|p: Vec<char>| p@) == ps,
    ensures
        r@.map_values(|s: String| s@) == names_outside(names@, ps),
{
    let mut out: Vec<String> = Vec::new();
    let mut i: usize = 0;
    while i < names.len()
        invariant
            i <= names@.len(),
            prefixes@.map_values(|p: Vec<char>| p@) == ps,
            out@.map_values(|s: String| s@) == names_outside(names@.take(i as int), ps),
        decreases names.len() - i,
    {
        let n = chars_of(names[i].as_str());
        let mut owned = false;
        let mut k: usize = 0;
        while k < prefixes.len()
            invariant
                k <= prefixes@.len(),
                prefixes@.map_values(|p: Vec<char>| p@) == ps,
                n@ == names@[i as int]@,
                owned == exists|q: int| 0 <= q < k && starts_with(n@, #[trigger] ps[q]),
            decreases prefixes.len() - k,
        {
            proof {
                assert(ps[k as int] == prefixes@[k as int]@);
            }
            if starts_with_chars(n.as_slice(), prefixes[k].as_slice()) {
                owned = true;
            }
            k += 1;
        }
        proof {
            assert(names@.take(i + 1).drop_last() =~= names@.take(i as int));
            assert(names@.take(i + 1).last() == names@[i as int]);
        }
        if !owned {
            let ghost before = out@;
            out.push(names[i].clone());
            proof {
                assert(out@.map_values(|s: String| s@) =~= before.map_values(|s: String| s@).push(names@[i as int]@));
            }
        }
        i += 1;
    }
    proof {
        assert(names@.take(names@.len() as int) =~= names@);
    }
    out
}

pub(crate) fn push_comma_joined(out: &mut Vec<char>, parts: &Vec<String>)
    ensures
        final(out)@ == old(out)@ + comma_joined(parts@.map_values(|s: String| s@)),
{
    let ghost start = out@;
    let ghost pv = parts@.map_values(|s: String| s@);
    let mut i: usize = 0;
    while i < parts.len()
        invariant
            i <= parts@.len(),
            pv == parts@.map_values(|s: String| s@),
            out@ == start + comma_joined(pv.take(i as int)),
        decreases parts.len() - i,
    {
        proof {
            assert(pv.take(i + 1).drop_last() =~= pv.take(i as int));
            assert(pv.take(i + 1).last() == parts@[i as int]@);
        }
        if i > 0 {
            push_str(out, ", ");
        }
        push_str(out, parts[i].as_str());
        proof {
            if i == 0 {
                assert(pv.take(1) =~= seq![parts@[0]@]);
                assert(pv.take(0) =~= Seq::<Seq<char>>::empty());
            }
            assert(out@ =~= start + comma_joined(pv.take(i + 1)));
        }
        i += 1;
    }
    proof {
        assert(pv.take(pv.len() as int) =~= pv);
    }
}

/// Checks that the static layer holds only terrain and thing sprites and the
/// dynamic layer only pawn-node sprites, by their def names; the error
/// lists the misplaced names of the first layer that has any.
pub fn validate_layer_ownership(static_names: &[String], dynamic_names: &[String]) -> (r: Result<(), String>)
    ensures
        ({
            let bad_static = names_outside(static_names@, static_prefixes());
            let bad_dynamic = names_outside(dynamic_names@, dynamic_prefixes());
            if bad_static.len() > 0 {
                r matches Err(msg) && msg@ == static_violation_text(bad_static)
            } else if bad_dynamic.len() > 0 {
                r matches Err(msg) && msg@ == dynamic_violation_text(bad_dynamic)
            } else {
                r is Ok
            }
        }),
{
    let sp = vec![chars_of("Terrain::"), chars_of("Thing::")];
    let ghost sps = static_prefixes();
    proof {
        assert(sp@.map_values(|p: Vec<char>| p@) =~= sps);
    }
    let bad_static = outside(static_names, &sp, Ghost(sps));
    if bad_static.len() > 0 {
        let mut out: Vec<char> = Vec::new();
        push_str(&mut out, "v2 layer ownership violation: static layer contains non-terrain/non-thing sprites: ");
        push_comma_joined(&mut out, &bad_static);
        return Err(string_of(out.as_slice()));
    }
    let dp = vec![chars_of("PawnNode::")];
    let ghost dps = dynamic_prefixes();
    proof {
        assert(dp@.map_values(|p: Vec<char>| p@) =~= dps);
    }
    let bad_dynamic = outside(dynamic_names, &dp, Ghost(dps));
    if bad_dynamic.len() > 0 {
        let mut out: Vec<char> = Vec::new();
        push_str(&mut out, "v2 layer ownership violation: dynamic layer contains non-pawn sprites: ");
        push_comma_joined(&mut out, &bad_dynamic);
        return Err(string_of(out.as_slice()));
    }
    Ok(())
}

/// Def `i` is a least eligible name, the first such.
pub open spec fn first_least(names: Seq<String>, eligible: Seq<bool>, i: int) -> bool {
    &&& 0 <= i < names.len()
    &&& i < eligible.len() && eligible[i]
    &&& forall|j: int| 0 <= j < names.len() && j < eligible.len() && eligible[j] ==> str_le(names[i]@, #[trigger] names[j]@)
    &&& forall|j: int| 0 <= j < i && j < eligible.len() && eligible[j] ==> str_lt(names[i]@, #[trigger] names[j]@)
}

/// The def to use, by index into `names`: the one named `preferred` when
/// there is one (the first such); else the eligible def whose name sorts
/// first; none when no def is eligible.
pub fn choose_def(names: &[String], eligible: &[bool], preferred: Option<&str>) -> (r: Option<usize>)
    ensures
        ({
            let named = preferred matches Some(p) && exists|i: int| 0 <= i < names@.len() && (#[trigger] names@[i])@ == p@;
            if named {
                r matches Some(i) && preferred matches Some(p) && i < names@.len() && names@[i as int]@ == p@
                    && forall|j: int| 0 <= j < i ==> (#[trigger] names@[j])@ != p@
            } else {
                match r {
                    Some(i) => first_least(names@, eligible@, i as int),
                    None => forall|j: int| 0 <= j < names@.len() && j < eligible@.len() ==> !(#[trigger] eligible@[j]),
                }
            }
        }),
{
    if let Some(p) = preferred {
        let mut i: usize = 0;
        while i < names.len()
            invariant
                i <= names@.len(),
                preferred == Some(p),
                forall|j: int| 0 <= j < i ==> (#[trigger] names@[j])@ != p@,
            decreases names.len() - i,
        {
            if str_eq(names[i].as_str(), p) {
                proof {
                    assert(names@[i as int]@ == p@);
                }
                return Some(i);
            }
            i += 1;
        }
    }
    let mut best: Option<usize> = None;
    let mut i: usize = 0;
    while i < names.len()
        invariant
            i <= names@.len(),
            match best {
                Some(b) => first_least(names@.take(i as int), eligible@, b as int),
                None => forall|j: int| 0 <= j < i && j < eligible@.len() ==> !(#[trigger] eligible@[j]),
            },
        decreases names.len() - i,
    {
        if i < eligible.len() && eligible[i] {
            match best {
                None => {
                    best = Some(i);
                },
                Some(b) => {
                    if string_lt(names[i].as_str(), names[b].as_str()) {
                        proof {
                            crate::lexical::lemma_lt_total(names@[i as int]@, names@[b as int]@);
                            assert forall|j: int| 0 <= j < i + 1 && j < eligible@.len() && eligible@[j] implies str_le(names@[i as int]@, #[trigger] names@.take(i + 1)[j]@) by {
                                if j < i {
                                    assert(names@.take(i + 1)[j] == names@.take(i as int)[j]);
                                    assert(str_le(names@[b as int]@, names@.take(i as int)[j]@));
                                    crate::lexical::lemma_lt_total(names@[i as int]@, names@[j]@);
                                    if str_lt(names@[j]@, names@[i as int]@) {
                                        crate::lexical::lemma_lt_transitive(names@[j]@, names@[i as int]@, names@[b as int]@);
                                    }
                                } else {
                                    crate::lexical::lemma_lt_irreflexive(names@[i as int]@);
                                }
                            }
                            assert forall|j: int| 0 <= j < i && j < eligible@.len() && eligible@[j] implies str_lt(names@[i as int]@, #[trigger] names@.take(i + 1)[j]@) by {
                                assert(names@.take(i + 1)[j] == names@.take(i as int)[j]);
                                assert(str_le(names@[b as int]@, names@.take(i as int)[j]@));
                                crate::lexical::lemma_lt_total(names@[b as int]@, names@[j]@);
                                if names@[b as int]@ == names@[j]@ {
                                } else {
                                    crate::lexical::lemma_lt_transitive(names@[i as int]@, names@[b as int]@, names@[j]@);
                                }
                            }
                        }
                        best = Some(i);
                    }
                },
            }
        }
        proof {
            match best {
                Some(b) => {
                    assert forall|j: int| 0 <= j < i + 1 && j < names@.take(i + 1).len() && j < eligible@.len() && eligible@[j] implies str_le(names@.take(i + 1)[b as int]@, #[trigger] names@.take(i + 1)[j]@) by {
                        if j < i {
                            assert(names@.take(i + 1)[j] == names@.take(i as int)[j]);
                        }
                        if b == i {
                            if j == i {
                                crate::lexical::lemma_lt_irreflexive(names@[i as int]@);
                            }
                        }
                    }
                },
                None => {},
            }
        }
        i += 1;
    }
    proof {
        assert(names@.take(names@.len() as int) =~= names@);
    }
    best
}

} // verus!
