//! The `list-defs` listing: thing defs sorted by name, filtered by a text
//! that the name or texture path holds (Unicode case ignored), up to a limit.
use vstd::prelude::*;

use crate::assets::index_text::decimal;
use crate::assets::ranking::{insert_by_path, insert_member};
use crate::defs::numbers::strings_view;
use crate::defs::render_defs::ThingDef;
use crate::defs::xml::opt_view;
use crate::text::{chars_of, contains, contains_chars, push_decimal, push_str, string_of, unicode_lower_str, unicode_lowercase};

verus! {

broadcast use vstd::string::group_string_axioms;

pub open spec fn def_names(defs: Seq<ThingDef>) -> Seq<String> {
    defs.map_values(|d: ThingDef| d.def_name)
}

/// The first `n` defs, by index, stably sorted by name.
pub open spec fn by_name(names: Seq<String>, n: int) -> Seq<usize>
    decreases n,
{
    if n <= 0 {
        Seq::empty()
    } else {
        insert_by_path(by_name(names, n - 1), (n - 1) as usize, names)
    }
}

/// Def `d` is listed under the lower-cased filter `f`.
pub open spec fn shown_under(d: ThingDef, f: Option<Seq<char>>) -> bool {
    match f {
        None => true,
        Some(t) => contains(unicode_lowercase(d.def_name@), t) || contains(
            unicode_lowercase(d.graphic_data.tex_path@),
            t,
        ),
    }
}

/// The listing line of a def.
pub open spec fn def_line(d: ThingDef) -> Seq<char> {
    d.def_name@ + " | texPath="@ + d.graphic_data.tex_path@ + " | class="@ + match opt_view(d.graphic_data.graphic_class) {
        Some(c) => c,
        None => "Graphic_Single"@,
    }
}

/// The lines for the defs at the first `k` places of `order` that pass the
/// filter, no more than `limit` of them.
pub open spec fn listed(defs: Seq<ThingDef>, order: Seq<usize>, f: Option<Seq<char>>, limit: int, k: int) -> Seq<Seq<char>>
    decreases k,
{
    if k <= 0 {
        Seq::empty()
    } else {
        let before = listed(defs, order, f, limit, k - 1);
        let d = defs[order[k - 1] as int];
        if before.len() < limit && shown_under(d, f) {
            before.push(def_line(d))
        } else {
            before
        }
    }
}

pub open spec fn listing(defs: Seq<ThingDef>, filter: Option<Seq<char>>, limit: int) -> Seq<Seq<char>> {
    let f = match filter {
        Some(t) => Some(unicode_lowercase(t)),
        None => None,
    };
    let order = by_name(def_names(defs), defs.len() as int);
    let rows = listed(defs, order, f, limit, order.len() as int);
    rows.push("shown "@ + decimal(rows.len()) + " defs (limit "@ + decimal(limit as nat) + ")"@)
}

fn line_of(d: &ThingDef) -> (r: String)
    ensures
        r@ == def_line(*d),
{
    let mut out: Vec<char> = Vec::new();
    push_str(&mut out, d.def_name.as_str());
    push_str(&mut out, " | texPath=");
    push_str(&mut out, d.graphic_data.tex_path.as_str());
    push_str(&mut out, " | class=");
    match &d.graphic_data.graphic_class {
        Some(c) => push_str(&mut out, c.as_str()),
        None => push_str(&mut out, "Graphic_Single"),
    }
    proof {
        assert(out@ =~= def_line(*d));
    }
    string_of(out.as_slice())
}

/// The lines `list-defs` prints: a line per listed def, then how many were
/// shown.
pub fn list_defs(defs: &[ThingDef], filter: Option<&str>, limit: usize) -> (r: Vec<String>)
    ensures
        strings_view(r@) == listing(
            defs@,
            match filter {
                Some(t) => Some(t@),
                None => None,
            },
            limit as int,
        ),
{
    let mut names: Vec<String> = Vec::new();
    let mut i: usize = 0;
    while i < defs.len()
        invariant
            i <= defs@.len(),
            names@ == def_names(defs@.take(i as int)),
        decreases defs.len() - i,
    {
        names.push(defs[i].def_name.clone());
        proof {
            assert(def_names(defs@.take(i + 1)) =~= def_names(defs@.take(i as int)).push(defs@[i as int].def_name));
        }
        i += 1;
    }
    proof {
        assert(defs@.take(defs@.len() as int) =~= defs@);
    }
    let mut order: Vec<usize> = Vec::new();
    let mut j: usize = 0;
    while j < defs.len()
        invariant
            j <= defs@.len(),
            names@ == def_names(defs@),
            names@.len() == defs@.len(),
            order@ == by_name(names@, j as int),
            forall|q: int| 0 <= q < order@.len() ==> order@[q] < names@.len(),
        decreases defs.len() - j,
    {
        insert_member(&mut order, j, names.as_slice());
        j += 1;
    }
    let ghost f = match filter {
        Some(t) => Some(unicode_lowercase(t@)),
        None => None::<Seq<char>>,
    };
    let lowered: Option<Vec<char>> = match filter {
        Some(t) => Some(chars_of(unicode_lower_str(t).as_str())),
        None => None,
    };
    let mut out: Vec<String> = Vec::new();
    let ghost mut lines: Seq<Seq<char>> = Seq::empty();
    let mut k: usize = 0;
    while k < order.len()
        invariant
            k <= order@.len(),
            order@ == by_name(def_names(defs@), defs@.len() as int),
            forall|q: int| 0 <= q < order@.len() ==> order@[q] < defs@.len(),
            match lowered {
                Some(l) => f == Some(l@),
                None => f is None,
            },
            lines == listed(defs@, order@, f, limit as int, k as int),
            strings_view(out@) == lines,
            out@.len() == lines.len(),
        decreases order.len() - k,
    {
        let d = &defs[order[k]];
        let pass = match &lowered {
            None => true,
            Some(l) => {
                let n = chars_of(unicode_lower_str(d.def_name.as_str()).as_str());
                let t = chars_of(unicode_lower_str(d.graphic_data.tex_path.as_str()).as_str());
                contains_chars(n.as_slice(), l.as_slice()) || contains_chars(t.as_slice(), l.as_slice())
            },
        };
        if out.len() < limit && pass {
            let line = line_of(d);
            let ghost before = out@;
            out.push(line);
            proof {
                lines = lines.push(def_line(*d));
                assert(strings_view(out@) =~= lines) by {
                    assert forall|q: int| 0 <= q < out@.len() implies #[trigger] strings_view(out@)[q] == lines[q] by {
                        if q < before.len() {
                            assert(out@[q] == before[q]);
                        }
                    }
                }
            }
        }
        k += 1;
    }
    let mut last: Vec<char> = Vec::new();
    push_str(&mut last, "shown ");
    push_decimal(&mut last, out.len());
    push_str(&mut last, " defs (limit ");
    push_decimal(&mut last, limit);
    push_str(&mut last, ")");
    let ghost before = out@;
    out.push(string_of(last.as_slice()));
    proof {
        let want = listing(defs@, match filter {
            Some(t) => Some(t@),
            None => None,
        }, limit as int);
        assert(strings_view(out@) =~= want) by {
            assert forall|q: int| 0 <= q < out@.len() implies #[trigger] strings_view(out@)[q] == want[q] by {
                if q < before.len() {
                    assert(out@[q] == before[q]);
                }
            }
        }
    }
    out
}


/// The first `limit` entries, by index, of `names` stably sorted.
pub fn first_by_name(names: &[String], limit: usize) -> (r: Vec<usize>)
    ensures
        r@ == by_name(names@, names@.len() as int).take(
            if limit < names@.len() {
                limit as int
            } else {
                names@.len() as int
            },
        ),
{
    let mut order: Vec<usize> = Vec::new();
    let mut j: usize = 0;
    while j < names.len()
        invariant
            j <= names@.len(),
            order@ == by_name(names@, j as int),
            forall|q: int| 0 <= q < order@.len() ==> order@[q] < names@.len(),
        decreases names.len() - j,
    {
        insert_member(&mut order, j, names);
        j += 1;
    }
    proof {
        lemma_by_name_len(names@, names@.len() as int);
    }
    let n = if limit < names.len() { limit } else { names.len() };
    let mut out: Vec<usize> = Vec::new();
    let mut k: usize = 0;
    while k < n
        invariant
            k <= n,
            n <= order@.len(),
            out@ == order@.take(k as int),
        decreases n - k,
    {
        out.push(order[k]);
        proof {
            assert(order@.take(k + 1) =~= order@.take(k as int).push(order@[k as int]));
        }
        k += 1;
    }
    out
}

proof fn lemma_insert_len(s: Seq<usize>, x: usize, names: Seq<String>)
    ensures
        insert_by_path(s, x, names).len() == s.len() + 1,
    decreases s.len(),
{
    if s.len() > 0 {
        lemma_insert_len(s.drop_last(), x, names);
    }
}

pub(crate) proof fn lemma_by_name_len(names: Seq<String>, n: int)
    requires
        n >= 0,
    ensures
        by_name(names, n).len() == n,
    decreases n,
{
    if n > 0 {
        lemma_by_name_len(names, n - 1);
        lemma_insert_len(by_name(names, n - 1), (n - 1) as usize, names);
    }
}

} // verus!
