//! Reading the apparel fields of a def: layer names, skip flags, booleans,
//! the outermost layer worn and the head groups covered.
use vstd::prelude::*;

use super::numbers::strings_view;
use super::{def_layer_rank, ApparelLayerDef, ApparelSkipFlagDef};
use crate::text::{after_last, after_last_chars, chars_of, contains, contains_chars, lower, lower_chars, string_of, trim, trim_chars};

verus! {

/// The layer a name gives, read after its last `.`.
pub open spec fn layer_named(input: Seq<char>) -> Option<ApparelLayerDef> {
    let name = after_last(input, '.');
    if name == "OnSkin"@ {
        Some(ApparelLayerDef::OnSkin)
    } else if name == "Middle"@ {
        Some(ApparelLayerDef::Middle)
    } else if name == "Shell"@ {
        Some(ApparelLayerDef::Shell)
    } else if name == "Belt"@ {
        Some(ApparelLayerDef::Belt)
    } else if name == "Overhead"@ {
        Some(ApparelLayerDef::Overhead)
    } else if name == "EyeCover"@ {
        Some(ApparelLayerDef::EyeCover)
    } else {
        None
    }
}

/// The skip flag a name gives, read after its last `.`.
pub open spec fn skip_flag_named(input: Seq<char>) -> Option<ApparelSkipFlagDef> {
    let name = after_last(input, '.');
    if name == "Hair"@ {
        Some(ApparelSkipFlagDef::Hair)
    } else if name == "Beard"@ {
        Some(ApparelSkipFlagDef::Beard)
    } else {
        None
    }
}

fn is_word(s: &[char], w: &str) -> (r: bool)
    ensures
        r == (s@ == w@),
{
    let wc = chars_of(w);
    crate::text::chars_eq(s, wc.as_slice())
}

pub fn parse_apparel_layer_def(input: &str) -> (r: Option<ApparelLayerDef>)
    ensures
        r == layer_named(input@),
{
    let name = after_last_chars(chars_of(input).as_slice(), '.');
    let n = name.as_slice();
    if is_word(n, "OnSkin") {
        Some(ApparelLayerDef::OnSkin)
    } else if is_word(n, "Middle") {
        Some(ApparelLayerDef::Middle)
    } else if is_word(n, "Shell") {
        Some(ApparelLayerDef::Shell)
    } else if is_word(n, "Belt") {
        Some(ApparelLayerDef::Belt)
    } else if is_word(n, "Overhead") {
        Some(ApparelLayerDef::Overhead)
    } else if is_word(n, "EyeCover") {
        Some(ApparelLayerDef::EyeCover)
    } else {
        None
    }
}

pub fn parse_apparel_skip_flag_def(input: &str) -> (r: Option<ApparelSkipFlagDef>)
    ensures
        r == skip_flag_named(input@),
{
    let name = after_last_chars(chars_of(input).as_slice(), '.');
    let n = name.as_slice();
    if is_word(n, "Hair") {
        Some(ApparelSkipFlagDef::Hair)
    } else if is_word(n, "Beard") {
        Some(ApparelSkipFlagDef::Beard)
    } else {
        None
    }
}

/// `true` or `false` in any ASCII case, around whitespace.
pub open spec fn bool_named(input: Seq<char>) -> Option<bool> {
    let t = lower(trim(input));
    if t == "true"@ {
        Some(true)
    } else if t == "false"@ {
        Some(false)
    } else {
        None
    }
}

pub fn parse_bool(input: &str) -> (r: Option<bool>)
    ensures
        r == bool_named(input@),
{
    let t = trim_chars(chars_of(input).as_slice());
    let l = lower_chars(t.as_slice());
    if is_word(l.as_slice(), "true") {
        Some(true)
    } else if is_word(l.as_slice(), "false") {
        Some(false)
    } else {
        None
    }
}

/// The layer worn after reading the first `n` layer names: the skin to
/// start with, then each named layer that draws no earlier than the one
/// held.
pub open spec fn worn_layer(names: Seq<Seq<char>>, n: int) -> ApparelLayerDef
    decreases n,
{
    if n <= 0 {
        ApparelLayerDef::OnSkin
    } else {
        let cur = worn_layer(names, n - 1);
        match layer_named(names[n - 1]) {
            Some(l) => if def_layer_rank(l) >= def_layer_rank(cur) {
                l
            } else {
                cur
            },
            None => cur,
        }
    }
}

/// The outermost of the listed layers; the skin when none is named.
pub fn outermost_layer(names: &[String]) -> (r: ApparelLayerDef)
    ensures
        r == worn_layer(strings_view(names@), names@.len() as int),
{
    let ghost nv = strings_view(names@);
    let mut layer = ApparelLayerDef::OnSkin;
    let mut i: usize = 0;
    while i < names.len()
        invariant
            i <= names@.len(),
            nv == strings_view(names@),
            layer == worn_layer(nv, i as int),
        decreases names.len() - i,
    {
        proof {
            assert(nv[i as int] == names@[i as int]@);
        }
        match parse_apparel_layer_def(names[i].as_str()) {
            Some(l) => {
                if l.draw_order() >= layer.draw_order() {
                    layer = l;
                }
            },
            None => {},
        }
        i += 1;
    }
    layer
}

/// Some group, lower-cased, holds `word`.
pub open spec fn some_group_holds(groups: Seq<Seq<char>>, word: Seq<char>) -> bool {
    exists|i: int| 0 <= i < groups.len() && contains(lower(#[trigger] groups[i]), word)
}

/// The head coverage a def's body-part groups give: (upper head, full
/// head). A full-head group covers the upper head too.
pub fn head_coverage(groups: &[String]) -> (r: (bool, bool))
    ensures
        r.1 == some_group_holds(strings_view(groups@), "fullhead"@),
        r.0 == (some_group_holds(strings_view(groups@), "fullhead"@) || some_group_holds(
            strings_view(groups@),
            "upperhead"@,
        )),
{
    let full_word = chars_of("fullhead");
    let upper_word = chars_of("upperhead");
    let mut upper = false;
    let mut full = false;
    let mut i: usize = 0;
    while i < groups.len()
        invariant
            i <= groups@.len(),
            full_word@ == "fullhead"@,
            upper_word@ == "upperhead"@,
            full == exists|j: int| 0 <= j < i && contains(lower((#[trigger] groups@[j])@), "fullhead"@),
            upper == (full || exists|j: int| 0 <= j < i && contains(lower((#[trigger] groups@[j])@), "upperhead"@)),
        decreases groups.len() - i,
    {
        let l = lower_chars(chars_of(groups[i].as_str()).as_slice());
        let has_full = contains_chars(l.as_slice(), full_word.as_slice());
        let has_upper = contains_chars(l.as_slice(), upper_word.as_slice());
        if has_full {
            full = true;
            upper = true;
        } else if has_upper {
            upper = true;
        }
        i += 1;
    }
    proof {
        let gv = strings_view(groups@);
        assert forall|w: Seq<char>| some_group_holds(gv, w) <==> exists|j: int| 0 <= j < groups@.len() && contains(lower((#[trigger] groups@[j])@), w) by {
            if some_group_holds(gv, w) {
                let j = choose|j: int| 0 <= j < gv.len() && contains(lower(#[trigger] gv[j]), w);
                assert(gv[j] == groups@[j]@);
            }
            if exists|j: int| 0 <= j < groups@.len() && contains(lower((#[trigger] groups@[j])@), w) {
                let j = choose|j: int| 0 <= j < groups@.len() && contains(lower((#[trigger] groups@[j])@), w);
                assert(gv[j] == groups@[j]@);
            }
        }
    }
    (upper, full)
}

/// The skip flags named in a `renderSkipFlags` list, unknown names left out.
pub open spec fn skip_flags_named(names: Seq<Seq<char>>) -> Seq<ApparelSkipFlagDef>
    decreases names.len(),
{
    if names.len() == 0 {
        Seq::empty()
    } else {
        let before = skip_flags_named(names.drop_last());
        match skip_flag_named(names.last()) {
            Some(f) => before.push(f),
            None => before,
        }
    }
}

pub fn skip_flags_of(names: &[String]) -> (r: Vec<ApparelSkipFlagDef>)
    ensures
        r@ == skip_flags_named(strings_view(names@)),
{
    let ghost nv = strings_view(names@);
    let mut out: Vec<ApparelSkipFlagDef> = Vec::new();
    let mut i: usize = 0;
    while i < names.len()
        invariant
            i <= names@.len(),
            nv == strings_view(names@),
            out@ == skip_flags_named(nv.take(i as int)),
        decreases names.len() - i,
    {
        proof {
            assert(nv.take(i + 1).drop_last() =~= nv.take(i as int));
            assert(nv.take(i + 1).last() == names@[i as int]@);
        }
        match parse_apparel_skip_flag_def(names[i].as_str()) {
            Some(f) => out.push(f),
            None => {},
        }
        i += 1;
    }
    proof {
        assert(nv.take(nv.len() as int) =~= nv);
    }
    out
}

/// The name after the last `.` of a `parentTagDef`.
pub fn parent_tag_name(value: &str) -> (r: String)
    ensures
        r@ == after_last(value@, '.'),
{
    let n = after_last_chars(chars_of(value).as_slice(), '.');
    string_of(n.as_slice())
}

} // verus!
