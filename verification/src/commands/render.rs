//! The placement and export naming of the `render` command's sprites.
use vstd::prelude::*;

use crate::assets::index_text::decimal;
use crate::text::{push_decimal, push_str, string_of};

verus! {

/// Where the `index`-th def of a render sheet stands, as (column, row):
/// rows of `columns` defs, or all in one row when `columns` is zero.
pub fn sheet_slot(index: usize, columns: usize) -> (r: (usize, usize))
    ensures
        columns > 0 ==> r == ((index % columns) as usize, (index / columns) as usize),
        columns == 0 ==> r == (index, 0usize),
{
    if columns > 0 {
        (index % columns, index / columns)
    } else {
        (index, 0)
    }
}

pub open spec fn or_default(v: Option<&str>, d: Seq<char>) -> Seq<char> {
    match v {
        Some(s) => s@,
        None => d,
    }
}

/// The file name of the `index`-th of several exported sprites:
/// `{stem}_{index}_{def_name}.{extension}`, with `resolved` and `png` where
/// the export path has no stem or no extension.
pub fn export_file_name(stem: Option<&str>, extension: Option<&str>, index: usize, def_name: &str) -> (r: String)
    ensures
        r@ == or_default(stem, "resolved"@) + "_"@ + decimal(index as nat) + "_"@ + def_name@ + "."@
            + or_default(extension, "png"@),
{
    let mut out: Vec<char> = Vec::new();
    match stem {
        Some(s) => push_str(&mut out, s),
        None => push_str(&mut out, "resolved"),
    }
    push_str(&mut out, "_");
    push_decimal(&mut out, index);
    push_str(&mut out, "_");
    push_str(&mut out, def_name);
    push_str(&mut out, ".");
    match extension {
        Some(e) => push_str(&mut out, e),
        None => push_str(&mut out, "png"),
    }
    proof {
        assert(out@ =~= or_default(stem, "resolved"@) + "_"@ + decimal(index as nat) + "_"@ + def_name@ + "."@
            + or_default(extension, "png"@));
    }
    string_of(out.as_slice())
}

} // verus!
