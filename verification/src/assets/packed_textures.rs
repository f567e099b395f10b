//! Packed-texture bookkeeping that needs no Unity data: where packed roots
//! are looked for, how exported files are named, the tallies reported by
//! probes and extraction, and the decision taken after a decode probe.
use vstd::prelude::*;

use super::paths::{dedupe_paths, dedupe_spec, join_path, join_spec, parent_dir, parent_spec, views};
use crate::text::{
    chars_of, contains, contains_chars, lower, lower_chars, push_i64, push_str, signed_decimal, string_of, trim_end_by,
    trim_start_by,
};

verus! {

/// The outcome of trying to decode some candidate textures.
pub struct PackedProbeSummary {
    pub attempted: usize,
    pub succeeded: usize,
    pub sample_errors: Vec<(String, String)>,
}

/// Tallies of an extraction of every packed texture.
#[derive(Debug, Clone, Copy, PartialEq, Eq, Structural)]
pub struct PackedTextureExtractionSummary {
    pub scanned_textures: usize,
    pub exported_textures: usize,
    pub failed_textures: usize,
}

/// The outcome of decoding a sample of packed textures.
pub struct PackedDecodeHealth {
    pub attempted: usize,
    pub succeeded: usize,
    pub sample_errors: Vec<String>,
}

/// What a decode probe reports, and whether packed lookups are to be
/// turned off because nothing in the sample decoded.
pub struct PackedDecodeProbeOutcome {
    pub attempted: usize,
    pub succeeded: usize,
    pub sample_errors: Vec<String>,
    pub disable_packed: bool,
}

/// The outcome of a decode probe over a sample: none when the sample is
/// smaller than `min_attempts`; else its tallies, with packed lookups to be
/// turned off when no texture decoded.
pub fn decode_probe_outcome(health: PackedDecodeHealth, min_attempts: usize) -> (r: Option<PackedDecodeProbeOutcome>)
    ensures
        health.attempted < min_attempts <==> r is None,
        r matches Some(o) ==> {
            &&& o.attempted == health.attempted
            &&& o.succeeded == health.succeeded
            &&& o.sample_errors@ == health.sample_errors@
            &&& o.disable_packed == (health.succeeded == 0)
        },
{
    if health.attempted < min_attempts {
        return None;
    }
    let disable_packed = health.succeeded == 0;
    Some(PackedDecodeProbeOutcome {
        attempted: health.attempted,
        succeeded: health.succeeded,
        sample_errors: health.sample_errors,
        disable_packed,
    })
}

/// `p/Contents/Resources/Data`.
pub open spec fn resources_data(p: Seq<char>) -> Seq<char> {
    join_spec(join_spec(join_spec(p, "Contents"@), "Resources"@), "Data"@)
}

/// Where packed data may lie for a game found at `input_path` with its data
/// folder at `data_dir`: inside a Mac app bundle under the input, in the
/// bundle layout of the input, of the data folder, and of the data folder's
/// parent; each kept once.
pub open spec fn packed_root_candidates(input_path: Seq<char>, data_dir: Seq<char>) -> Seq<Seq<char>> {
    let base = seq![
        resources_data(join_spec(input_path, "RimWorldMac.app"@)),
        resources_data(input_path),
        resources_data(data_dir),
    ];
    match parent_spec(data_dir) {
        Some(parent) => base.push(resources_data(parent)),
        None => base,
    }
}

fn resources_data_path(p: &str) -> (r: String)
    ensures
        r@ == resources_data(p@),
{
    let a = join_path(p, "Contents");
    let b = join_path(a.as_str(), "Resources");
    join_path(b.as_str(), "Data")
}

pub fn infer_packed_data_roots(input_path: &str, data_dir: &str) -> (r: Vec<String>)
    ensures
        views(r@) == dedupe_spec(packed_root_candidates(input_path@, data_dir@)),
{
    let mut roots: Vec<String> = Vec::new();
    let app = join_path(input_path, "RimWorldMac.app");
    roots.push(resources_data_path(app.as_str()));
    roots.push(resources_data_path(input_path));
    roots.push(resources_data_path(data_dir));
    let parent = parent_dir(data_dir);
    match parent {
        Some(p) => {
            roots.push(resources_data_path(p.as_str()));
        },
        None => {},
    }
    proof {
        assert(views(roots@) =~= packed_root_candidates(input_path@, data_dir@));
    }
    dedupe_paths(roots)
}

/// Characters kept in an exported file name: ASCII letters and digits,
/// `_` and `-`.
pub open spec fn file_name_char(c: char) -> bool {
    ('a' <= c && c <= 'z') || ('A' <= c && c <= 'Z') || ('0' <= c && c <= '9') || c == '_' || c == '-'
}

pub open spec fn replaced(input: Seq<char>) -> Seq<char> {
    input.map_values(|c: char| if file_name_char(c) { c } else { '_' })
}

/// A file name made from a texture name: other characters become `_`,
/// leading and trailing `_` are dropped, and an empty result becomes
/// `texture`.
pub open spec fn sanitized(input: Seq<char>) -> Seq<char> {
    let t = trim_end_by(trim_start_by(replaced(input), |c: char| c == '_'), |c: char| c == '_');
    if t.len() == 0 {
        "texture"@
    } else {
        t
    }
}

pub fn sanitize_filename(input: &str) -> (r: String)
    ensures
        r@ == sanitized(input@),
{
    let c = chars_of(input);
    let mut out: Vec<char> = Vec::new();
    let mut i: usize = 0;
    while i < c.len()
        invariant
            i <= c@.len(),
            c@ == input@,
            out@ == replaced(c@.take(i as int)),
        decreases c.len() - i,
    {
        let ch = c[i];
        let keep = ('a' <= ch && ch <= 'z') || ('A' <= ch && ch <= 'Z') || ('0' <= ch && ch <= '9') || ch == '_' || ch == '-';
        if keep {
            out.push(ch);
        } else {
            out.push('_');
        }
        proof {
            assert(replaced(c@.take(i + 1)) =~= replaced(c@.take(i as int)).push(if file_name_char(ch) { ch } else { '_' }));
        }
        i += 1;
    }
    proof {
        assert(c@.take(c@.len() as int) =~= c@);
    }
    let t = trim_underscores(out.as_slice());
    if t.len() == 0 {
        String::from_str("texture")
    } else {
        string_of(t.as_slice())
    }
}

proof fn lemma_trim_start_by(s: Seq<char>, f: spec_fn(char) -> bool, k: int)
    requires
        0 <= k <= s.len(),
        forall|j: int| 0 <= j < k ==> f(#[trigger] s[j]),
        k == s.len() || !f(s[k]),
    ensures
        trim_start_by(s, f) == s.skip(k),
    decreases k,
{
    if k == 0 {
        assert(s.skip(0) =~= s);
    } else {
        let t = s.drop_first();
        assert forall|j: int| 0 <= j < k - 1 implies f(#[trigger] t[j]) by {
            assert(t[j] == s[j + 1]);
        }
        if k - 1 < t.len() {
            assert(t[k - 1] == s[k]);
        }
        lemma_trim_start_by(t, f, k - 1);
        assert(t.skip(k - 1) =~= s.skip(k));
    }
}

proof fn lemma_trim_end_by(s: Seq<char>, f: spec_fn(char) -> bool, k: int)
    requires
        0 <= k <= s.len(),
        forall|j: int| k <= j < s.len() ==> f(#[trigger] s[j]),
        k == 0 || !f(s[k - 1]),
    ensures
        trim_end_by(s, f) == s.take(k),
    decreases s.len() - k,
{
    if k == s.len() {
        assert(s.take(k) =~= s);
    } else {
        let t = s.drop_last();
        assert forall|j: int| k <= j < t.len() implies f(#[trigger] t[j]) by {
            assert(t[j] == s[j]);
        }
        if k > 0 {
            assert(t[k - 1] == s[k - 1]);
        }
        lemma_trim_end_by(t, f, k);
        assert(t.take(k) =~= s.take(k));
    }
}

fn trim_underscores(s: &[char]) -> (r: Vec<char>)
    ensures
        r@ == trim_end_by(trim_start_by(s@, |c: char| c == '_'), |c: char| c == '_'),
{
    let ghost f = |c: char| c == '_';
    let mut a: usize = 0;
    while a < s.len() && s[a] == '_'
        invariant
            a <= s@.len(),
            forall|j: int| 0 <= j < a ==> #[trigger] s@[j] == '_',
        decreases s.len() - a,
    {
        a += 1;
    }
    proof {
        assert forall|j: int| 0 <= j < a implies f(#[trigger] s@[j]) by {}
        lemma_trim_start_by(s@, f, a as int);
    }
    let ghost t = s@.skip(a as int);
    let mut b: usize = s.len();
    while b > a && s[b - 1] == '_'
        invariant
            a <= b <= s@.len(),
            forall|j: int| b <= j < s@.len() ==> #[trigger] s@[j] == '_',
        decreases b - a,
    {
        b -= 1;
    }
    proof {
        assert forall|j: int| (b - a) <= j < t.len() implies f(#[trigger] t[j]) by {
            assert(t[j] == s@[j + a]);
        }
        if b > a {
            assert(t[b - a - 1] == s@[b - 1]);
        }
        lemma_trim_end_by(t, f, (b - a) as int);
    }
    let mut out: Vec<char> = Vec::new();
    let mut i: usize = a;
    while i < b
        invariant
            a <= i <= b,
            b <= s@.len(),
            out@ == s@.subrange(a as int, i as int),
        decreases b - i,
    {
        out.push(s[i]);
        proof {
            assert(s@.subrange(a as int, i + 1) == s@.subrange(a as int, i as int).push(s@[i as int]));
        }
        i += 1;
    }
    proof {
        assert(out@ =~= t.take((b - a) as int));
    }
    out
}

/// The paths, in order, that hold `needle`.
pub open spec fn paths_holding(paths: Seq<String>, needle: Seq<char>) -> Seq<Seq<char>>
    decreases paths.len(),
{
    if paths.len() == 0 {
        Seq::empty()
    } else {
        let p = paths_holding(paths.drop_last(), needle);
        if contains(paths.last()@, needle) {
            p.push(paths.last()@)
        } else {
            p
        }
    }
}

/// Up to `limit` container paths holding the lower-cased `query`, in
/// container order.
pub fn search_container_paths(container_paths: &[String], query: &str, limit: usize) -> (r: Vec<String>)
    ensures
        views(r@) == paths_holding(container_paths@, lower(query@)).take(
            if limit < paths_holding(container_paths@, lower(query@)).len() {
                limit as int
            } else {
                paths_holding(container_paths@, lower(query@)).len() as int
            },
        ),
{
    let needle = lower_chars(chars_of(query).as_slice());
    let mut out: Vec<String> = Vec::new();
    let mut i: usize = 0;
    while i < container_paths.len() && out.len() < limit
        invariant
            i <= container_paths@.len(),
            needle@ == lower(query@),
            out@.len() <= limit,
            views(out@) == paths_holding(container_paths@.take(i as int), needle@),
        decreases container_paths.len() - i,
    {
        proof {
            assert(container_paths@.take(i + 1).drop_last() =~= container_paths@.take(i as int));
        }
        let c = chars_of(container_paths[i].as_str());
        if contains_chars(c.as_slice(), needle.as_slice()) {
            let ghost before = out@;
            out.push(container_paths[i].clone());
            proof {
                assert(views(out@) =~= views(before).push(container_paths@[i as int]@));
            }
        }
        i += 1;
    }
    proof {
        lemma_paths_holding_prefix(container_paths@, needle@, i as int);
        let all = paths_holding(container_paths@, needle@);
        if i == container_paths@.len() {
            assert(container_paths@.take(i as int) =~= container_paths@);
            assert(all.take(all.len() as int) =~= all);
        }
    }
    out
}

/// The matches among the first `i` paths open the matches among all.
proof fn lemma_paths_holding_prefix(paths: Seq<String>, needle: Seq<char>, i: int)
    requires
        0 <= i <= paths.len(),
    ensures
        paths_holding(paths.take(i), needle).len() <= paths_holding(paths, needle).len(),
        paths_holding(paths, needle).take(paths_holding(paths.take(i), needle).len() as int)
            == paths_holding(paths.take(i), needle),
    decreases paths.len() - i,
{
    if i == paths.len() {
        assert(paths.take(i) =~= paths);
        let a = paths_holding(paths, needle);
        assert(a.take(a.len() as int) =~= a);
    } else {
        lemma_paths_holding_prefix(paths, needle, i + 1);
        let small = paths_holding(paths.take(i), needle);
        let big = paths_holding(paths.take(i + 1), needle);
        assert(paths.take(i + 1).drop_last() =~= paths.take(i));
        let all = paths_holding(paths, needle);
        assert(all.take(big.len() as int) == big);
        if big.len() > small.len() {
            assert(big == small.push(paths[i]@));
            assert(all.take(small.len() as int) =~= big.take(small.len() as int));
            assert(big.take(small.len() as int) =~= small);
        }
    }
}


/// The file name a packed texture is extracted to: its name (or
/// `pathid_` and its path id when it has none) made safe for a file name,
/// then `_`, the path id and `.png`.
pub open spec fn extracted_name(name: Option<Seq<char>>, path_id: i64) -> Seq<char> {
    let base = match name {
        Some(n) => n,
        None => "pathid_"@ + signed_decimal(path_id as int),
    };
    sanitized(base) + "_"@ + signed_decimal(path_id as int) + ".png"@
}

pub fn extracted_texture_file_name(name: Option<&str>, path_id: i64) -> (r: String)
    ensures
        r@ == extracted_name(
            match name {
                Some(n) => Some(n@),
                None => None,
            },
            path_id,
        ),
{
    let base = match name {
        Some(n) => sanitize_filename(n),
        None => {
            let mut b: Vec<char> = Vec::new();
            push_str(&mut b, "pathid_");
            push_i64(&mut b, path_id);
            let bs = string_of(b.as_slice());
            sanitize_filename(bs.as_str())
        },
    };
    let mut out: Vec<char> = chars_of(base.as_str());
    push_str(&mut out, "_");
    push_i64(&mut out, path_id);
    push_str(&mut out, ".png");
    string_of(out.as_slice())
}

} // verus!
