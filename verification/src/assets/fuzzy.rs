//! Finding a loose texture by its file name when none lies at its exact
//! path: among the PNG files under a root whose stem is the texture's
//! basename (or its south or north view), the one whose path fits the
//! texture path best.
use vstd::prelude::*;

use super::ranking::{bonus, div_toward_zero};
use crate::text::{after_last, after_last_chars, chars_of, contains, contains_chars, lower, lower_chars};
use vstd::utf8::encode_utf8;

verus! {

/// The number of UTF-8 bytes of `s`, as `str::len` gives it.
pub open spec fn utf8_len(s: Seq<char>) -> int {
    (encode_utf8(s).len() as usize) as int
}

/// The stems a texture may be found under: its lowercase basename, then
/// that with `_south` and with `_north`.
pub open spec fn fuzzy_stems(tex_path: Seq<char>) -> Seq<Seq<char>> {
    let b = lower(after_last(tex_path, '/'));
    seq![b, b + "_south"@, b + "_north"@]
}

/// How well file path `path` (of `len` bytes) fits texture path
/// `tex_path`, both taken in ASCII lowercase: 100 when it holds the whole
/// texture path, 25 under a `/things/` folder, 10 under an `/item/`
/// folder, 15 when it holds the basename, less a fortieth of its byte
/// length taken as `i32` (ASCII lowercasing keeps the byte length).
pub open spec fn fuzzy_points(path: Seq<char>, len: int, tex_path: Seq<char>) -> int {
    let p = lower(path);
    let t = lower(tex_path);
    bonus(contains(p, t), 100) + bonus(contains(p, "/things/"@), 25) + bonus(contains(p, "/item/"@), 10)
        + bonus(contains(p, after_last(t, '/')), 15) - div_toward_zero((len as i32) as int, 40)
}

/// The score of file path `path` against texture path `tex_path`.
pub fn fuzzy_score(path: &str, tex_path: &str) -> (r: i32)
    ensures
        r == fuzzy_points(path@, utf8_len(path@), tex_path@),
{
    let p = lower_chars(chars_of(path).as_slice());
    let t = lower_chars(chars_of(tex_path).as_slice());
    let base = after_last_chars(t.as_slice(), '/');
    let mut score: i32 = 0;
    if contains_chars(p.as_slice(), t.as_slice()) {
        score += 100;
    }
    if contains_chars(p.as_slice(), chars_of("/things/").as_slice()) {
        score += 25;
    }
    if contains_chars(p.as_slice(), chars_of("/item/").as_slice()) {
        score += 10;
    }
    if contains_chars(p.as_slice(), base.as_slice()) {
        score += 15;
    }
    let len = path.len() as i32;
    let cut = len / 40;
    proof {
        assert(cut == div_toward_zero(len as int, 40));
    }
    score - cut
}

/// The stems that `tex_path` may be found under, in order.
pub fn fuzzy_stem_names(tex_path: &str) -> (r: Vec<Vec<char>>)
    ensures
        r@.len() == 3,
        forall|i: int| 0 <= i < 3 ==> #[trigger] r@[i]@ == fuzzy_stems(tex_path@)[i],
{
    let t = chars_of(tex_path);
    let b = lower_chars(after_last_chars(t.as_slice(), '/').as_slice());
    let south = crate::text::append_str(b.as_slice(), "_south");
    let north = crate::text::append_str(b.as_slice(), "_north");
    let r = vec![b, south, north];
    r
}

/// A regular file met under a texture root: its path as text, and its
/// stem and extension where they are UTF-8.
#[derive(Debug, Clone)]
pub struct FoundFile {
    pub path: String,
    pub stem: Option<String>,
    pub extension: Option<String>,
}

/// Whether `f` is a PNG (by its extension, in any ASCII case) whose
/// lowercase stem is one of the texture's stems.
pub open spec fn qualifies(f: FoundFile, tex_path: Seq<char>) -> bool {
    &&& f.extension matches Some(e) && lower(e@) == "png"@
    &&& f.stem matches Some(s) && fuzzy_stems(tex_path).contains(lower(s@))
}

/// The score of file `f` against `tex_path`.
pub open spec fn file_points(f: FoundFile, tex_path: Seq<char>) -> int {
    fuzzy_points(f.path@, utf8_len(f.path@), tex_path)
}

/// Whether some file of `files` qualifies.
pub open spec fn has_candidate(files: Seq<FoundFile>, tex_path: Seq<char>) -> bool {
    exists|i: int| 0 <= i < files.len() && #[trigger] qualifies(files[i], tex_path)
}

/// Whether entry `i` of `files` is the first qualifying file of the highest
/// score.
pub open spec fn is_best_candidate(files: Seq<FoundFile>, tex_path: Seq<char>, i: int) -> bool {
    &&& 0 <= i < files.len()
    &&& qualifies(files[i], tex_path)
    &&& forall|j: int|
        0 <= j < files.len() && #[trigger] qualifies(files[j], tex_path) ==> file_points(files[j], tex_path)
            <= file_points(files[i], tex_path)
    &&& forall|j: int|
        0 <= j < i && #[trigger] qualifies(files[j], tex_path) ==> file_points(files[j], tex_path)
            < file_points(files[i], tex_path)
}

fn stem_is_wanted(stem: &[char], stems: &Vec<Vec<char>>, Ghost(tex_path): Ghost<Seq<char>>) -> (r: bool)
    requires
        stems@.len() == 3,
        forall|i: int| 0 <= i < 3 ==> #[trigger] stems@[i]@ == fuzzy_stems(tex_path)[i],
    ensures
        r == fuzzy_stems(tex_path).contains(stem@),
{
    let mut k: usize = 0;
    while k < 3
        invariant
            k <= 3,
            stems@.len() == 3,
            forall|i: int| 0 <= i < 3 ==> #[trigger] stems@[i]@ == fuzzy_stems(tex_path)[i],
            forall|i: int| 0 <= i < k ==> fuzzy_stems(tex_path)[i] != stem@,
        decreases 3 - k,
    {
        if crate::text::chars_eq(stems[k].as_slice(), stem) {
            proof {
                assert(fuzzy_stems(tex_path)[k as int] == stem@);
            }
            return true;
        }
        k += 1;
    }
    false
}

fn file_qualifies(f: &FoundFile, stems: &Vec<Vec<char>>, Ghost(tex_path): Ghost<Seq<char>>) -> (r: bool)
    requires
        stems@.len() == 3,
        forall|i: int| 0 <= i < 3 ==> #[trigger] stems@[i]@ == fuzzy_stems(tex_path)[i],
    ensures
        r == qualifies(*f, tex_path),
{
    let png = match &f.extension {
        Some(e) => {
            let low = lower_chars(chars_of(e.as_str()).as_slice());
            crate::text::chars_eq(low.as_slice(), chars_of("png").as_slice())
        },
        None => false,
    };
    if !png {
        return false;
    }
    match &f.stem {
        Some(s) => {
            let low = lower_chars(chars_of(s.as_str()).as_slice());
            stem_is_wanted(low.as_slice(), stems, Ghost(tex_path))
        },
        None => false,
    }
}

/// The first qualifying file of the highest score under one root, or
/// `None` when no file qualifies.
pub fn best_fuzzy_candidate(files: &[FoundFile], tex_path: &str) -> (r: Option<usize>)
    ensures
        r is None <==> !has_candidate(files@, tex_path@),
        r matches Some(i) ==> is_best_candidate(files@, tex_path@, i as int),
{
    let stems = fuzzy_stem_names(tex_path);
    let ghost t = tex_path@;
    let mut best: Option<(i32, usize)> = None;
    let mut k: usize = 0;
    while k < files.len()
        invariant
            k <= files@.len(),
            t == tex_path@,
            stems@.len() == 3,
            forall|i: int| 0 <= i < 3 ==> #[trigger] stems@[i]@ == fuzzy_stems(t)[i],
            best is None ==> forall|j: int| 0 <= j < k ==> !#[trigger] qualifies(files@[j], t),
            best matches Some(b) ==> {
                &&& b.1 < k
                &&& b.0 == file_points(files@[b.1 as int], t)
                &&& is_best_candidate(files@.take(k as int), t, b.1 as int)
            },
        decreases files.len() - k,
    {
        let f = &files[k];
        if file_qualifies(f, &stems, Ghost(t)) {
            let score = fuzzy_score(f.path.as_str(), tex_path);
            let replace = match best {
                Some(b) => b.0 < score,
                None => true,
            };
            proof {
                assert(files@.take(k + 1)[k as int] == files@[k as int]);
                assert forall|j: int| 0 <= j < k + 1 implies #[trigger] files@.take(k + 1)[j] == files@[j] by {}
                assert forall|j: int| 0 <= j < k implies #[trigger] files@.take(k as int)[j] == files@[j] by {}
            }
            if replace {
                best = Some((score, k));
            }
        } else {
            proof {
                assert forall|j: int| 0 <= j < k + 1 implies #[trigger] files@.take(k + 1)[j] == files@[j] by {}
                assert forall|j: int| 0 <= j < k implies #[trigger] files@.take(k as int)[j] == files@[j] by {}
            }
        }
        k += 1;
    }
    proof {
        assert(files@.take(files@.len() as int) =~= files@);
    }
    match best {
        Some(b) => Some(b.1),
        None => None,
    }
}

/// The file to use: the best candidate of the first root that holds one,
/// as (root, file) indices, or `None` when no root does.
pub fn pick_fuzzy_match(roots: &[Vec<FoundFile>], tex_path: &str) -> (r: Option<(usize, usize)>)
    ensures
        match r {
            Some((k, i)) => {
                &&& k < roots@.len()
                &&& forall|m: int| 0 <= m < k ==> !has_candidate(#[trigger] roots@[m]@, tex_path@)
                &&& is_best_candidate(roots@[k as int]@, tex_path@, i as int)
            },
            None => forall|m: int| 0 <= m < roots@.len() ==> !has_candidate(#[trigger] roots@[m]@, tex_path@),
        },
{
    let mut k: usize = 0;
    while k < roots.len()
        invariant
            k <= roots@.len(),
            forall|m: int| 0 <= m < k ==> !has_candidate(#[trigger] roots@[m]@, tex_path@),
        decreases roots.len() - k,
    {
        match best_fuzzy_candidate(roots[k].as_slice(), tex_path) {
            Some(i) => {
                return Some((k, i));
            },
            None => {},
        }
        k += 1;
    }
    None
}

} // verus!
