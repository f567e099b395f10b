//! Metadata index of the textures held in packed Unity data: lower-cased
//! texture names and container paths, tagged with a signature of the data
//! it was built from.
use vstd::prelude::*;

use crate::assets::variants::{directional_strings, lower_basename, lower_basename_chars, strings_view};
use crate::lexical::{
    lemma_between_keeps_prefix, lemma_lt_irreflexive, lemma_lt_total, lemma_prefix_le,
    sort_strings, sort_views, sorted, str_le, str_lt, string_lt, strictly_sorted,
};
use crate::text::{
    append_str, chars_eq, chars_of, concat_str, contains, contains_chars, lower, lower_chars,
    starts_with, starts_with_chars, string_of,
};

verus! {

pub struct PackedTextureIndex {
    signature: String,
    names: Vec<String>,
    container_paths: Vec<String>,
}

/// `name` is the basename itself or a `_`-suffixed variant of it.
pub open spec fn name_matches_basename(name: Seq<char>, basename: Seq<char>) -> bool {
    name == basename || starts_with(name, basename + "_"@)
}

/// Some indexed name matches the basename.
pub open spec fn any_name_matches(names: Seq<String>, basename: Seq<char>) -> bool {
    exists|j: int| 0 <= j < names.len() && name_matches_basename(#[trigger] names[j]@, basename)
}

/// Some container path holds one of the patterns as a substring.
pub open spec fn any_container_holds(paths: Seq<String>, patterns: Seq<Seq<char>>) -> bool {
    exists|j: int, k: int|
        0 <= j < paths.len() && 0 <= k < patterns.len() && contains(
            #[trigger] paths[j]@,
            #[trigger] patterns[k],
        )
}

/// Lower-cased path bare, with `.png`, and with each directional suffix.
pub open spec fn spec_container_patterns(tex_path: Seq<char>) -> Seq<Seq<char>> {
    let base = lower(tex_path);
    seq![
        base,
        base + ".png"@,
        base + "_south"@,
        base + "_north"@,
        base + "_east"@,
        base + "_west"@,
    ]
}

/// The names, in order, that hold `needle`.
pub open spec fn names_holding(names: Seq<String>, needle: Seq<char>) -> Seq<String>
    decreases names.len(),
{
    if names.len() == 0 {
        Seq::empty()
    } else if contains(names.last()@, needle) {
        names_holding(names.drop_last(), needle).push(names.last())
    } else {
        names_holding(names.drop_last(), needle)
    }
}

/// The lower-cased basename and its four directional variants.
pub fn wanted_texture_names(tex_path: &str) -> (r: Vec<String>)
    ensures
        strings_view(r@) == crate::assets::variants::directional_names(lower_basename(tex_path@)),
{
    let base = lower_basename_chars(tex_path);
    directional_strings(base.as_slice())
}

/// Lower-cased texture path bare, with `.png`, and with each directional
/// suffix; these are matched as substrings of container paths.
pub fn wanted_container_patterns(tex_path: &str) -> (r: Vec<String>)
    ensures
        strings_view(r@) == spec_container_patterns(tex_path@),
{
    let base = lower_chars(chars_of(tex_path).as_slice());
    let r = vec![
        string_of(base.as_slice()),
        concat_str(base.as_slice(), ".png"),
        concat_str(base.as_slice(), "_south"),
        concat_str(base.as_slice(), "_north"),
        concat_str(base.as_slice(), "_east"),
        concat_str(base.as_slice(), "_west"),
    ];
    proof {
        assert(strings_view(r@) =~= spec_container_patterns(tex_path@));
    }
    r
}

impl PackedTextureIndex {
    pub closed spec fn spec_signature(&self) -> Seq<char> {
        self.signature@
    }

    pub closed spec fn spec_names(&self) -> Seq<String> {
        self.names@
    }

    pub closed spec fn spec_container_paths(&self) -> Seq<String> {
        self.container_paths@
    }

    /// What a true answer of `maybe_contains` tells: the index is empty, or
    /// a name matches the texture's lower-cased basename, or a container
    /// path holds one of its wanted patterns.
    pub open spec fn may_hold(&self, tex_path: Seq<char>) -> bool {
        ||| (self.spec_names().len() == 0 && self.spec_container_paths().len() == 0)
        ||| any_name_matches(self.spec_names(), lower_basename(tex_path))
        ||| any_container_holds(self.spec_container_paths(), spec_container_patterns(tex_path))
    }

    /// When `maybe_contains` surely answers true: as `may_hold`, with the
    /// name match found only among sorted names.
    pub open spec fn surely_held(&self, tex_path: Seq<char>) -> bool {
        ||| (self.spec_names().len() == 0 && self.spec_container_paths().len() == 0)
        ||| (sorted(self.spec_names()) && any_name_matches(self.spec_names(), lower_basename(tex_path)))
        ||| any_container_holds(self.spec_container_paths(), spec_container_patterns(tex_path))
    }

    /// An index holding exactly the given parts.
    pub fn from_parts(signature: String, names: Vec<String>, container_paths: Vec<String>) -> (r:
        Self)
        ensures
            r.spec_signature() == signature@,
            r.spec_names() == names@,
            r.spec_container_paths() == container_paths@,
    {
        PackedTextureIndex { signature, names, container_paths }
    }

    pub(crate) fn signature(&self) -> (r: &String)
        ensures
            r@ == self.spec_signature(),
    {
        &self.signature
    }

    pub(crate) fn names(&self) -> (r: &Vec<String>)
        ensures
            r@ == self.spec_names(),
    {
        &self.names
    }

    pub(crate) fn container_paths(&self) -> (r: &Vec<String>)
        ensures
            r@ == self.spec_container_paths(),
    {
        &self.container_paths
    }

    /// Whether this index was built from data with the given signature.
    pub fn signature_matches(&self, signature: &str) -> (r: bool)
        ensures
            r == (self.spec_signature() == signature@),
    {
        crate::text::str_eq(self.signature.as_str(), signature)
    }

    pub fn is_empty(&self) -> (r: bool)
        ensures
            r == (self.spec_names().len() == 0 && self.spec_container_paths().len() == 0),
    {
        self.names.len() == 0 && self.container_paths.len() == 0
    }

    /// Up to `limit` names holding the lower-cased `query`, taken in index
    /// order and returned sorted.
    pub fn search_names(&self, query: &str, limit: usize) -> (r: Vec<String>)
        ensures
            r@.map_values(|s: String| s@) == sort_views(
                names_holding(self.spec_names(), lower(query@)).take(
                    if limit < names_holding(self.spec_names(), lower(query@)).len() {
                        limit as int
                    } else {
                        names_holding(self.spec_names(), lower(query@)).len() as int
                    },
                ).map_values(|s: String| s@),
            ),
            sorted(r@),
            r@.to_multiset() == names_holding(self.spec_names(), lower(query@)).take(
                if limit < names_holding(self.spec_names(), lower(query@)).len() {
                    limit as int
                } else {
                    names_holding(self.spec_names(), lower(query@)).len() as int
                },
            ).to_multiset(),
    {
        let needle = lower_chars(chars_of(query).as_slice());
        let mut matches: Vec<String> = Vec::new();
        let mut i: usize = 0;
        while i < self.names.len()
            invariant
                i <= self.names@.len(),
                needle@ == lower(query@),
                matches@.len() <= limit,
                matches@.len() <= names_holding(self.names@.take(i as int), needle@).len(),
                matches@ == names_holding(self.names@.take(i as int), needle@).take(
                    matches@.len() as int,
                ),
                matches@.len() < limit ==> matches@ == names_holding(
                    self.names@.take(i as int),
                    needle@,
                ),
            decreases self.names.len() - i,
        {
            let ghost prev = names_holding(self.names@.take(i as int), needle@);
            let ghost x = self.names@[i as int];
            proof {
                assert(self.names@.take(i + 1).drop_last() =~= self.names@.take(i as int));
                assert(self.names@.take(i + 1).last() == x);
            }
            let name_chars = chars_of(self.names[i].as_str());
            if contains_chars(name_chars.as_slice(), needle.as_slice()) {
                let ghost m0 = matches@;
                if matches.len() < limit {
                    matches.push(self.names[i].clone());
                    proof {
                        assert(matches@ == prev.push(x));
                        assert(prev.push(x).take(matches@.len() as int) =~= prev.push(x));
                    }
                } else {
                    proof {
                        assert(prev.push(x).take(m0.len() as int) =~= prev.take(m0.len() as int));
                    }
                }
            }
            i += 1;
        }
        proof {
            assert(self.names@.take(self.names@.len() as int) =~= self.names@);
            let all = names_holding(self.names@, needle@);
            lemma_names_holding_len(self.names@, needle@);
            if matches@.len() < limit {
                assert(all.take(all.len() as int) =~= all);
            }
            assert(matches@.take(matches@.len() as int) =~= matches@);
        }
        sort_strings(matches)
    }

    /// Whether the index may hold the texture: always when the index is
    /// empty; otherwise when a name matches the lower-cased basename (found
    /// by a search that expects sorted names) or a container path holds one
    /// of the wanted patterns.
    pub fn maybe_contains(&self, tex_path: &str) -> (r: bool)
        ensures
            r ==> self.may_hold(tex_path@),
            self.surely_held(tex_path@) ==> r,
    {
        if self.is_empty() {
            return true;
        }
        let basename = lower_basename_chars(tex_path);
        let basename_str = string_of(basename.as_slice());
        if self.has_prefix_match(basename_str.as_str()) {
            return true;
        }
        let patterns = wanted_container_patterns(tex_path);
        let ghost pats = spec_container_patterns(tex_path@);
        let mut k: usize = 0;
        while k < patterns.len()
            invariant
                k <= patterns@.len(),
                strings_view(patterns@) == pats,
                pats == spec_container_patterns(tex_path@),
                forall|j: int, kk: int|
                    0 <= j < self.container_paths@.len() && 0 <= kk < k ==> !contains(
                        #[trigger] self.container_paths@[j]@,
                        #[trigger] pats[kk],
                    ),
            decreases patterns.len() - k,
        {
            let pattern = chars_of(patterns[k].as_str());
            let mut j: usize = 0;
            while j < self.container_paths.len()
                invariant
                    j <= self.container_paths@.len(),
                    k < patterns@.len(),
                    strings_view(patterns@) == pats,
                    pats == spec_container_patterns(tex_path@),
                    pattern@ == pats[k as int],
                    forall|jj: int| 0 <= jj < j ==> !contains(
                        #[trigger] self.container_paths@[jj]@,
                        pats[k as int],
                    ),
                decreases self.container_paths.len() - j,
            {
                let entry = chars_of(self.container_paths[j].as_str());
                if contains_chars(entry.as_slice(), pattern.as_slice()) {
                    proof {
                        assert(contains(self.container_paths@[j as int]@, pats[k as int]));
                        assert(any_container_holds(self.container_paths@, pats));
                    }
                    return true;
                }
                j += 1;
            }
            k += 1;
        }
        false
    }

    /// Whether a name equals `basename` or starts with `basename_`. Names
    /// are searched from the first one not sorting before `basename`, and
    /// the scan stops at the first name that does not start with it, which
    /// finds every match when the names are sorted.
    fn has_prefix_match(&self, basename: &str) -> (r: bool)
        ensures
            r ==> any_name_matches(self.spec_names(), basename@),
            sorted(self.spec_names()) && any_name_matches(self.spec_names(), basename@) ==> r,
    {
        let start = self.lower_bound(basename);
        let b = chars_of(basename);
        let prefix_underscore = append_str(b.as_slice(), "_");
        let mut i = start;
        while i < self.names.len()
            invariant
                start <= i <= self.names@.len(),
                b@ == basename@,
                prefix_underscore@ == basename@ + "_"@,
                sorted(self.names@) ==> forall|k: int| 0 <= k < start ==> str_lt(
                    #[trigger] self.names@[k]@,
                    basename@,
                ),
                forall|k: int| start <= k < self.names@.len() ==> !str_lt(
                    #[trigger] self.names@[k]@,
                    basename@,
                ) || !sorted(self.names@),
                forall|k: int|
                    start <= k < i ==> !name_matches_basename(#[trigger] self.names@[k]@, basename@),
                forall|k: int| start <= k < i ==> starts_with(#[trigger] self.names@[k]@, basename@),
            decreases self.names.len() - i,
        {
            let name = chars_of(self.names[i].as_str());
            if chars_eq(name.as_slice(), b.as_slice()) || starts_with_chars(
                name.as_slice(),
                prefix_underscore.as_slice(),
            ) {
                return true;
            }
            if !starts_with_chars(name.as_slice(), b.as_slice()) {
                proof {
                    self.lemma_scan_stop(basename@, start as int, i as int);
                }
                return false;
            }
            i += 1;
        }
        proof {
            self.lemma_scan_stop(basename@, start as int, i as int);
        }
        false
    }

    /// With sorted names, no name before `start` and no name at or after a
    /// name that lacks the prefix can match.
    proof fn lemma_scan_stop(&self, basename: Seq<char>, start: int, i: int)
        requires
            0 <= start <= i <= self.names@.len(),
            sorted(self.names@) ==> forall|k: int| 0 <= k < start ==> str_lt(
                #[trigger] self.names@[k]@,
                basename,
            ),
            forall|k: int| start <= k < self.names@.len() ==> !str_lt(
                #[trigger] self.names@[k]@,
                basename,
            ) || !sorted(self.names@),
            forall|k: int| start <= k < i ==> !name_matches_basename(#[trigger] self.names@[k]@, basename),
            i < self.names@.len() ==> !starts_with(self.names@[i]@, basename),
        ensures
            sorted(self.names@) ==> !any_name_matches(self.names@, basename),
    {
        if sorted(self.names@) && any_name_matches(self.names@, basename) {
            let j = choose|j: int|
                0 <= j < self.names@.len() && name_matches_basename(
                    #[trigger] self.names@[j]@,
                    basename,
                );
            let name = self.names@[j]@;
            assert(starts_with(name, basename)) by {
                if name == basename {
                    assert(name.subrange(0, basename.len() as int) =~= name);
                } else {
                    let p = basename + "_"@;
                    assert(name.subrange(0, basename.len() as int) =~= p.subrange(
                        0,
                        basename.len() as int,
                    ));
                    assert(p.subrange(0, basename.len() as int) =~= basename);
                }
            }
            lemma_prefix_le(name, basename);
            if j < start {
                assert(str_lt(name, basename));
            } else if j >= i {
                assert(i < self.names@.len());
                let x = self.names@[i]@;
                assert(!str_lt(x, basename));
                if j > i {
                    assert(str_le(x, name));
                }
                lemma_between_keeps_prefix(basename, x, name);
            }
        }
    }

    /// First position whose name does not sort before `key`, found by
    /// bisection; with sorted names, every earlier name sorts before it.
    fn lower_bound(&self, key: &str) -> (r: usize)
        ensures
            r <= self.spec_names().len(),
            sorted(self.spec_names()) ==> forall|k: int| 0 <= k < r ==> str_lt(
                #[trigger] self.spec_names()[k]@,
                key@,
            ),
            sorted(self.spec_names()) ==> forall|k: int|
                r <= k < self.spec_names().len() ==> !str_lt(#[trigger] self.spec_names()[k]@, key@),
    {
        let mut lo: usize = 0;
        let mut hi: usize = self.names.len();
        while lo < hi
            invariant
                lo <= hi <= self.names@.len(),
                sorted(self.names@) ==> forall|k: int| 0 <= k < lo ==> str_lt(
                    #[trigger] self.names@[k]@,
                    key@,
                ),
                sorted(self.names@) ==> forall|k: int|
                    hi <= k < self.names@.len() ==> !str_lt(#[trigger] self.names@[k]@, key@),
            decreases hi - lo,
        {
            let mid = lo + (hi - lo) / 2;
            if string_lt(self.names[mid].as_str(), key) {
                proof {
                    if sorted(self.names@) {
                        assert forall|k: int| 0 <= k <= mid implies str_lt(
                            #[trigger] self.names@[k]@,
                            key@,
                        ) by {
                            if k < mid {
                                let a = self.names@[k]@;
                                let m = self.names@[mid as int]@;
                                assert(str_le(a, m));
                                lemma_lt_total(a, m);
                                if str_lt(a, m) {
                                    crate::lexical::lemma_lt_transitive(a, m, key@);
                                }
                            }
                        }
                    }
                }
                lo = mid + 1;
            } else {
                proof {
                    if sorted(self.names@) {
                        assert forall|k: int| mid <= k < self.names@.len() implies !str_lt(
                            #[trigger] self.names@[k]@,
                            key@,
                        ) by {
                            if k > mid {
                                let a = self.names@[k]@;
                                let m = self.names@[mid as int]@;
                                assert(str_le(m, a));
                                crate::lexical::lemma_le_transitive(key@, m, a);
                            }
                        }
                    }
                }
                hi = mid;
            }
        }
        lo
    }
}

proof fn lemma_names_holding_len(names: Seq<String>, needle: Seq<char>)
    ensures
        names_holding(names, needle).len() <= names.len(),
    decreases names.len(),
{
    if names.len() > 0 {
        lemma_names_holding_len(names.drop_last(), needle);
    }
}

} // verus!
