use vstd::prelude::*;

use crate::assets::paths::{join_path, join_spec};
use crate::defs::GraphicKind;
use crate::text::{
    after_last, after_last_chars, chars_of, concat_str, lower, lower_chars, starts_with,
    starts_with_chars, string_of,
};

verus! {

/// Texture-name variants derived from one `texPath`.
pub struct TextureVariants<'a> {
    pub tex_path: &'a str,
    pub kind: GraphicKind,
}

pub fn variants_for(tex_path: &str, kind: GraphicKind) -> (v: TextureVariants<'_>)
    ensures
        v.tex_path@ == tex_path@,
        v.kind == kind,
{
    TextureVariants { tex_path, kind }
}

/// Lower-cased last path segment of a texture path.
pub open spec fn lower_basename(tex_path: Seq<char>) -> Seq<char> {
    lower(after_last(tex_path, '/'))
}

/// The lower-cased path under the `textures/` folder of packed containers.
pub open spec fn spec_prefixed_lower(tex_path: Seq<char>) -> Seq<char> {
    if starts_with(lower(tex_path), "textures/"@) {
        lower(tex_path)
    } else {
        "textures/"@ + lower(tex_path)
    }
}

/// `base`, then `base` with the four directional suffixes.
pub open spec fn directional_names(base: Seq<char>) -> Seq<Seq<char>> {
    seq![base, base + "_south"@, base + "_north"@, base + "_east"@, base + "_west"@]
}

pub open spec fn strings_view(v: Seq<String>) -> Seq<Seq<char>> {
    v.map_values(|s: String| s@)
}

/// `base` followed by the four directional suffixes, as strings.
pub fn directional_strings(base: &[char]) -> (r: Vec<String>)
    ensures
        strings_view(r@) == directional_names(base@),
{
    let r = vec![
        string_of(base),
        concat_str(base, "_south"),
        concat_str(base, "_north"),
        concat_str(base, "_east"),
        concat_str(base, "_west"),
    ];
    proof {
        assert(strings_view(r@) =~= directional_names(base@));
    }
    r
}

/// Lower-cased last path segment of `tex_path`.
pub fn lower_basename_chars(tex_path: &str) -> (r: Vec<char>)
    ensures
        r@ == lower_basename(tex_path@),
{
    let chars = chars_of(tex_path);
    let base = after_last_chars(chars.as_slice(), '/');
    lower_chars(base.as_slice())
}

impl<'a> TextureVariants<'a> {
    /// The lower-cased basename and its four directional variants.
    pub fn base_names(&self) -> (r: Vec<String>)
        ensures
            strings_view(r@) == directional_names(lower_basename(self.tex_path@)),
    {
        let base = lower_basename_chars(self.tex_path);
        directional_strings(base.as_slice())
    }

    /// Files to try under a texture root: the path with `.png`, then its
    /// `_south` and `_north` variants.
    pub fn disk_candidates(&self, root: &str) -> (r: Vec<String>)
        ensures
            strings_view(r@) == seq![
                join_spec(root@, self.tex_path@ + ".png"@),
                join_spec(root@, self.tex_path@ + "_south.png"@),
                join_spec(root@, self.tex_path@ + "_north.png"@),
            ],
    {
        let path = chars_of(self.tex_path);
        let a = concat_str(path.as_slice(), ".png");
        let b = concat_str(path.as_slice(), "_south.png");
        let c = concat_str(path.as_slice(), "_north.png");
        let r = vec![
            join_path(root, a.as_str()),
            join_path(root, b.as_str()),
            join_path(root, c.as_str()),
        ];
        proof {
            assert(strings_view(r@) =~= seq![
                join_spec(root@, self.tex_path@ + ".png"@),
                join_spec(root@, self.tex_path@ + "_south.png"@),
                join_spec(root@, self.tex_path@ + "_north.png"@),
            ]);
        }
        r
    }

    /// Exact container paths: the prefixed lower-cased path bare, with
    /// `.png`, and with each directional suffix and `.png`.
    pub fn container_paths(&self) -> (r: Vec<String>)
        ensures
            ({
                let p = spec_prefixed_lower(self.tex_path@);
                strings_view(r@) == seq![
                    p,
                    p + ".png"@,
                    p + "_south.png"@,
                    p + "_north.png"@,
                    p + "_east.png"@,
                    p + "_west.png"@,
                ]
            }),
    {
        let prefixed = self.prefixed_lower();
        let r = vec![
            string_of(prefixed.as_slice()),
            concat_str(prefixed.as_slice(), ".png"),
            concat_str(prefixed.as_slice(), "_south.png"),
            concat_str(prefixed.as_slice(), "_north.png"),
            concat_str(prefixed.as_slice(), "_east.png"),
            concat_str(prefixed.as_slice(), "_west.png"),
        ];
        proof {
            let p = spec_prefixed_lower(self.tex_path@);
            assert(strings_view(r@) =~= seq![
                p,
                p + ".png"@,
                p + "_south.png"@,
                p + "_north.png"@,
                p + "_east.png"@,
                p + "_west.png"@,
            ]);
        }
        r
    }

    /// For random graphics, the folder key followed by `/`.
    pub fn folder_prefix(&self) -> (r: Option<String>)
        ensures
            match r {
                Some(s) => self.kind is Random && s@ == spec_prefixed_lower(self.tex_path@)
                    + "/"@,
                None => !(self.kind is Random),
            },
    {
        if self.kind.is_random() {
            let key = self.prefixed_lower();
            Some(concat_str(key.as_slice(), "/"))
        } else {
            None
        }
    }

    /// For random graphics, the prefixed lower-cased folder path.
    pub fn folder_key(&self) -> (r: Option<String>)
        ensures
            match r {
                Some(s) => self.kind is Random && s@ == spec_prefixed_lower(self.tex_path@),
                None => !(self.kind is Random),
            },
    {
        if self.kind.is_random() {
            let key = self.prefixed_lower();
            Some(string_of(key.as_slice()))
        } else {
            None
        }
    }

    fn prefixed_lower(&self) -> (r: Vec<char>)
        ensures
            r@ == spec_prefixed_lower(self.tex_path@),
    {
        let base = lower_chars(chars_of(self.tex_path).as_slice());
        let prefix = chars_of("textures/");
        if starts_with_chars(base.as_slice(), prefix.as_slice()) {
            base
        } else {
            crate::text::append_chars(prefix.as_slice(), base.as_slice())
        }
    }
}

} // verus!
