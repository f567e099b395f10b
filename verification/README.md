# stitchlands

The data and decision layer of a RimWorld-style map renderer, written in
Verus: every function in `src/` carries a contract that Verus proves, but
for three small trusted wrappers whose contracts are taken on trust:
`defs::xml::parse_xml` (calls `roxmltree::Document::parse` and lists the
document's nodes), `text::push_char` (`String::push`) and
`text::unicode_lower_str` (`str::to_lowercase`).

- `defs` reads the game's XML def files (terrain, hair, things, body types,
  beards, head types with inheritance, apparel, and the humanlike render
  tree). XML is parsed by `roxmltree`; numbers are kept as their text, after
  a check against Rust's float grammar.
- `assets` holds texture lookup: candidate paths for a texture, the packed
  texture index and its on-disk cache format, the ranking of packed
  matches, the pick of a loose texture by file name, and the packed
  catalog's build state.
- `pawn` decides how a pawn is drawn: skip flags, directional textures,
  apparel texture paths and layers, and which nodes it is made of.
- `commands` holds the decisions of the debug and scene commands: fog cover,
  terrain edges, wall linking, apparel picks, the fixture scene's loadouts
  and layout, the `list-defs` listing and the defs probe's summary.
- `fixtures` validates scene fixtures; `path` finds shortest routes with A*;
  `interaction` is the click and hover state; `linking` the link flags and
  atlas indices.

`app/` is the command-line front end: argument parsing, file and
environment access, and printing. `tests/` exercises the library.
