//! Validation of a scene fixture before a world is built from it. Every
//! problem found is reported, in a fixed order, and the report lists them
//! one per line.
use vstd::prelude::*;

use super::schema::{FixtureChecks, GlowSourceCheck, PawnSpawn, RoofCell, TerrainCell, ThingSpawn};
use crate::assets::index_text::decimal;
use crate::text::{chars_of, is_white, is_white_char, push_decimal, push_signed, push_str, signed_decimal, string_of};

verus! {

/// The fixture schema version this loader reads.
pub const SUPPORTED_SCHEMA_VERSION: u32 = 2;

/// A per-cell grid of the map whose length is checked.
#[derive(Debug, Clone, Copy, PartialEq, Eq, Structural)]
pub enum GridName {
    Roofs,
    Fog,
    SnowDepth,
}

/// An optional def name of a pawn.
#[derive(Debug, Clone, Copy, PartialEq, Eq, Structural)]
pub enum PawnPart {
    Body,
    Head,
    Hair,
    Beard,
}

/// One problem with a fixture.
#[derive(Debug, Clone, Copy, PartialEq, Eq, Structural)]
pub enum FixtureIssue {
    UnsupportedSchema { found: u32 },
    EmptyDimensions,
    TerrainCountMismatch { got: usize, expected: usize, width: usize, height: usize },
    GridCountMismatch { grid: GridName, got: usize, expected: usize },
    EmptyTerrainDef { index: usize },
    ThickWithoutRoof { index: usize },
    SnowDepthOutOfRange { index: usize },
    EmptyThingDef { index: usize },
    NonBlockingWithoutDef { index: usize },
    ThingOutOfBounds { index: usize, x: i32, z: i32, width: usize, height: usize },
    PawnOutOfBounds { index: usize, x: i32, z: i32, width: usize, height: usize },
    BlankPawnLabel { index: usize },
    BlankPawnPart { index: usize, part: PawnPart },
    BlankApparelDef { index: usize, apparel_index: usize },
    CameraNotFinite,
    DayPercentOutOfRange,
    SkyGlowNotFinite,
    ShadowColorNotFinite,
    ShadowVectorNotFinite,
    GlowSourceOutOfBounds { index: usize, x: i32, z: i32, width: usize, height: usize },
    GlowRadiusInvalid { index: usize },
    GlowOverlightInvalid { index: usize },
    GlowColorNotFinite { index: usize },
}

/// What `trim().is_empty()` tests: nothing but whitespace.
pub open spec fn blank(s: Seq<char>) -> bool {
    forall|i: int| 0 <= i < s.len() ==> is_white(#[trigger] s[i])
}

/// A cell inside a `width` by `height` map, the sizes taken as `i32`.
pub open spec fn cell_in_bounds(x: i32, z: i32, width: usize, height: usize) -> bool {
    x >= 0 && z >= 0 && x < (width as i32) && z < (height as i32)
}

/// `width * height`, saturating at the largest `usize`.
pub open spec fn expected_cells(width: usize, height: usize) -> int {
    if width * height > usize::MAX {
        usize::MAX as int
    } else {
        width * height
    }
}

pub open spec fn when(c: bool, issue: FixtureIssue) -> Seq<FixtureIssue> {
    if c {
        seq![issue]
    } else {
        Seq::empty()
    }
}

/// `pick(0) + pick(1) + ... + pick(n - 1)`.
pub open spec fn concat_over(n: nat, pick: spec_fn(int) -> Seq<FixtureIssue>) -> Seq<FixtureIssue>
    decreases n,
{
    if n == 0 {
        Seq::empty()
    } else {
        concat_over((n - 1) as nat, pick) + pick(n - 1)
    }
}

/// The length check of a grid that may be left empty.
pub open spec fn grid_issue(grid: GridName, len: usize, expected: int) -> Seq<FixtureIssue> {
    when(len != 0 && len != expected, FixtureIssue::GridCountMismatch { grid, got: len, expected: expected as usize })
}

/// Schema version, map size and the length of each grid.
pub open spec fn map_issues(f: FixtureChecks) -> Seq<FixtureIssue> {
    let expected = expected_cells(f.width, f.height);
    when(f.schema_version != 2, FixtureIssue::UnsupportedSchema { found: f.schema_version })
        + when(f.width == 0 || f.height == 0, FixtureIssue::EmptyDimensions)
        + when(f.terrain.len() != expected, FixtureIssue::TerrainCountMismatch {
            got: f.terrain.len(),
            expected: expected as usize,
            width: f.width,
            height: f.height,
        })
        + grid_issue(GridName::Roofs, f.roofs.len(), expected)
        + grid_issue(GridName::Fog, f.fog_len, expected)
        + grid_issue(GridName::SnowDepth, f.snow_depth_ok.len(), expected)
}

pub open spec fn terrain_pick(cells: Seq<TerrainCell>) -> spec_fn(int) -> Seq<FixtureIssue> {
    |i: int| when(blank(cells[i].terrain_def@), FixtureIssue::EmptyTerrainDef { index: i as usize })
}

pub open spec fn roof_pick(roofs: Seq<RoofCell>) -> spec_fn(int) -> Seq<FixtureIssue> {
    |i: int| when(roofs[i].thick && !roofs[i].roofed, FixtureIssue::ThickWithoutRoof { index: i as usize })
}

pub open spec fn snow_pick(ok: Seq<bool>) -> spec_fn(int) -> Seq<FixtureIssue> {
    |i: int| when(!ok[i], FixtureIssue::SnowDepthOutOfRange { index: i as usize })
}

/// A thing's def name must not be blank, and its cell must be on the map.
pub open spec fn thing_issues(t: ThingSpawn, i: int, width: usize, height: usize) -> Seq<FixtureIssue> {
    when(blank(t.def_name@), FixtureIssue::EmptyThingDef { index: i as usize })
        + when(!t.blocks_movement && blank(t.def_name@), FixtureIssue::NonBlockingWithoutDef { index: i as usize })
        + when(!cell_in_bounds(t.cell_x, t.cell_z, width, height), FixtureIssue::ThingOutOfBounds {
            index: i as usize,
            x: t.cell_x,
            z: t.cell_z,
            width,
            height,
        })
}

pub open spec fn thing_pick(things: Seq<ThingSpawn>, width: usize, height: usize) -> spec_fn(int) -> Seq<FixtureIssue> {
    |i: int| thing_issues(things[i], i, width, height)
}

pub open spec fn blank_given(s: Option<String>) -> bool {
    match s {
        Some(v) => blank(v@),
        None => false,
    }
}

pub open spec fn apparel_pick(defs: Seq<String>, i: int) -> spec_fn(int) -> Seq<FixtureIssue> {
    |j: int| when(blank(defs[j]@), FixtureIssue::BlankApparelDef { index: i as usize, apparel_index: j as usize })
}

/// A pawn's cell must be on the map, and each name it gives must not be blank.
pub open spec fn pawn_issues(p: PawnSpawn, i: int, width: usize, height: usize) -> Seq<FixtureIssue> {
    let idx = i as usize;
    when(!cell_in_bounds(p.cell_x, p.cell_z, width, height), FixtureIssue::PawnOutOfBounds {
        index: idx,
        x: p.cell_x,
        z: p.cell_z,
        width,
        height,
    })
        + when(blank_given(p.label), FixtureIssue::BlankPawnLabel { index: idx })
        + when(blank_given(p.body), FixtureIssue::BlankPawnPart { index: idx, part: PawnPart::Body })
        + when(blank_given(p.head), FixtureIssue::BlankPawnPart { index: idx, part: PawnPart::Head })
        + when(blank_given(p.hair), FixtureIssue::BlankPawnPart { index: idx, part: PawnPart::Hair })
        + when(blank_given(p.beard), FixtureIssue::BlankPawnPart { index: idx, part: PawnPart::Beard })
        + concat_over(p.apparel_defs@.len(), apparel_pick(p.apparel_defs@, i))
}

pub open spec fn pawn_pick(pawns: Seq<PawnSpawn>, width: usize, height: usize) -> spec_fn(int) -> Seq<FixtureIssue> {
    |i: int| pawn_issues(pawns[i], i, width, height)
}

pub open spec fn failed(check: Option<bool>) -> bool {
    check == Some(false)
}

/// Camera and render settings.
pub open spec fn render_issues(f: FixtureChecks) -> Seq<FixtureIssue> {
    when(failed(f.camera_finite), FixtureIssue::CameraNotFinite)
        + when(failed(f.day_percent_ok), FixtureIssue::DayPercentOutOfRange)
        + when(failed(f.sky_glow_finite), FixtureIssue::SkyGlowNotFinite)
        + when(failed(f.shadow_color_finite), FixtureIssue::ShadowColorNotFinite)
        + when(failed(f.shadow_vector_finite), FixtureIssue::ShadowVectorNotFinite)
}

/// A glow source's cell must be on the map and its numbers sound.
pub open spec fn glow_issues(g: GlowSourceCheck, i: int, width: usize, height: usize) -> Seq<FixtureIssue> {
    let idx = i as usize;
    when(!cell_in_bounds(g.cell_x, g.cell_z, width, height), FixtureIssue::GlowSourceOutOfBounds {
        index: idx,
        x: g.cell_x,
        z: g.cell_z,
        width,
        height,
    })
        + when(!g.radius_ok, FixtureIssue::GlowRadiusInvalid { index: idx })
        + when(!g.overlight_radius_ok, FixtureIssue::GlowOverlightInvalid { index: idx })
        + when(!g.color_finite, FixtureIssue::GlowColorNotFinite { index: idx })
}

pub open spec fn glow_pick(sources: Seq<GlowSourceCheck>, width: usize, height: usize) -> spec_fn(int) -> Seq<FixtureIssue> {
    |i: int| glow_issues(sources[i], i, width, height)
}

/// Every problem with the fixture, in the order they are reported.
pub open spec fn fixture_issues(f: FixtureChecks) -> Seq<FixtureIssue> {
    map_issues(f)
        + concat_over(f.terrain@.len(), terrain_pick(f.terrain@))
        + concat_over(f.roofs@.len(), roof_pick(f.roofs@))
        + concat_over(f.snow_depth_ok@.len(), snow_pick(f.snow_depth_ok@))
        + concat_over(f.things@.len(), thing_pick(f.things@, f.width, f.height))
        + concat_over(f.pawns@.len(), pawn_pick(f.pawns@, f.width, f.height))
        + render_issues(f)
        + concat_over(f.glow_sources@.len(), glow_pick(f.glow_sources@, f.width, f.height))
}

/// The issues gathered over items are, as a set, those of each item: an
/// issue is reported exactly when some item among the first `n` has it.
pub proof fn lemma_concat_over_contains(n: nat, pick: spec_fn(int) -> Seq<FixtureIssue>, x: FixtureIssue)
    ensures
        concat_over(n, pick).contains(x) <==> exists|i: int| 0 <= i < n && (#[trigger] pick(i)).contains(x),
    decreases n,
{
    if n > 0 {
        lemma_concat_over_contains((n - 1) as nat, pick, x);
        let a = concat_over((n - 1) as nat, pick);
        let b = pick(n - 1);
        assert(concat_over(n, pick) == a + b);
        if (a + b).contains(x) {
            let k = choose|k: int| 0 <= k < (a + b).len() && (a + b)[k] == x;
            if k < a.len() {
                assert(a[k] == x);
                assert(a.contains(x));
            } else {
                assert(b[k - a.len()] == x);
                assert(b.contains(x));
            }
        }
        if exists|i: int| 0 <= i < n && (#[trigger] pick(i)).contains(x) {
            let i = choose|i: int| 0 <= i < n && (#[trigger] pick(i)).contains(x);
            if i < n - 1 {
                assert(a.contains(x));
                let k = choose|k: int| 0 <= k < a.len() && a[k] == x;
                assert((a + b)[k] == x);
            } else {
                let k = choose|k: int| 0 <= k < b.len() && b[k] == x;
                assert((a + b)[a.len() + k] == x);
            }
        }
    }
}

/// Whether `s` is empty once trimmed.
pub fn is_blank(s: &str) -> (r: bool)
    ensures
        r == blank(s@),
{
    let chars = chars_of(s);
    let mut i: usize = 0;
    while i < chars.len()
        invariant
            i <= chars@.len(),
            chars@ == s@,
            forall|j: int| 0 <= j < i ==> is_white(#[trigger] chars@[j]),
        decreases chars.len() - i,
    {
        if !is_white_char(chars[i]) {
            return false;
        }
        i += 1;
    }
    true
}

fn is_blank_given(s: &Option<String>) -> (r: bool)
    ensures
        r == blank_given(*s),
{
    match s {
        Some(v) => is_blank(v.as_str()),
        None => false,
    }
}

proof fn lemma_when_contains(c: bool, issue: FixtureIssue, e: FixtureIssue)
    ensures
        (when(c, issue)).contains(e) <==> c && issue == e,
{
    if c {
        assert(when(c, issue)[0] == issue);
    }
}

proof fn lemma_contains_add(a: Seq<FixtureIssue>, b: Seq<FixtureIssue>, e: FixtureIssue)
    ensures
        (a + b).contains(e) <==> a.contains(e) || b.contains(e),
{
    if (a + b).contains(e) {
        let k = choose|k: int| 0 <= k < (a + b).len() && (a + b)[k] == e;
        if k < a.len() {
            assert(a[k] == e);
        } else {
            assert(b[k - a.len()] == e);
        }
    }
    if a.contains(e) {
        let k = choose|k: int| 0 <= k < a.len() && a[k] == e;
        assert((a + b)[k] == e);
    }
    if b.contains(e) {
        let k = choose|k: int| 0 <= k < b.len() && b[k] == e;
        assert((a + b)[a.len() + k] == e);
    }
}

/// The issue kinds that carry a cell and the map's size.
pub open spec fn out_of_bounds_kind(e: FixtureIssue) -> bool {
    e is PawnOutOfBounds || e is ThingOutOfBounds || e is GlowSourceOutOfBounds
}

proof fn lemma_thing_issues_bounds(t: ThingSpawn, i: int, width: usize, height: usize, e: FixtureIssue)
    requires
        out_of_bounds_kind(e),
    ensures
        thing_issues(t, i, width, height).contains(e) <==> !cell_in_bounds(t.cell_x, t.cell_z, width, height)
            && e == (FixtureIssue::ThingOutOfBounds { index: i as usize, x: t.cell_x, z: t.cell_z, width, height }),
{
    let w0 = when(blank(t.def_name@), FixtureIssue::EmptyThingDef { index: i as usize });
    let w1 = when(!t.blocks_movement && blank(t.def_name@), FixtureIssue::NonBlockingWithoutDef { index: i as usize });
    let w2 = when(!cell_in_bounds(t.cell_x, t.cell_z, width, height), FixtureIssue::ThingOutOfBounds {
        index: i as usize,
        x: t.cell_x,
        z: t.cell_z,
        width,
        height,
    });
    lemma_contains_add(w0 + w1, w2, e);
    lemma_contains_add(w0, w1, e);
    lemma_when_contains(blank(t.def_name@), FixtureIssue::EmptyThingDef { index: i as usize }, e);
    lemma_when_contains(!t.blocks_movement && blank(t.def_name@), FixtureIssue::NonBlockingWithoutDef { index: i as usize }, e);
    lemma_when_contains(!cell_in_bounds(t.cell_x, t.cell_z, width, height), FixtureIssue::ThingOutOfBounds {
        index: i as usize,
        x: t.cell_x,
        z: t.cell_z,
        width,
        height,
    }, e);
}

proof fn lemma_glow_issues_bounds(g: GlowSourceCheck, i: int, width: usize, height: usize, e: FixtureIssue)
    requires
        out_of_bounds_kind(e),
    ensures
        glow_issues(g, i, width, height).contains(e) <==> !cell_in_bounds(g.cell_x, g.cell_z, width, height)
            && e == (FixtureIssue::GlowSourceOutOfBounds { index: i as usize, x: g.cell_x, z: g.cell_z, width, height }),
{
    let idx = i as usize;
    let first = FixtureIssue::GlowSourceOutOfBounds { index: idx, x: g.cell_x, z: g.cell_z, width, height };
    let w0 = when(!cell_in_bounds(g.cell_x, g.cell_z, width, height), first);
    let w1 = when(!g.radius_ok, FixtureIssue::GlowRadiusInvalid { index: idx });
    let w2 = when(!g.overlight_radius_ok, FixtureIssue::GlowOverlightInvalid { index: idx });
    let w3 = when(!g.color_finite, FixtureIssue::GlowColorNotFinite { index: idx });
    lemma_contains_add(w0 + w1 + w2, w3, e);
    lemma_contains_add(w0 + w1, w2, e);
    lemma_contains_add(w0, w1, e);
    lemma_when_contains(!cell_in_bounds(g.cell_x, g.cell_z, width, height), first, e);
    lemma_when_contains(!g.radius_ok, FixtureIssue::GlowRadiusInvalid { index: idx }, e);
    lemma_when_contains(!g.overlight_radius_ok, FixtureIssue::GlowOverlightInvalid { index: idx }, e);
    lemma_when_contains(!g.color_finite, FixtureIssue::GlowColorNotFinite { index: idx }, e);
}

proof fn lemma_pawn_issues_bounds(p: PawnSpawn, i: int, width: usize, height: usize, e: FixtureIssue)
    requires
        out_of_bounds_kind(e),
    ensures
        pawn_issues(p, i, width, height).contains(e) <==> !cell_in_bounds(p.cell_x, p.cell_z, width, height)
            && e == (FixtureIssue::PawnOutOfBounds { index: i as usize, x: p.cell_x, z: p.cell_z, width, height }),
{
    let idx = i as usize;
    let first = FixtureIssue::PawnOutOfBounds { index: idx, x: p.cell_x, z: p.cell_z, width, height };
    let w0 = when(!cell_in_bounds(p.cell_x, p.cell_z, width, height), first);
    let w1 = when(blank_given(p.label), FixtureIssue::BlankPawnLabel { index: idx });
    let w2 = when(blank_given(p.body), FixtureIssue::BlankPawnPart { index: idx, part: PawnPart::Body });
    let w3 = when(blank_given(p.head), FixtureIssue::BlankPawnPart { index: idx, part: PawnPart::Head });
    let w4 = when(blank_given(p.hair), FixtureIssue::BlankPawnPart { index: idx, part: PawnPart::Hair });
    let w5 = when(blank_given(p.beard), FixtureIssue::BlankPawnPart { index: idx, part: PawnPart::Beard });
    let n = p.apparel_defs@.len();
    let pick = apparel_pick(p.apparel_defs@, i);
    let cc = concat_over(n, pick);
    lemma_contains_add(w0 + w1 + w2 + w3 + w4 + w5, cc, e);
    lemma_contains_add(w0 + w1 + w2 + w3 + w4, w5, e);
    lemma_contains_add(w0 + w1 + w2 + w3, w4, e);
    lemma_contains_add(w0 + w1 + w2, w3, e);
    lemma_contains_add(w0 + w1, w2, e);
    lemma_contains_add(w0, w1, e);
    lemma_when_contains(!cell_in_bounds(p.cell_x, p.cell_z, width, height), first, e);
    lemma_when_contains(blank_given(p.label), FixtureIssue::BlankPawnLabel { index: idx }, e);
    lemma_when_contains(blank_given(p.body), FixtureIssue::BlankPawnPart { index: idx, part: PawnPart::Body }, e);
    lemma_when_contains(blank_given(p.head), FixtureIssue::BlankPawnPart { index: idx, part: PawnPart::Head }, e);
    lemma_when_contains(blank_given(p.hair), FixtureIssue::BlankPawnPart { index: idx, part: PawnPart::Hair }, e);
    lemma_when_contains(blank_given(p.beard), FixtureIssue::BlankPawnPart { index: idx, part: PawnPart::Beard }, e);
    lemma_concat_over_contains(n, pick, e);
    if cc.contains(e) {
        let j = choose|j: int| 0 <= j < n && (#[trigger] pick(j)).contains(e);
        lemma_when_contains(
            blank(p.apparel_defs@[j]@),
            FixtureIssue::BlankApparelDef { index: idx, apparel_index: j as usize },
            e,
        );
    }
}

proof fn lemma_cell_sections_absent(f: FixtureChecks, e: FixtureIssue)
    requires
        out_of_bounds_kind(e),
    ensures
        !map_issues(f).contains(e),
        !render_issues(f).contains(e),
        !concat_over(f.terrain@.len(), terrain_pick(f.terrain@)).contains(e),
        !concat_over(f.roofs@.len(), roof_pick(f.roofs@)).contains(e),
        !concat_over(f.snow_depth_ok@.len(), snow_pick(f.snow_depth_ok@)).contains(e),
{
    let expected = expected_cells(f.width, f.height);
    let m0 = when(f.schema_version != 2, FixtureIssue::UnsupportedSchema { found: f.schema_version });
    let m1 = when(f.width == 0 || f.height == 0, FixtureIssue::EmptyDimensions);
    let m2 = when(f.terrain.len() != expected, FixtureIssue::TerrainCountMismatch {
        got: f.terrain.len(),
        expected: expected as usize,
        width: f.width,
        height: f.height,
    });
    let g0 = grid_issue(GridName::Roofs, f.roofs.len(), expected);
    let g1 = grid_issue(GridName::Fog, f.fog_len, expected);
    let g2 = grid_issue(GridName::SnowDepth, f.snow_depth_ok.len(), expected);
    lemma_contains_add(m0 + m1 + m2 + g0 + g1, g2, e);
    lemma_contains_add(m0 + m1 + m2 + g0, g1, e);
    lemma_contains_add(m0 + m1 + m2, g0, e);
    lemma_contains_add(m0 + m1, m2, e);
    lemma_contains_add(m0, m1, e);
    lemma_when_contains(f.schema_version != 2, FixtureIssue::UnsupportedSchema { found: f.schema_version }, e);
    lemma_when_contains(f.width == 0 || f.height == 0, FixtureIssue::EmptyDimensions, e);
    lemma_when_contains(f.terrain.len() != expected, FixtureIssue::TerrainCountMismatch {
        got: f.terrain.len(),
        expected: expected as usize,
        width: f.width,
        height: f.height,
    }, e);
    lemma_when_contains(f.roofs.len() != 0 && f.roofs.len() != expected, FixtureIssue::GridCountMismatch {
        grid: GridName::Roofs,
        got: f.roofs.len(),
        expected: expected as usize,
    }, e);
    lemma_when_contains(f.fog_len != 0 && f.fog_len != expected, FixtureIssue::GridCountMismatch {
        grid: GridName::Fog,
        got: f.fog_len,
        expected: expected as usize,
    }, e);
    lemma_when_contains(f.snow_depth_ok.len() != 0 && f.snow_depth_ok.len() != expected, FixtureIssue::GridCountMismatch {
        grid: GridName::SnowDepth,
        got: f.snow_depth_ok.len(),
        expected: expected as usize,
    }, e);
    let r0 = when(failed(f.camera_finite), FixtureIssue::CameraNotFinite);
    let r1 = when(failed(f.day_percent_ok), FixtureIssue::DayPercentOutOfRange);
    let r2 = when(failed(f.sky_glow_finite), FixtureIssue::SkyGlowNotFinite);
    let r3 = when(failed(f.shadow_color_finite), FixtureIssue::ShadowColorNotFinite);
    let r4 = when(failed(f.shadow_vector_finite), FixtureIssue::ShadowVectorNotFinite);
    lemma_contains_add(r0 + r1 + r2 + r3, r4, e);
    lemma_contains_add(r0 + r1 + r2, r3, e);
    lemma_contains_add(r0 + r1, r2, e);
    lemma_contains_add(r0, r1, e);
    lemma_when_contains(failed(f.camera_finite), FixtureIssue::CameraNotFinite, e);
    lemma_when_contains(failed(f.day_percent_ok), FixtureIssue::DayPercentOutOfRange, e);
    lemma_when_contains(failed(f.sky_glow_finite), FixtureIssue::SkyGlowNotFinite, e);
    lemma_when_contains(failed(f.shadow_color_finite), FixtureIssue::ShadowColorNotFinite, e);
    lemma_when_contains(failed(f.shadow_vector_finite), FixtureIssue::ShadowVectorNotFinite, e);
    let tp = terrain_pick(f.terrain@);
    lemma_concat_over_contains(f.terrain@.len(), tp, e);
    if concat_over(f.terrain@.len(), tp).contains(e) {
        let j = choose|j: int| 0 <= j < f.terrain@.len() && (#[trigger] tp(j)).contains(e);
        lemma_when_contains(blank(f.terrain@[j].terrain_def@), FixtureIssue::EmptyTerrainDef { index: j as usize }, e);
    }
    let rp = roof_pick(f.roofs@);
    lemma_concat_over_contains(f.roofs@.len(), rp, e);
    if concat_over(f.roofs@.len(), rp).contains(e) {
        let j = choose|j: int| 0 <= j < f.roofs@.len() && (#[trigger] rp(j)).contains(e);
        lemma_when_contains(f.roofs@[j].thick && !f.roofs@[j].roofed, FixtureIssue::ThickWithoutRoof { index: j as usize }, e);
    }
    let sp = snow_pick(f.snow_depth_ok@);
    lemma_concat_over_contains(f.snow_depth_ok@.len(), sp, e);
    if concat_over(f.snow_depth_ok@.len(), sp).contains(e) {
        let j = choose|j: int| 0 <= j < f.snow_depth_ok@.len() && (#[trigger] sp(j)).contains(e);
        lemma_when_contains(!f.snow_depth_ok@[j], FixtureIssue::SnowDepthOutOfRange { index: j as usize }, e);
    }
}

/// Of the fixture's issues, those that carry a cell come from the things,
/// the pawns and the glow sources alone.
proof fn lemma_fixture_bounds_split(f: FixtureChecks, e: FixtureIssue)
    requires
        out_of_bounds_kind(e),
    ensures
        fixture_issues(f).contains(e) <==> (exists|i: int|
            0 <= i < f.things@.len() && #[trigger] thing_issues(f.things@[i], i, f.width, f.height).contains(e))
            || (exists|i: int| 0 <= i < f.pawns@.len() && #[trigger] pawn_issues(f.pawns@[i], i, f.width, f.height).contains(e))
            || (exists|i: int|
            0 <= i < f.glow_sources@.len() && #[trigger] glow_issues(f.glow_sources@[i], i, f.width, f.height).contains(e)),
{
    let a0 = map_issues(f);
    let a1 = concat_over(f.terrain@.len(), terrain_pick(f.terrain@));
    let a2 = concat_over(f.roofs@.len(), roof_pick(f.roofs@));
    let a3 = concat_over(f.snow_depth_ok@.len(), snow_pick(f.snow_depth_ok@));
    let tp = thing_pick(f.things@, f.width, f.height);
    let pp = pawn_pick(f.pawns@, f.width, f.height);
    let gp = glow_pick(f.glow_sources@, f.width, f.height);
    let a4 = concat_over(f.things@.len(), tp);
    let a5 = concat_over(f.pawns@.len(), pp);
    let a6 = render_issues(f);
    let a7 = concat_over(f.glow_sources@.len(), gp);
    lemma_cell_sections_absent(f, e);
    lemma_contains_add(a0 + a1 + a2 + a3 + a4 + a5 + a6, a7, e);
    lemma_contains_add(a0 + a1 + a2 + a3 + a4 + a5, a6, e);
    lemma_contains_add(a0 + a1 + a2 + a3 + a4, a5, e);
    lemma_contains_add(a0 + a1 + a2 + a3, a4, e);
    lemma_contains_add(a0 + a1 + a2, a3, e);
    lemma_contains_add(a0 + a1, a2, e);
    lemma_contains_add(a0, a1, e);
    lemma_concat_over_contains(f.things@.len(), tp, e);
    lemma_concat_over_contains(f.pawns@.len(), pp, e);
    lemma_concat_over_contains(f.glow_sources@.len(), gp, e);
    if exists|i: int| 0 <= i < f.things@.len() && (#[trigger] tp(i)).contains(e) {
        let i = choose|i: int| 0 <= i < f.things@.len() && (#[trigger] tp(i)).contains(e);
        assert(thing_issues(f.things@[i], i, f.width, f.height).contains(e));
    }
    if exists|i: int| 0 <= i < f.things@.len() && #[trigger] thing_issues(f.things@[i], i, f.width, f.height).contains(e) {
        let i = choose|i: int| 0 <= i < f.things@.len() && #[trigger] thing_issues(f.things@[i], i, f.width, f.height).contains(e);
        assert(tp(i).contains(e));
    }
    if exists|i: int| 0 <= i < f.pawns@.len() && (#[trigger] pp(i)).contains(e) {
        let i = choose|i: int| 0 <= i < f.pawns@.len() && (#[trigger] pp(i)).contains(e);
        assert(pawn_issues(f.pawns@[i], i, f.width, f.height).contains(e));
    }
    if exists|i: int| 0 <= i < f.pawns@.len() && #[trigger] pawn_issues(f.pawns@[i], i, f.width, f.height).contains(e) {
        let i = choose|i: int| 0 <= i < f.pawns@.len() && #[trigger] pawn_issues(f.pawns@[i], i, f.width, f.height).contains(e);
        assert(pp(i).contains(e));
    }
    if exists|i: int| 0 <= i < f.glow_sources@.len() && (#[trigger] gp(i)).contains(e) {
        let i = choose|i: int| 0 <= i < f.glow_sources@.len() && (#[trigger] gp(i)).contains(e);
        assert(glow_issues(f.glow_sources@[i], i, f.width, f.height).contains(e));
    }
    if exists|i: int|
        0 <= i < f.glow_sources@.len() && #[trigger] glow_issues(f.glow_sources@[i], i, f.width, f.height).contains(e) {
        let i = choose|i: int|
            0 <= i < f.glow_sources@.len() && #[trigger] glow_issues(f.glow_sources@[i], i, f.width, f.height).contains(e);
        assert(gp(i).contains(e));
    }
}

/// An issue that carries a cell comes from a thing, a pawn or a glow source
/// whose cell is off the map, and names that item's index and cell.
proof fn lemma_bounds_issue_source(f: FixtureChecks, e: FixtureIssue)
    requires
        out_of_bounds_kind(e),
        fixture_issues(f).contains(e),
    ensures
        (exists|i: int|
            0 <= i < f.things@.len() && !cell_in_bounds(f.things@[i].cell_x, f.things@[i].cell_z, f.width, f.height) && e
                == (FixtureIssue::ThingOutOfBounds {
                index: i as usize,
                x: f.things@[i].cell_x,
                z: f.things@[i].cell_z,
                width: f.width,
                height: f.height,
            })) || (exists|i: int|
            0 <= i < f.pawns@.len() && !cell_in_bounds(f.pawns@[i].cell_x, f.pawns@[i].cell_z, f.width, f.height) && e
                == (FixtureIssue::PawnOutOfBounds {
                index: i as usize,
                x: f.pawns@[i].cell_x,
                z: f.pawns@[i].cell_z,
                width: f.width,
                height: f.height,
            })) || (exists|i: int|
            0 <= i < f.glow_sources@.len() && !cell_in_bounds(
                f.glow_sources@[i].cell_x,
                f.glow_sources@[i].cell_z,
                f.width,
                f.height,
            ) && e == (FixtureIssue::GlowSourceOutOfBounds {
                index: i as usize,
                x: f.glow_sources@[i].cell_x,
                z: f.glow_sources@[i].cell_z,
                width: f.width,
                height: f.height,
            })),
{
    lemma_fixture_bounds_split(f, e);
    if exists|i: int| 0 <= i < f.things@.len() && #[trigger] thing_issues(f.things@[i], i, f.width, f.height).contains(e) {
        let i = choose|i: int| 0 <= i < f.things@.len() && #[trigger] thing_issues(f.things@[i], i, f.width, f.height).contains(e);
        lemma_thing_issues_bounds(f.things@[i], i, f.width, f.height, e);
    } else if exists|i: int|
        0 <= i < f.glow_sources@.len() && #[trigger] glow_issues(f.glow_sources@[i], i, f.width, f.height).contains(e) {
        let i = choose|i: int|
            0 <= i < f.glow_sources@.len() && #[trigger] glow_issues(f.glow_sources@[i], i, f.width, f.height).contains(e);
        lemma_glow_issues_bounds(f.glow_sources@[i], i, f.width, f.height, e);
    } else {
        let i = choose|i: int| 0 <= i < f.pawns@.len() && #[trigger] pawn_issues(f.pawns@[i], i, f.width, f.height).contains(e);
        lemma_pawn_issues_bounds(f.pawns@[i], i, f.width, f.height, e);
    }
}

/// A pawn is reported out of bounds exactly when its cell is off the map:
/// the fixture's issues hold `PawnOutOfBounds` with pawn `k`'s index, cell
/// and the map's size exactly when its x is not in `0..width` or its z not
/// in `0..height` (the sizes taken as `i32`), x checked against the width
/// and z against the height; and every `PawnOutOfBounds` reported is of
/// that form for some pawn.
pub proof fn lemma_pawn_out_of_bounds_reported(f: FixtureChecks, k: int)
    requires
        0 <= k < f.pawns@.len(),
    ensures
        fixture_issues(f).contains(
            FixtureIssue::PawnOutOfBounds {
                index: k as usize,
                x: f.pawns@[k].cell_x,
                z: f.pawns@[k].cell_z,
                width: f.width,
                height: f.height,
            },
        ) <==> !(0 <= f.pawns@[k].cell_x < (f.width as i32) && 0 <= f.pawns@[k].cell_z < (f.height as i32)),
        forall|e: FixtureIssue|
            #![trigger fixture_issues(f).contains(e)]
            e is PawnOutOfBounds && fixture_issues(f).contains(e) ==> exists|i: int|
                0 <= i < f.pawns@.len() && e == (FixtureIssue::PawnOutOfBounds {
                    index: i as usize,
                    x: f.pawns@[i].cell_x,
                    z: f.pawns@[i].cell_z,
                    width: f.width,
                    height: f.height,
                }) && !(0 <= f.pawns@[i].cell_x < (f.width as i32) && 0 <= f.pawns@[i].cell_z < (f.height as i32)),
{
    assert forall|e: FixtureIssue| #![trigger fixture_issues(f).contains(e)] e is PawnOutOfBounds
        && fixture_issues(f).contains(e) implies exists|i: int|
        0 <= i < f.pawns@.len() && e == (FixtureIssue::PawnOutOfBounds {
            index: i as usize,
            x: f.pawns@[i].cell_x,
            z: f.pawns@[i].cell_z,
            width: f.width,
            height: f.height,
        }) && !(0 <= f.pawns@[i].cell_x < (f.width as i32) && 0 <= f.pawns@[i].cell_z < (f.height as i32)) by {
        lemma_bounds_issue_source(f, e);
    }
    let p = f.pawns@[k];
    let e = FixtureIssue::PawnOutOfBounds { index: k as usize, x: p.cell_x, z: p.cell_z, width: f.width, height: f.height };
    lemma_fixture_bounds_split(f, e);
    lemma_pawn_issues_bounds(p, k, f.width, f.height, e);
    if fixture_issues(f).contains(e) {
        lemma_bounds_issue_source(f, e);
    }
}

/// A thing is reported out of bounds exactly when its cell is off the map,
/// by the same rule as a pawn: x against the width, z against the height.
pub proof fn lemma_thing_out_of_bounds_reported(f: FixtureChecks, k: int)
    requires
        0 <= k < f.things@.len(),
    ensures
        fixture_issues(f).contains(
            FixtureIssue::ThingOutOfBounds {
                index: k as usize,
                x: f.things@[k].cell_x,
                z: f.things@[k].cell_z,
                width: f.width,
                height: f.height,
            },
        ) <==> !(0 <= f.things@[k].cell_x < (f.width as i32) && 0 <= f.things@[k].cell_z < (f.height as i32)),
{
    let t = f.things@[k];
    let e = FixtureIssue::ThingOutOfBounds { index: k as usize, x: t.cell_x, z: t.cell_z, width: f.width, height: f.height };
    lemma_fixture_bounds_split(f, e);
    lemma_thing_issues_bounds(t, k, f.width, f.height, e);
    if fixture_issues(f).contains(e) {
        lemma_bounds_issue_source(f, e);
    }
}

/// A glow source is reported out of bounds exactly when its cell is off the
/// map, by the same rule as a pawn: x against the width, z against the
/// height.
pub proof fn lemma_glow_out_of_bounds_reported(f: FixtureChecks, k: int)
    requires
        0 <= k < f.glow_sources@.len(),
    ensures
        fixture_issues(f).contains(
            FixtureIssue::GlowSourceOutOfBounds {
                index: k as usize,
                x: f.glow_sources@[k].cell_x,
                z: f.glow_sources@[k].cell_z,
                width: f.width,
                height: f.height,
            },
        ) <==> !(0 <= f.glow_sources@[k].cell_x < (f.width as i32) && 0 <= f.glow_sources@[k].cell_z < (f.height as i32)),
{
    let g = f.glow_sources@[k];
    let e = FixtureIssue::GlowSourceOutOfBounds { index: k as usize, x: g.cell_x, z: g.cell_z, width: f.width, height: f.height };
    lemma_fixture_bounds_split(f, e);
    lemma_glow_issues_bounds(g, k, f.width, f.height, e);
    if fixture_issues(f).contains(e) {
        lemma_bounds_issue_source(f, e);
    }
}

/// Whether a cell lies on a `width` by `height` map, the sizes taken as `i32`.
pub fn in_bounds(x: i32, z: i32, width: usize, height: usize) -> (r: bool)
    ensures
        r == cell_in_bounds(x, z, width, height),
{
    x >= 0 && z >= 0 && x < width as i32 && z < height as i32
}

fn push_when(errors: &mut Vec<FixtureIssue>, c: bool, issue: FixtureIssue)
    ensures
        final(errors)@ == old(errors)@ + when(c, issue),
{
    if c {
        errors.push(issue);
    }
    proof {
        assert(final(errors)@ =~= old(errors)@ + when(c, issue));
    }
}

/// Reports a grid whose length is neither zero nor the map's cell count.
pub fn validate_grid_len(grid: GridName, len: usize, expected_cells: usize, errors: &mut Vec<FixtureIssue>)
    ensures
        final(errors)@ == old(errors)@ + grid_issue(grid, len, expected_cells as int),
{
    push_when(errors, len != 0 && len != expected_cells, FixtureIssue::GridCountMismatch { grid, got: len, expected: expected_cells });
}

proof fn lemma_concat_step(base: Seq<FixtureIssue>, n: nat, pick: spec_fn(int) -> Seq<FixtureIssue>)
    ensures
        base + concat_over(n + 1, pick) == base + concat_over(n, pick) + pick(n as int),
{
    assert(base + concat_over(n + 1, pick) =~= base + concat_over(n, pick) + pick(n as int));
}

fn append_issues(errors: &mut Vec<FixtureIssue>, more: Vec<FixtureIssue>)
    ensures
        final(errors)@ == old(errors)@ + more@,
{
    let mut more = more;
    errors.append(&mut more);
}

fn pawn_checks(p: &PawnSpawn, i: usize, width: usize, height: usize) -> (r: Vec<FixtureIssue>)
    ensures
        r@ == pawn_issues(*p, i as int, width, height),
{
    let mut errors: Vec<FixtureIssue> = Vec::new();
    push_when(&mut errors, !in_bounds(p.cell_x, p.cell_z, width, height), FixtureIssue::PawnOutOfBounds {
        index: i,
        x: p.cell_x,
        z: p.cell_z,
        width,
        height,
    });
    proof {
        assert(Seq::<FixtureIssue>::empty() + when(!cell_in_bounds(p.cell_x, p.cell_z, width, height), FixtureIssue::PawnOutOfBounds {
            index: i,
            x: p.cell_x,
            z: p.cell_z,
            width,
            height,
        }) =~= when(!cell_in_bounds(p.cell_x, p.cell_z, width, height), FixtureIssue::PawnOutOfBounds {
            index: i,
            x: p.cell_x,
            z: p.cell_z,
            width,
            height,
        }));
    }
    push_when(&mut errors, is_blank_given(&p.label), FixtureIssue::BlankPawnLabel { index: i });
    push_when(&mut errors, is_blank_given(&p.body), FixtureIssue::BlankPawnPart { index: i, part: PawnPart::Body });
    push_when(&mut errors, is_blank_given(&p.head), FixtureIssue::BlankPawnPart { index: i, part: PawnPart::Head });
    push_when(&mut errors, is_blank_given(&p.hair), FixtureIssue::BlankPawnPart { index: i, part: PawnPart::Hair });
    push_when(&mut errors, is_blank_given(&p.beard), FixtureIssue::BlankPawnPart { index: i, part: PawnPart::Beard });
    let ghost mid = errors@;
    let mut j: usize = 0;
    while j < p.apparel_defs.len()
        invariant
            j <= p.apparel_defs@.len(),
            errors@ == mid + concat_over(j as nat, apparel_pick(p.apparel_defs@, i as int)),
        decreases p.apparel_defs.len() - j,
    {
        proof {
            lemma_concat_step(mid, j as nat, apparel_pick(p.apparel_defs@, i as int));
        }
        push_when(&mut errors, is_blank(p.apparel_defs[j].as_str()), FixtureIssue::BlankApparelDef { index: i, apparel_index: j });
        j += 1;
    }
    errors
}

fn thing_checks(t: &ThingSpawn, i: usize, width: usize, height: usize) -> (r: Vec<FixtureIssue>)
    ensures
        r@ == thing_issues(*t, i as int, width, height),
{
    let mut errors: Vec<FixtureIssue> = Vec::new();
    let empty = is_blank(t.def_name.as_str());
    push_when(&mut errors, empty, FixtureIssue::EmptyThingDef { index: i });
    proof {
        assert(Seq::<FixtureIssue>::empty() + when(empty, FixtureIssue::EmptyThingDef { index: i })
            =~= when(empty, FixtureIssue::EmptyThingDef { index: i }));
    }
    push_when(&mut errors, !t.blocks_movement && empty, FixtureIssue::NonBlockingWithoutDef { index: i });
    push_when(&mut errors, !in_bounds(t.cell_x, t.cell_z, width, height), FixtureIssue::ThingOutOfBounds {
        index: i,
        x: t.cell_x,
        z: t.cell_z,
        width,
        height,
    });
    errors
}

fn glow_checks(g: GlowSourceCheck, i: usize, width: usize, height: usize) -> (r: Vec<FixtureIssue>)
    ensures
        r@ == glow_issues(g, i as int, width, height),
{
    let mut errors: Vec<FixtureIssue> = Vec::new();
    let out = !in_bounds(g.cell_x, g.cell_z, width, height);
    let first = FixtureIssue::GlowSourceOutOfBounds { index: i, x: g.cell_x, z: g.cell_z, width, height };
    push_when(&mut errors, out, first);
    proof {
        assert(Seq::<FixtureIssue>::empty() + when(out, first) =~= when(out, first));
    }
    push_when(&mut errors, !g.radius_ok, FixtureIssue::GlowRadiusInvalid { index: i });
    push_when(&mut errors, !g.overlight_radius_ok, FixtureIssue::GlowOverlightInvalid { index: i });
    push_when(&mut errors, !g.color_finite, FixtureIssue::GlowColorNotFinite { index: i });
    errors
}

fn map_checks(f: &FixtureChecks) -> (r: Vec<FixtureIssue>)
    ensures
        r@ == map_issues(*f),
{
    let mut errors: Vec<FixtureIssue> = Vec::new();
    let c = f.schema_version != SUPPORTED_SCHEMA_VERSION;
    let first = FixtureIssue::UnsupportedSchema { found: f.schema_version };
    push_when(&mut errors, c, first);
    proof {
        assert(Seq::<FixtureIssue>::empty() + when(c, first) =~= when(c, first));
    }
    push_when(&mut errors, f.width == 0 || f.height == 0, FixtureIssue::EmptyDimensions);
    let expected: usize = match f.width.checked_mul(f.height) {
        Some(v) => v,
        None => usize::MAX,
    };
    push_when(&mut errors, f.terrain.len() != expected, FixtureIssue::TerrainCountMismatch {
        got: f.terrain.len(),
        expected,
        width: f.width,
        height: f.height,
    });
    validate_grid_len(GridName::Roofs, f.roofs.len(), expected, &mut errors);
    validate_grid_len(GridName::Fog, f.fog_len, expected, &mut errors);
    validate_grid_len(GridName::SnowDepth, f.snow_depth_ok.len(), expected, &mut errors);
    errors
}

fn render_checks(f: &FixtureChecks, errors: &mut Vec<FixtureIssue>)
    ensures
        final(errors)@ == old(errors)@ + render_issues(*f),
{
    let mut local: Vec<FixtureIssue> = Vec::new();
    let c = matches!(f.camera_finite, Some(false));
    push_when(&mut local, c, FixtureIssue::CameraNotFinite);
    proof {
        assert(Seq::<FixtureIssue>::empty() + when(c, FixtureIssue::CameraNotFinite) =~= when(c, FixtureIssue::CameraNotFinite));
    }
    push_when(&mut local, matches!(f.day_percent_ok, Some(false)), FixtureIssue::DayPercentOutOfRange);
    push_when(&mut local, matches!(f.sky_glow_finite, Some(false)), FixtureIssue::SkyGlowNotFinite);
    push_when(&mut local, matches!(f.shadow_color_finite, Some(false)), FixtureIssue::ShadowColorNotFinite);
    push_when(&mut local, matches!(f.shadow_vector_finite, Some(false)), FixtureIssue::ShadowVectorNotFinite);
    append_issues(errors, local);
}

fn terrain_section(cells: &Vec<TerrainCell>, errors: &mut Vec<FixtureIssue>)
    ensures
        final(errors)@ == old(errors)@ + concat_over(cells@.len(), terrain_pick(cells@)),
{
    let ghost base = errors@;
    let mut i: usize = 0;
    while i < cells.len()
        invariant
            i <= cells@.len(),
            errors@ == base + concat_over(i as nat, terrain_pick(cells@)),
        decreases cells.len() - i,
    {
        proof {
            lemma_concat_step(base, i as nat, terrain_pick(cells@));
        }
        push_when(errors, is_blank(cells[i].terrain_def.as_str()), FixtureIssue::EmptyTerrainDef { index: i });
        i += 1;
    }
}

fn roof_section(roofs: &Vec<RoofCell>, errors: &mut Vec<FixtureIssue>)
    ensures
        final(errors)@ == old(errors)@ + concat_over(roofs@.len(), roof_pick(roofs@)),
{
    let ghost base = errors@;
    let mut i: usize = 0;
    while i < roofs.len()
        invariant
            i <= roofs@.len(),
            errors@ == base + concat_over(i as nat, roof_pick(roofs@)),
        decreases roofs.len() - i,
    {
        proof {
            lemma_concat_step(base, i as nat, roof_pick(roofs@));
        }
        let roof = roofs[i];
        push_when(errors, roof.thick && !roof.roofed, FixtureIssue::ThickWithoutRoof { index: i });
        i += 1;
    }
}

fn snow_section(ok: &Vec<bool>, errors: &mut Vec<FixtureIssue>)
    ensures
        final(errors)@ == old(errors)@ + concat_over(ok@.len(), snow_pick(ok@)),
{
    let ghost base = errors@;
    let mut i: usize = 0;
    while i < ok.len()
        invariant
            i <= ok@.len(),
            errors@ == base + concat_over(i as nat, snow_pick(ok@)),
        decreases ok.len() - i,
    {
        proof {
            lemma_concat_step(base, i as nat, snow_pick(ok@));
        }
        push_when(errors, !ok[i], FixtureIssue::SnowDepthOutOfRange { index: i });
        i += 1;
    }
}

fn thing_section(things: &Vec<ThingSpawn>, width: usize, height: usize, errors: &mut Vec<FixtureIssue>)
    ensures
        final(errors)@ == old(errors)@ + concat_over(things@.len(), thing_pick(things@, width, height)),
{
    let ghost base = errors@;
    let mut i: usize = 0;
    while i < things.len()
        invariant
            i <= things@.len(),
            errors@ == base + concat_over(i as nat, thing_pick(things@, width, height)),
        decreases things.len() - i,
    {
        proof {
            lemma_concat_step(base, i as nat, thing_pick(things@, width, height));
        }
        append_issues(errors, thing_checks(&things[i], i, width, height));
        i += 1;
    }
}

fn pawn_section(pawns: &Vec<PawnSpawn>, width: usize, height: usize, errors: &mut Vec<FixtureIssue>)
    ensures
        final(errors)@ == old(errors)@ + concat_over(pawns@.len(), pawn_pick(pawns@, width, height)),
{
    let ghost base = errors@;
    let mut i: usize = 0;
    while i < pawns.len()
        invariant
            i <= pawns@.len(),
            errors@ == base + concat_over(i as nat, pawn_pick(pawns@, width, height)),
        decreases pawns.len() - i,
    {
        proof {
            lemma_concat_step(base, i as nat, pawn_pick(pawns@, width, height));
        }
        append_issues(errors, pawn_checks(&pawns[i], i, width, height));
        i += 1;
    }
}

fn glow_section(sources: &Vec<GlowSourceCheck>, width: usize, height: usize, errors: &mut Vec<FixtureIssue>)
    ensures
        final(errors)@ == old(errors)@ + concat_over(sources@.len(), glow_pick(sources@, width, height)),
{
    let ghost base = errors@;
    let mut i: usize = 0;
    while i < sources.len()
        invariant
            i <= sources@.len(),
            errors@ == base + concat_over(i as nat, glow_pick(sources@, width, height)),
        decreases sources.len() - i,
    {
        proof {
            lemma_concat_step(base, i as nat, glow_pick(sources@, width, height));
        }
        append_issues(errors, glow_checks(sources[i], i, width, height));
        i += 1;
    }
}

/// Every problem with the fixture, in the order they are reported.
pub fn fixture_issue_list(f: &FixtureChecks) -> (r: Vec<FixtureIssue>)
    ensures
        r@ == fixture_issues(*f),
{
    let mut errors = map_checks(f);
    terrain_section(&f.terrain, &mut errors);
    roof_section(&f.roofs, &mut errors);
    snow_section(&f.snow_depth_ok, &mut errors);
    thing_section(&f.things, f.width, f.height, &mut errors);
    pawn_section(&f.pawns, f.width, f.height, &mut errors);
    render_checks(f, &mut errors);
    glow_section(&f.glow_sources, f.width, f.height, &mut errors);
    errors
}

pub open spec fn grid_label(g: GridName) -> Seq<char> {
    match g {
        GridName::Roofs => "map.roofs"@,
        GridName::Fog => "map.fog"@,
        GridName::SnowDepth => "map.snow_depth"@,
    }
}

pub open spec fn part_label(p: PawnPart) -> Seq<char> {
    match p {
        PawnPart::Body => "body"@,
        PawnPart::Head => "head"@,
        PawnPart::Hair => "hair"@,
        PawnPart::Beard => "beard"@,
    }
}

pub open spec fn dec(v: usize) -> Seq<char> {
    decimal(v as nat)
}

pub open spec fn sdec(v: i32) -> Seq<char> {
    signed_decimal(v as int)
}

/// ` cell (x, z) is out of map bounds WxH`.
pub open spec fn out_of_bounds_text(x: i32, z: i32, width: usize, height: usize) -> Seq<char> {
    " cell ("@ + sdec(x) + ", "@ + sdec(z) + ") is out of map bounds "@ + dec(width) + "x"@ + dec(height)
}

/// The line that reports an issue.
pub open spec fn issue_text(issue: FixtureIssue) -> Seq<char> {
    match issue {
        FixtureIssue::UnsupportedSchema { found } =>
            "unsupported schema_version "@ + decimal(found as nat) + " (expected 2)"@,
        FixtureIssue::EmptyDimensions => "map dimensions must be > 0"@,
        FixtureIssue::TerrainCountMismatch { got, expected, width, height } =>
            "map terrain cell count mismatch: got "@ + dec(got) + " expected "@ + dec(expected) + " ("@
                + dec(width) + "x"@ + dec(height) + ")"@,
        FixtureIssue::GridCountMismatch { grid, got, expected } =>
            grid_label(grid) + " cell count mismatch: got "@ + dec(got) + " expected "@ + dec(expected),
        FixtureIssue::EmptyTerrainDef { index } =>
            "map terrain["@ + dec(index) + "].terrain_def is empty"@,
        FixtureIssue::ThickWithoutRoof { index } =>
            "map.roofs["@ + dec(index) + "] cannot be thick without roofed"@,
        FixtureIssue::SnowDepthOutOfRange { index } =>
            "map.snow_depth["@ + dec(index) + "] must be finite and between 0.0 and 1.0"@,
        FixtureIssue::EmptyThingDef { index } => "things["@ + dec(index) + "].def_name is empty"@,
        FixtureIssue::NonBlockingWithoutDef { index } =>
            "things["@ + dec(index) + "] non-blocking item must still provide a def_name"@,
        FixtureIssue::ThingOutOfBounds { index, x, z, width, height } =>
            "things["@ + dec(index) + "]"@ + out_of_bounds_text(x, z, width, height),
        FixtureIssue::PawnOutOfBounds { index, x, z, width, height } =>
            "pawns["@ + dec(index) + "]"@ + out_of_bounds_text(x, z, width, height),
        FixtureIssue::BlankPawnLabel { index } =>
            "pawns["@ + dec(index) + "].label cannot be blank when provided"@,
        FixtureIssue::BlankPawnPart { index, part } =>
            "pawns["@ + dec(index) + "]."@ + part_label(part) + " cannot be blank"@,
        FixtureIssue::BlankApparelDef { index, apparel_index } =>
            "pawns["@ + dec(index) + "].apparel_defs["@ + dec(apparel_index) + "] cannot be blank"@,
        FixtureIssue::CameraNotFinite => "camera center must be finite"@,
        FixtureIssue::DayPercentOutOfRange => "render.day_percent must be finite and between 0.0 and 1.0"@,
        FixtureIssue::SkyGlowNotFinite => "render.sky_glow components must be finite"@,
        FixtureIssue::ShadowColorNotFinite => "render.shadow_color components must be finite"@,
        FixtureIssue::ShadowVectorNotFinite => "render.shadow_vector components must be finite"@,
        FixtureIssue::GlowSourceOutOfBounds { index, x, z, width, height } =>
            "render.glow_sources["@ + dec(index) + "]"@ + out_of_bounds_text(x, z, width, height),
        FixtureIssue::GlowRadiusInvalid { index } =>
            "render.glow_sources["@ + dec(index) + "].radius must be finite and >= 0.0"@,
        FixtureIssue::GlowOverlightInvalid { index } =>
            "render.glow_sources["@ + dec(index) + "].overlight_radius must be finite and >= 0.0"@,
        FixtureIssue::GlowColorNotFinite { index } =>
            "render.glow_sources["@ + dec(index) + "].color components must be finite"@,
    }
}

/// The report of a failed validation: a heading, then each issue on a line
/// of its own after a dash.
pub open spec fn report_text(issues: Seq<FixtureIssue>) -> Seq<char>
    decreases issues.len(),
{
    if issues.len() == 0 {
        "fixture validation failed:\n"@
    } else {
        report_text(issues.drop_last()) + "- "@ + issue_text(issues.last()) + "\n"@
    }
}

fn push_out_of_bounds(out: &mut Vec<char>, x: i32, z: i32, width: usize, height: usize)
    ensures
        final(out)@ == old(out)@ + out_of_bounds_text(x, z, width, height),
{
    push_str(out, " cell (");
    push_signed(out, x);
    push_str(out, ", ");
    push_signed(out, z);
    push_str(out, ") is out of map bounds ");
    push_decimal(out, width);
    push_str(out, "x");
    push_decimal(out, height);
    proof {
        assert(final(out)@ =~= old(out)@ + out_of_bounds_text(x, z, width, height));
    }
}

fn push_indexed(out: &mut Vec<char>, head: &str, index: usize, tail: &str)
    ensures
        final(out)@ == old(out)@ + head@ + dec(index) + tail@,
{
    push_str(out, head);
    push_decimal(out, index);
    push_str(out, tail);
}

/// Appends the line that reports `issue`.
#[verifier::spinoff_prover]
fn push_issue_text(out: &mut Vec<char>, issue: FixtureIssue)
    ensures
        final(out)@ =~= old(out)@ + issue_text(issue),
{
    match issue {
        FixtureIssue::UnsupportedSchema { found } => {
            push_str(out, "unsupported schema_version ");
            push_decimal(out, found as usize);
            push_str(out, " (expected 2)");
        },
        FixtureIssue::EmptyDimensions => push_str(out, "map dimensions must be > 0"),
        FixtureIssue::TerrainCountMismatch { got, expected, width, height } => {
            push_indexed(out, "map terrain cell count mismatch: got ", got, " expected ");
            push_decimal(out, expected);
            push_str(out, " (");
            push_decimal(out, width);
            push_str(out, "x");
            push_decimal(out, height);
            push_str(out, ")");
        },
        FixtureIssue::GridCountMismatch { grid, got, expected } => {
            match grid {
                GridName::Roofs => push_str(out, "map.roofs"),
                GridName::Fog => push_str(out, "map.fog"),
                GridName::SnowDepth => push_str(out, "map.snow_depth"),
            }
            push_indexed(out, " cell count mismatch: got ", got, " expected ");
            push_decimal(out, expected);
        },
        FixtureIssue::EmptyTerrainDef { index } => push_indexed(out, "map terrain[", index, "].terrain_def is empty"),
        FixtureIssue::ThickWithoutRoof { index } => push_indexed(out, "map.roofs[", index, "] cannot be thick without roofed"),
        FixtureIssue::SnowDepthOutOfRange { index } =>
            push_indexed(out, "map.snow_depth[", index, "] must be finite and between 0.0 and 1.0"),
        FixtureIssue::EmptyThingDef { index } => push_indexed(out, "things[", index, "].def_name is empty"),
        FixtureIssue::NonBlockingWithoutDef { index } =>
            push_indexed(out, "things[", index, "] non-blocking item must still provide a def_name"),
        FixtureIssue::ThingOutOfBounds { index, x, z, width, height } => {
            push_indexed(out, "things[", index, "]");
            push_out_of_bounds(out, x, z, width, height);
        },
        FixtureIssue::PawnOutOfBounds { index, x, z, width, height } => {
            push_indexed(out, "pawns[", index, "]");
            push_out_of_bounds(out, x, z, width, height);
        },
        FixtureIssue::BlankPawnLabel { index } => push_indexed(out, "pawns[", index, "].label cannot be blank when provided"),
        FixtureIssue::BlankPawnPart { index, part } => {
            push_indexed(out, "pawns[", index, "].");
            match part {
                PawnPart::Body => push_str(out, "body"),
                PawnPart::Head => push_str(out, "head"),
                PawnPart::Hair => push_str(out, "hair"),
                PawnPart::Beard => push_str(out, "beard"),
            }
            push_str(out, " cannot be blank");
        },
        FixtureIssue::BlankApparelDef { index, apparel_index } => {
            push_indexed(out, "pawns[", index, "].apparel_defs[");
            push_decimal(out, apparel_index);
            push_str(out, "] cannot be blank");
        },
        FixtureIssue::CameraNotFinite => push_str(out, "camera center must be finite"),
        FixtureIssue::DayPercentOutOfRange => push_str(out, "render.day_percent must be finite and between 0.0 and 1.0"),
        FixtureIssue::SkyGlowNotFinite => push_str(out, "render.sky_glow components must be finite"),
        FixtureIssue::ShadowColorNotFinite => push_str(out, "render.shadow_color components must be finite"),
        FixtureIssue::ShadowVectorNotFinite => push_str(out, "render.shadow_vector components must be finite"),
        FixtureIssue::GlowSourceOutOfBounds { index, x, z, width, height } => {
            push_indexed(out, "render.glow_sources[", index, "]");
            push_out_of_bounds(out, x, z, width, height);
        },
        FixtureIssue::GlowRadiusInvalid { index } =>
            push_indexed(out, "render.glow_sources[", index, "].radius must be finite and >= 0.0"),
        FixtureIssue::GlowOverlightInvalid { index } =>
            push_indexed(out, "render.glow_sources[", index, "].overlight_radius must be finite and >= 0.0"),
        FixtureIssue::GlowColorNotFinite { index } =>
            push_indexed(out, "render.glow_sources[", index, "].color components must be finite"),
    }
}

impl FixtureIssue {
    /// The line that reports this issue.
    pub fn message(&self) -> (r: String)
        ensures
            r@ == issue_text(*self),
    {
        let mut out: Vec<char> = Vec::new();
        push_issue_text(&mut out, *self);
        proof {
            assert(out@ =~= issue_text(*self));
        }
        string_of(out.as_slice())
    }
}

/// The report listing `issues`.
pub fn issue_report(issues: &Vec<FixtureIssue>) -> (r: String)
    ensures
        r@ == report_text(issues@),
{
    let mut out: Vec<char> = Vec::new();
    push_str(&mut out, "fixture validation failed:\n");
    let mut i: usize = 0;
    while i < issues.len()
        invariant
            i <= issues@.len(),
            out@ == report_text(issues@.take(i as int)),
        decreases issues.len() - i,
    {
        proof {
            assert(issues@.take(i + 1).drop_last() =~= issues@.take(i as int));
        }
        push_str(&mut out, "- ");
        push_issue_text(&mut out, issues[i]);
        push_str(&mut out, "\n");
        i += 1;
    }
    proof {
        assert(issues@.take(issues@.len() as int) =~= issues@);
    }
    string_of(out.as_slice())
}

/// Checks a fixture: `Ok` when it has no issue, else the report of all of
/// them.
pub fn validate_fixture(fixture: &FixtureChecks) -> (r: Result<(), String>)
    ensures
        r is Ok <==> fixture_issues(*fixture).len() == 0,
        r matches Err(msg) ==> msg@ == report_text(fixture_issues(*fixture)),
{
    let issues = fixture_issue_list(fixture);
    if issues.len() == 0 {
        Ok(())
    } else {
        Err(issue_report(&issues))
    }
}

} // verus!
