use stitchlands::defs::apparel::{
    head_coverage, outermost_layer, parent_tag_name, parse_apparel_layer_def, parse_apparel_skip_flag_def, parse_bool,
    skip_flags_of,
};
use stitchlands::defs::apparel_defs::load_apparel_defs;
use stitchlands::defs::head_types::{load_head_type_defs, HeadTypeDefRender, RawHeadType};
use stitchlands::defs::numbers::{color_numbers_of, inline_parts_of, inline_vector_of, is_float_text};
use stitchlands::defs::reader::load_defs;
use stitchlands::defs::render_tree::{parse_humanlike_render_tree_layers, RenderTreeError};
use stitchlands::defs::render_defs::{load_beard_defs, load_body_type_defs, load_thing_defs};
use stitchlands::defs::xml::{attribute_of, child_text_of, XmlNode};
use stitchlands::defs::{load_hair_defs, load_terrain_defs, ApparelLayerDef, ApparelSkipFlagDef, HairDefRender};
use stitchlands::defs::loaders::scan_hair_nodes;

fn owned_strings(v: &[&str]) -> Vec<String> {
    v.iter().map(|s| s.to_string()).collect()
}

#[test]
fn parses_minimal_terraindef() {
    let xml = r#"
        <Defs>
            <TerrainDef>
                <defName>SoilRich</defName>
                <texturePath>Terrain/Surfaces/SoilRich</texturePath>
                <edgePath>Terrain/Edges/Soil</edgePath>
            </TerrainDef>
        </Defs>
        "#;
    let defs = load_terrain_defs(&[xml.to_string()]);
    let terrain = defs.iter().find(|d| d.def_name == "SoilRich").unwrap();
    assert_eq!(terrain.texture_path, "Terrain/Surfaces/SoilRich");
    assert_eq!(terrain.edge_texture_path.as_deref(), Some("Terrain/Edges/Soil"));
}

#[test]
fn later_terrain_def_replaces_earlier_and_bad_files_are_skipped() {
    let first = "<Defs><TerrainDef><defName>Soil</defName><texPath>A</texPath></TerrainDef>\
                 <TerrainDef><defName>Sand</defName><texturePath>S</texturePath><edgeTexturePath>E</edgeTexturePath></TerrainDef>\
                 <TerrainDef><defName>NoTexture</defName></TerrainDef></Defs>";
    let broken = "<Defs><TerrainDef>";
    let second = "<Defs><TerrainDef><defName>Soil</defName><texturePath> B </texturePath></TerrainDef></Defs>";
    let defs = load_terrain_defs(&owned_strings(&[first, broken, second]));
    assert_eq!(defs.len(), 2);
    assert_eq!(defs[0].def_name, "Soil");
    assert_eq!(defs[0].texture_path, "B");
    assert_eq!(defs[0].edge_texture_path, None);
    assert_eq!(defs[1].def_name, "Sand");
    assert_eq!(defs[1].edge_texture_path.as_deref(), Some("E"));
}

#[test]
fn hair_defs_need_name_and_texture() {
    let xml = "<Defs><HairDef><defName>Shaved</defName><texPath>Things/Pawn/Humanlike/Hairs/Shaved</texPath></HairDef>\
               <HairDef><defName>Broken</defName></HairDef></Defs>";
    let defs = load_hair_defs(&[xml.to_string()]);
    assert_eq!(defs.len(), 1);
    assert_eq!(defs[0].def_name, "Shaved");
    assert_eq!(defs[0].tex_path, "Things/Pawn/Humanlike/Hairs/Shaved");
}

fn element(name: &str, parent: Option<usize>, text: Option<&str>) -> XmlNode {
    XmlNode { element: true, name: name.to_string(), parent, text: text.map(str::to_string), attributes: Vec::new() }
}

fn text_node(parent: usize, text: &str) -> XmlNode {
    XmlNode { element: false, name: String::new(), parent: Some(parent), text: Some(text.to_string()), attributes: Vec::new() }
}

#[test]
fn child_text_is_trimmed_and_first_match_wins() {
    // The nodes of `<a><b> x </b><b>y</b><c/></a>`, root first.
    let nodes = vec![
        XmlNode { element: false, name: String::new(), parent: None, text: None, attributes: Vec::new() },
        element("a", Some(0), None),
        element("b", Some(1), Some(" x ")),
        text_node(2, " x "),
        element("b", Some(1), Some("y")),
        text_node(4, "y"),
        element("c", Some(1), None),
    ];
    assert_eq!(child_text_of(&nodes, 1, "b"), Some("x".to_string()));
    assert_eq!(child_text_of(&nodes, 1, "c"), None);
    assert_eq!(child_text_of(&nodes, 1, "d"), None);
}

#[test]
fn parses_apparel_layer_and_skip_names() {
    assert_eq!(parse_apparel_layer_def("Overhead"), Some(ApparelLayerDef::Overhead));
    assert_eq!(parse_apparel_layer_def("ApparelLayerDefOf.Shell"), Some(ApparelLayerDef::Shell));
    assert_eq!(parse_apparel_layer_def("shell"), None);
    assert_eq!(parse_apparel_skip_flag_def("RenderSkipFlagDefOf.Beard"), Some(ApparelSkipFlagDef::Beard));
    assert_eq!(parse_apparel_skip_flag_def("Eyes"), None);
    assert_eq!(skip_flags_of(&owned_strings(&["Hair", "Eyes", "Beard"])), vec![ApparelSkipFlagDef::Hair, ApparelSkipFlagDef::Beard]);
}

#[test]
fn outermost_layer_and_head_coverage() {
    assert_eq!(outermost_layer(&owned_strings(&["OnSkin", "Overhead"])), ApparelLayerDef::Overhead);
    assert_eq!(outermost_layer(&owned_strings(&["Shell", "Middle", "Bogus"])), ApparelLayerDef::Shell);
    assert_eq!(outermost_layer(&[]), ApparelLayerDef::OnSkin);
    assert_eq!(head_coverage(&owned_strings(&["UpperHead", "FullHead"])), (true, true));
    assert_eq!(head_coverage(&owned_strings(&["UpperHead"])), (true, false));
    assert_eq!(head_coverage(&owned_strings(&["Torso"])), (false, false));
    assert_eq!(ApparelLayerDef::EyeCover.draw_order(), 60);
}

#[test]
fn parses_booleans_and_tags() {
    assert_eq!(parse_bool(" TRUE "), Some(true));
    assert_eq!(parse_bool("false"), Some(false));
    assert_eq!(parse_bool("yes"), None);
    assert_eq!(parent_tag_name("ApparelLayerDefOf.Overhead"), "Overhead");
    assert_eq!(parent_tag_name("Plain"), "Plain");
}

fn num(s: &str) -> f32 {
    s.parse().unwrap()
}

fn nums(v: &[String]) -> Vec<f32> {
    v.iter().map(|s| num(s)).collect()
}

#[test]
fn parses_color_formats() {
    let c1 = color_numbers_of("1 0.5 0").unwrap();
    assert_eq!(nums(&c1), vec![1.0, 0.5, 0.0]);
    assert_eq!(c1.len(), 3, "alpha defaults to 1.0");

    let c2 = color_numbers_of("0.1, 0.2, 0.3, 0.4").unwrap();
    assert_eq!(nums(&c2), vec![0.1, 0.2, 0.3, 0.4]);
}

#[test]
fn color_needs_three_numbers_and_ignores_bad_alpha() {
    assert!(color_numbers_of("1 0.5").is_none());
    assert!(color_numbers_of("1 x 0").is_none());
    assert_eq!(color_numbers_of(" 1,,2  3 q").unwrap(), owned_strings(&["1", "2", "3"]));
}

#[test]
fn parses_minimal_thingdef() {
    let xml = r#"
        <Defs>
            <ThingDef>
                <defName>TestThing</defName>
                <graphicData>
                    <texPath>Things/Test</texPath>
                    <drawSize><x>2.0</x><y>3.0</y></drawSize>
                    <drawOffset><x>0.1</x><y>0.2</y><z>0.3</z></drawOffset>
                </graphicData>
            </ThingDef>
        </Defs>
        "#;
    let defs = load_thing_defs(&[xml.to_string()]);
    let thing = defs.iter().find(|d| d.def_name == "TestThing").unwrap();
    assert_eq!(thing.graphic_data.tex_path, "Things/Test");
    let size: Vec<f32> = thing.graphic_data.draw_size.as_ref().unwrap().iter().map(|c| num(c.as_ref().unwrap())).collect();
    assert_eq!(size, vec![2.0, 3.0]);
    let offset: Vec<f32> = thing.graphic_data.draw_offset.as_ref().unwrap().iter().map(|c| num(c.as_ref().unwrap())).collect();
    assert_eq!(offset, vec![0.1, 0.2, 0.3]);
}

#[test]
fn thing_defs_need_graphic_data_with_texture() {
    let xml = r#"
        <Defs>
            <ThingDef><defName>NoGraphic</defName></ThingDef>
            <ThingDef><defName>NoTex</defName><graphicData><graphicClass>Graphic_Single</graphicClass></graphicData></ThingDef>
            <ThingDef>
                <defName>Plain</defName>
                <graphicData>
                    <texPath>Things/Plain</texPath>
                    <graphicClass>Graphic_Random</graphicClass>
                    <color>(0.5, 0.5, 0.5)</color>
                    <drawSize><x>oops</x></drawSize>
                </graphicData>
            </ThingDef>
        </Defs>
        "#;
    let defs = load_thing_defs(&[xml.to_string()]);
    assert_eq!(defs.len(), 1);
    let g = &defs[0].graphic_data;
    assert_eq!(g.graphic_class.as_deref(), Some("Graphic_Random"));
    assert!(g.color.is_none(), "brackets are not part of the colour grammar");
    assert_eq!(g.draw_size, Some(vec![None, None]));
    assert!(g.draw_offset.is_none());
}

#[test]
fn body_types_need_a_readable_head_offset() {
    let xml = r#"
        <Defs>
            <BodyTypeDef><defName>Male</defName><headOffset>(0.09, 0.34)</headOffset><bodyNakedGraphicPath>Bodies/Naked_Male</bodyNakedGraphicPath></BodyTypeDef>
            <BodyTypeDef><defName>Bad</defName><headOffset>(x, 0.34)</headOffset><bodyNakedGraphicPath>Bodies/Bad</bodyNakedGraphicPath></BodyTypeDef>
            <BodyTypeDef><defName>NoPath</defName><headOffset>(0, 0)</headOffset></BodyTypeDef>
        </Defs>
        "#;
    let defs = load_body_type_defs(&[xml.to_string()]);
    assert_eq!(defs.len(), 1);
    assert_eq!(defs[0].def_name, "Male");
    assert_eq!(nums(&defs[0].head_offset), vec![0.09, 0.34]);
    assert_eq!(defs[0].body_naked_graphic_path, "Bodies/Naked_Male");
}

#[test]
fn beard_defs_default_missing_fields() {
    let xml = r#"
        <Defs>
            <BeardDef><defName>NoBeard</defName><noGraphic>True</noGraphic></BeardDef>
            <BeardDef>
                <defName>BeardFull</defName>
                <texPath>Things/Beards/Full</texPath>
                <offsetNarrowEast>(-0.05, 0, 0)</offsetNarrowEast>
                <offsetNarrowSouth>(0, 0)</offsetNarrowSouth>
            </BeardDef>
        </Defs>
        "#;
    let defs = load_beard_defs(&[xml.to_string()]);
    assert_eq!(defs.len(), 2);
    assert!(defs[0].no_graphic);
    assert_eq!(defs[0].tex_path, "");
    assert!(!defs[1].no_graphic);
    assert_eq!(nums(defs[1].offset_narrow_east.as_ref().unwrap()), vec![-0.05, 0.0, 0.0]);
    assert!(defs[1].offset_narrow_south.is_none());
}

#[test]
fn float_texts_follow_rust_grammar() {
    for ok in ["1", "-0.5", "+.5", "5.", "1e10", "1E-3", "inf", "-Infinity", "NaN", "007"] {
        assert!(is_float_text(ok), "{ok}");
        assert!(ok.parse::<f32>().is_ok(), "{ok}");
    }
    for bad in ["", ".", "+", "e5", "1e", "1.2.3", " 1", "1 ", "--1", "0x10", "infinit", "1e+"] {
        assert!(!is_float_text(bad), "{bad}");
        assert!(bad.parse::<f32>().is_err(), "{bad}");
    }
}

#[test]
fn inline_vectors_strip_brackets_and_split_on_commas() {
    assert_eq!(inline_parts_of(" ((1, 2 ,3)) "), owned_strings(&["1", "2", "3"]));
    assert_eq!(inline_parts_of(""), owned_strings(&[""]));
    assert_eq!(inline_vector_of("(1, 2, 3)", 2), Some(owned_strings(&["1", "2"])));
    assert_eq!(inline_vector_of("(1, 2)", 3), None);
    assert_eq!(inline_vector_of("(1, b, 3)", 3), None);
}

#[test]
fn resolves_head_type_inheritance() {
    let xml = r#"
        <Defs>
            <HeadTypeDef Name="NarrowBase" Abstract="True">
                <narrow>true</narrow>
                <beardOffset>(0, 0, -0.05)</beardOffset>
                <beardOffsetXEast>-0.05</beardOffsetXEast>
            </HeadTypeDef>
            <HeadTypeDef ParentName="NarrowBase">
                <defName>Male_NarrowNormal</defName>
                <graphicPath>Things/Pawn/Humanlike/Heads/Male/Male_Narrow_Normal</graphicPath>
            </HeadTypeDef>
        </Defs>
        "#;
    let raw: Vec<RawHeadType> = load_defs(&[xml.to_string()]);
    assert!(raw.iter().any(|r| r.key == "NarrowBase"));
    assert!(raw.iter().any(|r| r.key == "Male_NarrowNormal"));
}

fn head<'a>(defs: &'a [HeadTypeDefRender], name: &str) -> &'a HeadTypeDefRender {
    defs.iter().find(|d| d.def_name == name).unwrap()
}

#[test]
fn head_types_take_missing_fields_from_parents() {
    let xml = r#"
        <Defs>
            <HeadTypeDef Name="NarrowBase" Abstract="True">
                <narrow>true</narrow>
                <beardOffset>(0, 0, -0.05)</beardOffset>
                <beardOffsetXEast>-0.05</beardOffsetXEast>
            </HeadTypeDef>
            <HeadTypeDef ParentName="NarrowBase">
                <defName>Male_NarrowNormal</defName>
                <graphicPath>Heads/Male/Male_Narrow_Normal</graphicPath>
            </HeadTypeDef>
            <HeadTypeDef ParentName="Male_NarrowNormal">
                <defName>Male_NarrowWide</defName>
                <narrow>false</narrow>
            </HeadTypeDef>
            <HeadTypeDef>
                <defName>Orphan</defName>
                <graphicPath>Heads/Orphan</graphicPath>
            </HeadTypeDef>
        </Defs>
        "#;
    let defs = load_head_type_defs(&[xml.to_string()]);
    assert_eq!(defs.len(), 3, "the abstract base has no graphic and is dropped");
    let normal = head(&defs, "Male_NarrowNormal");
    assert!(normal.narrow);
    assert_eq!(nums(normal.beard_offset.as_ref().unwrap()), vec![0.0, 0.0, -0.05]);
    assert_eq!(normal.beard_offset_x_east.as_deref(), Some("-0.05"));
    let wide = head(&defs, "Male_NarrowWide");
    assert!(!wide.narrow);
    assert_eq!(wide.graphic_path, "Heads/Male/Male_Narrow_Normal");
    assert_eq!(wide.beard_offset_x_east.as_deref(), Some("-0.05"));
    let orphan = head(&defs, "Orphan");
    assert!(!orphan.narrow);
    assert!(orphan.beard_offset.is_none());
}

#[test]
fn looping_parent_chains_stop_where_the_loop_closes() {
    let xml = r#"
        <Defs>
            <HeadTypeDef ParentName="B"><defName>A</defName><graphicPath>Heads/A</graphicPath></HeadTypeDef>
            <HeadTypeDef ParentName="A"><defName>B</defName><narrow>true</narrow></HeadTypeDef>
        </Defs>
        "#;
    let defs = load_head_type_defs(&[xml.to_string()]);
    let a = head(&defs, "A");
    assert!(a.narrow);
    assert!(!defs.iter().any(|d| d.def_name == "B"), "B resolves first inside A's chain, without a graphic");
}

#[test]
fn attributes_are_read_by_local_name() {
    let mut head = element("HeadTypeDef", Some(1), None);
    head.attributes = vec![("Name".to_string(), "Base".to_string()), ("ParentName".to_string(), "Root".to_string())];
    let nodes = vec![
        XmlNode { element: false, name: String::new(), parent: None, text: None, attributes: Vec::new() },
        element("Defs", Some(0), None),
        head,
    ];
    let i = 2;
    assert_eq!(attribute_of(&nodes, i, "Name").as_deref(), Some("Base"));
    assert_eq!(attribute_of(&nodes, i, "ParentName").as_deref(), Some("Root"));
    assert_eq!(attribute_of(&nodes, i, "Abstract"), None);
}

#[test]
fn parses_apparel_layer_and_head_coverage() {
    let xml = r#"
        <Defs>
            <ThingDef>
                <defName>Apparel_TestHelmet</defName>
                <graphicData>
                    <texPath>Things/Pawn/Humanlike/Apparel/TestHelmet/TestHelmet</texPath>
                    <drawSize><x>1.1</x><y>1.1</y></drawSize>
                    <color>0.8 0.8 0.9 1.0</color>
                </graphicData>
                <apparel>
                    <wornGraphicPath>Things/Pawn/Humanlike/Apparel/TestHelmet/TestHelmet</wornGraphicPath>
                    <layers>
                        <li>OnSkin</li>
                        <li>Overhead</li>
                    </layers>
                    <bodyPartGroups>
                        <li>UpperHead</li>
                        <li>FullHead</li>
                    </bodyPartGroups>
                </apparel>
            </ThingDef>
        </Defs>
        "#;
    let defs = load_apparel_defs(&[xml.to_string()]);
    let apparel = defs.iter().find(|d| d.def_name == "Apparel_TestHelmet").unwrap();
    assert_eq!(apparel.layer, ApparelLayerDef::Overhead);
    assert!(apparel.covers_upper_head);
    assert!(apparel.covers_full_head);
    assert_eq!(apparel.tex_path, "Things/Pawn/Humanlike/Apparel/TestHelmet/TestHelmet");
}

const PARKA: &str = r#"
    <Defs>
        <ThingDef>
            <defName>Apparel_Parka</defName>
            <graphicData><texPath>Things/Apparel/Parka</texPath></graphicData>
            <apparel>
                <wornGraphicPath>Things/Pawn/Humanlike/Apparel/Parka/Parka</wornGraphicPath>
                <layers><li>Shell</li><li>Middle</li></layers>
                <renderSkipFlags><li>Hair</li><li>Eyes</li></renderSkipFlags>
                <shellRenderedBehindHead>true</shellRenderedBehindHead>
                <parentTagDef>PawnRenderNodeTagDef.ApparelBody</parentTagDef>
                <drawData>
                    <dataNorth><layer>-5</layer></dataNorth>
                    <DataSouth><layer>12.5</layer></DataSouth>
                    <dataEast><layer>bad</layer></dataEast>
                </drawData>
                <wornGraphicData>
                    <renderUtilityAsPack>True</renderUtilityAsPack>
                    <north>
                        <offset>(0, 0.1)</offset>
                        <Fat><scale>(1.2, 1.2)</scale></Fat>
                        <Thin><offset>(0.01, 0)</offset></Thin>
                    </north>
                    <Hulk><offset>(0.2, 0.2)</offset><scale>(1.5, 1.5)</scale></Hulk>
                    <hulk><scale>(1.4, 1.4)</scale></hulk>
                    <Plain></Plain>
                </wornGraphicData>
            </apparel>
        </ThingDef>
        <ThingDef>
            <defName>Apparel_Elsewhere</defName>
            <graphicData><texPath>Things/Apparel/X</texPath></graphicData>
            <apparel><wornGraphicPath>Things/Other/X</wornGraphicPath></apparel>
        </ThingDef>
    </Defs>
    "#;

#[test]
fn apparel_defs_read_draw_data_and_worn_graphic() {
    let defs = load_apparel_defs(&[PARKA.to_string()]);
    assert_eq!(defs.len(), 1, "worn graphics outside the humanlike apparel folder are skipped");
    let a = &defs[0];
    assert_eq!(a.layer, ApparelLayerDef::Shell);
    assert_eq!(a.render_skip_flags, Some(vec![ApparelSkipFlagDef::Hair]));
    assert!(a.shell_rendered_behind_head);
    assert_eq!(a.parent_tag_def.as_deref(), Some("ApparelBody"));
    assert_eq!(a.draw_data.north_layer.as_deref(), Some("-5"));
    assert_eq!(a.draw_data.south_layer.as_deref(), Some("12.5"));
    assert_eq!(a.draw_data.east_layer, None);
    assert_eq!(a.draw_data.west_layer, None);
    let w = &a.worn_graphic;
    assert!(w.render_utility_as_pack);
    assert_eq!(w.north.offset, Some(owned_strings(&["0", "0.1"])));
    assert_eq!(w.north.scale, None);
    assert_eq!(w.north_body_overrides.len(), 2);
    assert_eq!(w.north_body_overrides[0].0, "fat");
    assert_eq!(w.north_body_overrides[0].1.scale, Some(owned_strings(&["1.2", "1.2"])));
    assert_eq!(w.global_body_overrides.len(), 1, "north is a side, Plain changes nothing, hulk replaces Hulk");
    assert_eq!(w.global_body_overrides[0].0, "hulk");
    assert_eq!(w.global_body_overrides[0].1.offset, None);
    assert_eq!(w.global_body_overrides[0].1.scale, Some(owned_strings(&["1.4", "1.4"])));
    assert!(w.south_body_overrides.is_empty());
}

fn layer(v: &Option<String>) -> f32 {
    v.as_deref().map(num).unwrap_or(0.0)
}

#[test]
fn parses_humanlike_render_tree_layers() {
    let xml = r#"
        <Defs>
          <PawnRenderTreeDef>
            <defName>Humanlike</defName>
            <root>
              <children>
                <li>
                  <debugLabel>Body</debugLabel>
                  <children>
                    <li><tagDef>ApparelBody</tagDef><baseLayer>20</baseLayer></li>
                  </children>
                </li>
                <li>
                  <debugLabel>Head</debugLabel>
                  <baseLayer>50</baseLayer>
                  <children>
                    <li><debugLabel>Beard</debugLabel><baseLayer>60</baseLayer></li>
                    <li><debugLabel>Hair</debugLabel><baseLayer>62</baseLayer></li>
                    <li><tagDef>ApparelHead</tagDef><baseLayer>70</baseLayer></li>
                  </children>
                </li>
              </children>
            </root>
          </PawnRenderTreeDef>
        </Defs>
        "#;
    let layers = parse_humanlike_render_tree_layers(xml).unwrap();
    assert_eq!(layer(&layers.body_base_layer), 0.0);
    assert_eq!(layer(&layers.head_base_layer), 50.0);
    assert_eq!(layer(&layers.beard_base_layer), 60.0);
    assert_eq!(layer(&layers.hair_base_layer), 62.0);
    assert_eq!(layer(&layers.apparel_body_base_layer), 20.0);
    assert_eq!(layer(&layers.apparel_head_base_layer), 70.0);
}

fn missing(xml: &str) -> String {
    match parse_humanlike_render_tree_layers(xml) {
        Err(RenderTreeError::Missing(m)) => m,
        other => panic!("expected a missing part, got {other:?}"),
    }
}

#[test]
fn render_tree_reports_what_is_missing() {
    assert!(matches!(parse_humanlike_render_tree_layers("<Defs>"), Err(RenderTreeError::Malformed)));
    assert_eq!(
        missing("<Defs><PawnRenderTreeDef><defName>Animal</defName></PawnRenderTreeDef></Defs>"),
        "Humanlike PawnRenderTreeDef not found"
    );
    assert_eq!(
        missing("<Defs><PawnRenderTreeDef><defName>Humanlike</defName></PawnRenderTreeDef></Defs>"),
        "Humanlike root not found"
    );
    assert_eq!(
        missing(
            "<Defs><PawnRenderTreeDef><defName>Humanlike</defName><root><debugLabel>Body</debugLabel></root></PawnRenderTreeDef></Defs>"
        ),
        "Head base layer missing"
    );
}

#[test]
fn render_tree_walks_only_children_lists() {
    let xml = r#"<Defs><PawnRenderTreeDef><defName>Humanlike</defName><root>
        <debugLabel>Body</debugLabel><baseLayer>1</baseLayer>
        <other><li><debugLabel>Head</debugLabel><baseLayer>9</baseLayer></li></other>
        <children>
          <li><debugLabel>Head</debugLabel><baseLayer>2</baseLayer></li>
          <li><debugLabel>Beard</debugLabel><baseLayer>3</baseLayer></li>
          <li><debugLabel>Hair</debugLabel><baseLayer>x</baseLayer></li>
          <li><tagDef>ApparelBody</tagDef><baseLayer>5</baseLayer></li>
          <li><tagDef>ApparelHead</tagDef><baseLayer>6</baseLayer></li>
          <li><debugLabel>Head</debugLabel><baseLayer>7</baseLayer></li>
        </children>
        <children><li><debugLabel>Beard</debugLabel><baseLayer>8</baseLayer></li></children>
      </root></PawnRenderTreeDef></Defs>"#;
    let layers = parse_humanlike_render_tree_layers(xml).unwrap();
    assert_eq!(layer(&layers.body_base_layer), 1.0);
    assert_eq!(layer(&layers.head_base_layer), 7.0, "the last head reached wins");
    assert_eq!(layer(&layers.beard_base_layer), 3.0, "a second children list is not walked");
    assert_eq!(layer(&layers.hair_base_layer), 0.0);
}

#[test]
fn scanning_nodes_replaces_defs_of_the_same_name() {
    // The nodes of `<Defs><HairDef><defName>Bob</defName><texPath>New</texPath></HairDef>
    // <HairDef><defName>Mohawk</defName></HairDef></Defs>`, root first.
    let nodes = vec![
        XmlNode { element: false, name: String::new(), parent: None, text: None, attributes: Vec::new() },
        element("Defs", Some(0), None),
        element("HairDef", Some(1), None),
        element("defName", Some(2), Some("Bob")),
        text_node(3, "Bob"),
        element("texPath", Some(2), Some("New")),
        text_node(5, "New"),
        element("HairDef", Some(1), None),
        element("defName", Some(7), Some("Mohawk")),
        text_node(8, "Mohawk"),
    ];
    let mut out = vec![
        HairDefRender { def_name: "Bob".to_string(), tex_path: "Old".to_string() },
        HairDefRender { def_name: "Afro".to_string(), tex_path: "A".to_string() },
    ];
    scan_hair_nodes(&mut out, &nodes);
    let got: Vec<(&str, &str)> = out.iter().map(|d| (d.def_name.as_str(), d.tex_path.as_str())).collect();
    assert_eq!(got, vec![("Bob", "New"), ("Afro", "A")]);
}
