use dxf::drawing::Drawing;
use dxf::enums::AcadVersion;
use dxf::linetype::{LineType, LineTypeElement};
use dxf::tables::{ExtensionGroup, ExtensionGroupItem, Layer, View};
use dxf::{CodePair, Color, Real};

fn fixed(x: f64) -> Real {
    let u = (x * 1e12).round() as i128;
    Real::new(u < 0, u.unsigned_abs() as u64, -12)
}

fn as_f64(r: Real) -> f64 {
    match r {
        Real::Finite { negative, digits, exponent } => {
            let v = digits as f64 * 10f64.powi(exponent);
            if negative {
                -v
            } else {
                v
            }
        }
        Real::Infinite { negative: true } => f64::NEG_INFINITY,
        Real::Infinite { negative: false } => f64::INFINITY,
        Real::NotANumber => f64::NAN,
    }
}

fn approx_eq(a: f64, b: f64) -> bool {
    (a - b).abs() <= 1e-9 * a.abs().max(b.abs()).max(1.0)
}

fn drawing_from_pairs(pairs: Vec<CodePair>) -> Drawing {
    Drawing::from_code_pairs(&pairs).unwrap()
}

fn contains_window(actual: &[CodePair], expected: &[CodePair]) -> bool {
    if expected.is_empty() {
        return true;
    }
    actual.windows(expected.len()).any(|w| w == expected)
}

fn assert_contains_pairs(drawing: &Drawing, expected: Vec<CodePair>) {
    let actual = drawing.code_pairs();
    assert!(
        contains_window(&actual, &expected),
        "expected pairs {:?} in {:?}",
        expected,
        actual
    );
}

fn assert_not_contains_pairs(drawing: &Drawing, unexpected: Vec<CodePair>) {
    let actual = drawing.code_pairs();
    assert!(
        !contains_window(&actual, &unexpected),
        "unexpected pairs {:?} in {:?}",
        unexpected,
        actual
    );
}

fn read_table(table_name: &str, value_pairs: Vec<CodePair>) -> Drawing {
    let mut pairs = vec![
        CodePair::new_str(0, "SECTION"),
        CodePair::new_str(2, "TABLES"),
        CodePair::new_str(0, "TABLE"),
        CodePair::new_str(2, table_name),
        CodePair::new_str(100, "AcDbSymbolTable"),
        CodePair::new_i16(70, 0),
    ];
    for pair in value_pairs {
        pairs.push(pair);
    }
    pairs.push(CodePair::new_str(0, "ENDTAB"));
    pairs.push(CodePair::new_str(0, "ENDSEC"));
    pairs.push(CodePair::new_str(0, "EOF"));
    drawing_from_pairs(pairs)
}

#[test]
fn read_unsupported_table() {
    let drawing = drawing_from_pairs(vec![
        CodePair::new_str(0, "SECTION"),
        CodePair::new_str(2, "TABLES"),
        CodePair::new_str(0, "TABLE"),
        CodePair::new_str(2, "UNSUPPORTED"),
        CodePair::new_str(0, "UNSUPPORTED"),
        CodePair::new_str(2, "unsupported-name"),
        CodePair::new_str(0, "ENDTAB"),
        CodePair::new_str(0, "TABLE"),
        CodePair::new_str(2, "LAYER"),
        CodePair::new_str(0, "LAYER"),
        CodePair::new_str(0, "ENDTAB"),
        CodePair::new_str(0, "ENDSEC"),
        CodePair::new_str(0, "EOF"),
    ]);
    assert_eq!(1, drawing.layers().iter().count());
}

#[test]
fn read_single_layer() {
    let drawing = read_table(
        "LAYER",
        vec![
            CodePair::new_str(0, "LAYER"),
            CodePair::new_str(2, "layer-name"),
        ],
    );
    let layers = drawing.layers().iter().collect::<Vec<_>>();
    assert_eq!(1, layers.len());
    assert_eq!("layer-name", layers[0].name);
}

#[test]
fn read_variable_table_items() {
    let drawing = drawing_from_pairs(vec![
        CodePair::new_str(0, "SECTION"),
        CodePair::new_str(2, "TABLES"),
        CodePair::new_str(0, "TABLE"), // no app ids
        CodePair::new_str(2, "APPID"),
        CodePair::new_str(0, "ENDTAB"),
        CodePair::new_str(0, "TABLE"), // 1 layer
        CodePair::new_str(2, "LAYER"),
        CodePair::new_str(0, "LAYER"),
        CodePair::new_str(2, "layer-name"),
        CodePair::new_str(0, "ENDTAB"),
        CodePair::new_str(0, "TABLE"), // 2 styles
        CodePair::new_str(2, "STYLE"),
        CodePair::new_str(0, "STYLE"),
        CodePair::new_real(40, fixed(1.1)),
        CodePair::new_str(0, "STYLE"),
        CodePair::new_real(40, fixed(2.2)),
        CodePair::new_str(0, "ENDTAB"),
        CodePair::new_str(0, "ENDSEC"),
        CodePair::new_str(0, "EOF"),
    ]);
    assert_eq!(0, drawing.block_records().iter().count()); // not listed in file, but make sure there are still 0
    assert_eq!(0, drawing.app_ids().iter().count());
    let layers = drawing.layers().iter().collect::<Vec<_>>();
    assert_eq!(1, layers.len());
    assert_eq!("layer-name", layers[0].name);
    let styles = drawing.styles().iter().collect::<Vec<_>>();
    assert_eq!(2, styles.len());
    assert!(approx_eq(1.1, as_f64(styles[0].text_height)));
    assert!(approx_eq(2.2, as_f64(styles[1].text_height)));
}

#[test]
fn read_layer_color_and_layer_is_on() {
    let drawing = read_table(
        "LAYER",
        vec![CodePair::new_str(0, "LAYER"), CodePair::new_i16(62, 5)],
    );
    let layers = drawing.layers().iter().collect::<Vec<_>>();
    let layer = layers[0];
    assert_eq!(Some(5), layer.color.index());
    assert!(layer.is_layer_on);
}

#[test]
fn read_layer_color_and_layer_is_off() {
    let drawing = read_table(
        "LAYER",
        vec![CodePair::new_str(0, "LAYER"), CodePair::new_i16(62, -5)],
    );
    let layers = drawing.layers().iter().collect::<Vec<_>>();
    let layer = layers[0];
    assert_eq!(Some(5), layer.color.index());
    assert!(!layer.is_layer_on);
}

#[test]
fn normalize_layer() {
    let mut layer = Layer {
        name: String::from("layer-name"),
        color: Color::by_layer(),          // value 256 not valid; normalized to 7
        line_type_name: String::from(""), // empty string not valid; normalized to CONTINUOUS
        ..Default::default()
    };
    layer.normalize();
    assert_eq!(Some(7), layer.color.index());
    assert_eq!("CONTINUOUS", layer.line_type_name);
}

#[test]
fn normalize_view() {
    let mut view = View {
        view_height: fixed(0.0),  // invalid; normalized to 1.0
        view_width: fixed(-1.0),  // invalid; normalized to 1.0
        lens_length: fixed(42.0), // valid
        ..Default::default()
    };
    view.normalize();
    assert!(approx_eq(1.0, as_f64(view.view_height)));
    assert!(approx_eq(1.0, as_f64(view.view_width)));
    assert!(approx_eq(42.0, as_f64(view.lens_length)));
}

#[test]
fn read_table_item_with_extended_data() {
    let drawing = read_table(
        "LAYER",
        vec![
            CodePair::new_str(0, "LAYER"),
            CodePair::new_str(102, "{IXMILIA"),
            CodePair::new_str(1, "some string"),
            CodePair::new_str(102, "}"),
        ],
    );
    let layers = drawing.layers().iter().collect::<Vec<_>>();
    let layer = layers[0];
    assert_eq!(1, layer.extension_data_groups.len());
    let group = &layer.extension_data_groups[0];
    assert_eq!("IXMILIA", group.application_name);
    assert_eq!(1, group.items.len());
    match group.items[0] {
        ExtensionGroupItem::CodePair(ref p) => {
            assert_eq!(&CodePair::new_str(1, "some string"), p);
        }
    }
}

#[test]
fn write_table_item_with_extended_data() {
    let layer = Layer {
        extension_data_groups: vec![ExtensionGroup {
            application_name: String::from("IXMILIA"),
            items: vec![ExtensionGroupItem::CodePair(CodePair::new_str(
                1,
                "some string",
            ))],
        }],
        ..Default::default()
    };
    let mut drawing = Drawing::new();
    drawing.header.version = AcadVersion::R14;
    drawing.add_layer(layer);
    assert_contains_pairs(
        &drawing,
        vec![
            CodePair::new_str(102, "{IXMILIA"),
            CodePair::new_str(1, "some string"),
            CodePair::new_str(102, "}"),
        ],
    );
}

#[test]
fn normalize_layers() {
    let mut file = Drawing::new();
    file.clear();
    assert_eq!(0, file.layers().iter().count());
    file.header.current_layer = String::from("current layer");
    file.normalize();
    let layers = file.layers().iter().collect::<Vec<_>>();
    assert_eq!(2, layers.len());
    assert_eq!("0", layers[0].name);
    assert_eq!("current layer", layers[1].name);
}

#[test]
fn test_line_types_writing_order() {
    let mut file = Drawing::new();
    file.header.version = AcadVersion::R13;
    file.clear();
    assert_eq!(0, file.line_types().iter().count());
    file.normalize();
    let line_types = file.line_types().iter().collect::<Vec<_>>();
    assert_eq!(3, line_types.len());

    // Add custom line type now
    let mut line_type = LineType::default();
    line_type.name = "custom-dash-line".to_string();
    line_type.description = "Dash ---".to_string();

    line_type.element_count = 2;

    let line_type_element = LineTypeElement {
        dash_dot_space_length: fixed(0.75),
        ..Default::default()
    };

    let line_type_element_2 = LineTypeElement {
        dash_dot_space_length: fixed(-0.25),
        ..Default::default()
    };

    line_type.line_elements.push(line_type_element);
    line_type.line_elements.push(line_type_element_2);

    file.add_line_type(line_type);
    assert_eq!(4, file.line_types().iter().count());

    assert_contains_pairs(
        &file,
        vec![
            CodePair::new_str(2, "custom-dash-line"),
            CodePair::new_i16(70, 0),
            CodePair::new_str(3, "Dash ---"),
            CodePair::new_i16(72, 65),
            CodePair::new_i16(73, 2),
            CodePair::new_real(40, fixed(0.0)),
            CodePair::new_real(49, fixed(0.75)),
            CodePair::new_i16(74, 0),
            CodePair::new_real(49, fixed(-0.25)),
            CodePair::new_i16(74, 0),
            CodePair::new_str(0, "ENDTAB"),
        ],
    );
}

#[test]
fn normalize_view_ports() {
    let mut file = Drawing::new();
    file.clear();
    assert_eq!(0, file.view_ports().iter().count());
    file.normalize();
    let view_ports = file.view_ports().iter().collect::<Vec<_>>();
    assert_eq!(1, view_ports.len());
    assert_eq!("*ACTIVE", view_ports[0].name);
}

#[test]
fn normalize_ucs() {
    let mut file = Drawing::new();
    file.clear();
    assert_eq!(0, file.ucss().iter().count());
    file.header.ucs_name = String::from("primary ucs");
    file.normalize();
    let ucss = file.ucss().iter().collect::<Vec<_>>();
    assert_eq!(1, ucss.len());
    assert_eq!("primary ucs", ucss[0].name);
}

#[test]
fn block_record_table_not_written_on_r12() {
    let mut drawing = Drawing::new();
    drawing.header.version = AcadVersion::R12;
    assert_not_contains_pairs(&drawing, vec![CodePair::new_str(0, "BLOCK_RECORD")]);
}

#[test]
fn block_record_table_is_written_on_r13() {
    let mut drawing = Drawing::new();
    drawing.header.version = AcadVersion::R13;
    assert_contains_pairs(&drawing, vec![CodePair::new_str(0, "BLOCK_RECORD")]);
}

#[test]
fn test_line_type_pattern_parsing() {
    let mut drawing = Drawing::new();

    let mut line_type = LineType::default();
    line_type
        .add_line_type_pattern(&mut drawing, "A,0.35,-1.05")
        .unwrap();
    assert_eq!(line_type.line_elements.len(), 2);
    assert_eq!(line_type.element_count, 2);
    assert_eq!(line_type.total_pattern_length, fixed(1.4));
    assert_eq!(line_type.line_elements[0].dash_dot_space_length, fixed(0.35));
    assert_eq!(line_type.line_elements[1].dash_dot_space_length, fixed(-1.05));

    let mut line_type = LineType::default();
    line_type
        .add_line_type_pattern(&mut drawing, "A,0.35,-1.05,0.35,-1.05")
        .unwrap();
    assert_eq!(line_type.line_elements.len(), 4);
    assert_eq!(line_type.element_count, 4);
    assert_eq!(line_type.total_pattern_length, fixed(2.8));
    assert_eq!(line_type.line_elements[0].dash_dot_space_length, fixed(0.35));
    assert_eq!(line_type.line_elements[1].dash_dot_space_length, fixed(-1.05));
    assert_eq!(line_type.line_elements[2].dash_dot_space_length, fixed(0.35),);
    assert_eq!(line_type.line_elements[3].dash_dot_space_length, fixed(-1.05));

    let mut line_type = LineType::default();
    line_type
        .add_line_type_pattern(&mut drawing, "A,2.8,0,0,-1.05,0.7,-1.05")
        .unwrap();
    assert_eq!(line_type.line_elements.len(), 6);
    assert_eq!(line_type.element_count, 6);
    assert_eq!(line_type.total_pattern_length, fixed(3.85 + 0.7 + 1.05));
    assert_eq!(line_type.line_elements[0].dash_dot_space_length, fixed(2.8));
    assert_eq!(line_type.line_elements[1].dash_dot_space_length, fixed(0.0));
    assert_eq!(line_type.line_elements[2].dash_dot_space_length, fixed(0.0));
    assert_eq!(line_type.line_elements[3].dash_dot_space_length, fixed(-1.05));
    assert_eq!(line_type.line_elements[4].dash_dot_space_length, fixed(0.7));
    assert_eq!(line_type.line_elements[5].dash_dot_space_length, fixed(-1.05));
}

#[test]
fn test_line_type_pattern_parsing_complex() {
    let mut drawing = Drawing::new();

    let initial_styles_count = drawing.styles().iter().count();

    let mut line_type = LineType::default();
    line_type
        .add_line_type_pattern(
            &mut drawing,
            "A,0.35,-1.05,[\"X\",STANDARD,S=1.50,R=0.0,X=-0.25,Y=-.75],0.35,-1.05,0.35,-1.05",
        )
        .unwrap();

    let styles_count = drawing.styles().iter().count();

    assert_eq!(styles_count, initial_styles_count + 1);

    assert_eq!(line_type.line_elements.len(), 6);
    assert_eq!(line_type.element_count, 6);
    assert_eq!(
        line_type.total_pattern_length,
        fixed(0.35 + 1.05 + 0.35 + 1.05 + 0.35 + 1.05)
    );
    assert_eq!(line_type.line_elements[0].dash_dot_space_length, fixed(0.35));
    assert_eq!(line_type.line_elements[0].shape_number, None);

    // Complex element two
    assert_eq!(line_type.line_elements[1].dash_dot_space_length, fixed(-1.05));
    assert_eq!(line_type.line_elements[1].shape_number, Some(0));
    assert_eq!(line_type.line_elements[1].scale_value, Some(fixed(1.50)));
    assert_eq!(line_type.line_elements[1].rotation_angle, Some(fixed(0.0)));
    assert_eq!(line_type.line_elements[1].x_offset, Some(fixed(-0.25)));
    assert_eq!(line_type.line_elements[1].y_offset, Some(fixed(-0.75)));
    assert_eq!(line_type.line_elements[1].complex_line_type_element_type, 2);
    assert_eq!(
        line_type.line_elements[1].text_string,
        Some("X".to_string())
    );

    assert_eq!(line_type.line_elements[2].dash_dot_space_length, fixed(0.35));
    assert_eq!(line_type.line_elements[2].shape_number, None);
    assert_eq!(line_type.line_elements[3].dash_dot_space_length, fixed(-1.05));
    assert_eq!(line_type.line_elements[3].shape_number, None);
    assert_eq!(line_type.line_elements[4].dash_dot_space_length, fixed(0.35));
    assert_eq!(line_type.line_elements[4].shape_number, None);
    assert_eq!(line_type.line_elements[5].dash_dot_space_length, fixed(-1.05));
    assert_eq!(line_type.line_elements[5].shape_number, None);
}

#[test]
fn write_layer() {
    let mut drawing = Drawing::new();
    let layer = Layer {
        name: String::from("layer-name"),
        color: Color::from_index(3),
        ..Default::default()
    };

    drawing.add_layer(layer);
    assert_contains_pairs(
        &drawing,
        vec![
            CodePair::new_str(0, "LAYER"),
            CodePair::new_str(5, "1E"),
            CodePair::new_str(100, "AcDbSymbolTableRecord"),
            CodePair::new_str(100, "AcDbLayerTableRecord"),
            CodePair::new_str(2, "layer-name"),
            CodePair::new_i16(70, 0),
            CodePair::new_i16(62, 3),
            CodePair::new_str(6, "CONTINUOUS"),
        ],
    );
}

#[test]
fn test_line_type_pattern_parsing_multiple_complex() {
    let mut drawing = Drawing::new();
    drawing.set_version(AcadVersion::R2018);

    let initial_styles_count = drawing.styles().iter().count();

    let mut line_type = LineType::default();
    line_type.name = "custom-dash-line".to_string();
    line_type.description = "Dash ---".to_string();
    line_type
        .add_line_type_pattern(
            &mut drawing,
            "A,0.35,-1.05,[\"X\",STANDARD,S=1.50,R=0.0,X=-0.25,Y=-.75],0.35,-1.05,[\"X\",STANDARD,S=1.50,R=0.0,X=-0.25,Y=-.75],0.35,-1.05",
        )
        .unwrap();

    let styles_count = drawing.styles().iter().count();

    assert_eq!(styles_count, initial_styles_count + 1);

    assert_eq!(line_type.line_elements.len(), 6);
    assert_eq!(line_type.element_count, 6);
    assert_eq!(
        line_type.total_pattern_length,
        fixed(0.35 + 1.05 + 0.35 + 1.05 + 0.35 + 1.05)
    );
    assert_eq!(line_type.line_elements[0].dash_dot_space_length, fixed(0.35));

    // Complex element two
    assert_eq!(line_type.line_elements[1].dash_dot_space_length, fixed(-1.05));
    assert_eq!(line_type.line_elements[1].shape_number, Some(0));
    assert_eq!(line_type.line_elements[1].scale_value, Some(fixed(1.50)));
    assert_eq!(line_type.line_elements[1].rotation_angle, Some(fixed(0.0)));
    assert_eq!(line_type.line_elements[1].x_offset, Some(fixed(-0.25)));
    assert_eq!(line_type.line_elements[1].y_offset, Some(fixed(-0.75)));
    assert_eq!(line_type.line_elements[1].complex_line_type_element_type, 2);
    assert_eq!(
        line_type.line_elements[1].text_string,
        Some("X".to_string())
    );

    assert_eq!(line_type.line_elements[2].dash_dot_space_length, fixed(0.35));

    // Complex element fourth
    assert_eq!(line_type.line_elements[3].dash_dot_space_length, fixed(-1.05));
    assert_eq!(line_type.line_elements[3].shape_number, Some(0));
    assert_eq!(line_type.line_elements[3].scale_value, Some(fixed(1.50)));
    assert_eq!(line_type.line_elements[3].rotation_angle, Some(fixed(0.0)));
    assert_eq!(line_type.line_elements[3].x_offset, Some(fixed(-0.25)));
    assert_eq!(line_type.line_elements[3].y_offset, Some(fixed(-0.75)));
    assert_eq!(line_type.line_elements[3].complex_line_type_element_type, 2);
    assert_eq!(
        line_type.line_elements[3].text_string,
        Some("X".to_string())
    );

    assert_eq!(line_type.line_elements[4].dash_dot_space_length, fixed(0.35));
    assert_eq!(line_type.line_elements[5].dash_dot_space_length, fixed(-1.05));

    drawing.add_line_type(line_type);

    assert_contains_pairs(
        &drawing,
        vec![
            CodePair::new_str(2, "custom-dash-line"),
            CodePair::new_i16(70, 0),
            CodePair::new_str(3, "Dash ---"),
            CodePair::new_i16(72, 65),
            CodePair::new_i16(73, 6),
            CodePair::new_real(40, fixed(4.2)),
            CodePair::new_real(49, fixed(0.35)),
            CodePair::new_i16(74, 0),
            CodePair::new_real(49, fixed(-1.05)),
            CodePair::new_i16(74, 2),
            CodePair::new_i16(75, 0),
            CodePair::new_str(340, "1E"),
            CodePair::new_real(46, fixed(1.5)),
            CodePair::new_real(50, fixed(0.0)),
            CodePair::new_real(44, fixed(-0.25)),
            CodePair::new_real(45, fixed(-0.75)),
            CodePair::new_str(9, "X"),
            CodePair::new_real(49, fixed(0.35)),
            CodePair::new_i16(74, 0),
            CodePair::new_real(49, fixed(-1.05)),
            CodePair::new_i16(74, 2),
            CodePair::new_i16(75, 0),
            CodePair::new_str(340, "1E"),
            CodePair::new_real(46, fixed(1.5)),
            CodePair::new_real(50, fixed(0.0)),
            CodePair::new_real(44, fixed(-0.25)),
            CodePair::new_real(45, fixed(-0.75)),
            CodePair::new_str(9, "X"),
            CodePair::new_real(49, fixed(0.35)),
            CodePair::new_i16(74, 0),
            CodePair::new_real(49, fixed(-1.05)),
            CodePair::new_i16(74, 0),
            CodePair::new_str(0, "ENDTAB"),
        ],
    );
}
