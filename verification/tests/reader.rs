use dxf::drawing::Drawing;
use dxf::{CodePair, DxfError, Real};

fn units(u: i128) -> Real {
    Real::new(u < 0, u.unsigned_abs() as u64, -12)
}


fn tables(pairs: Vec<CodePair>) -> Vec<CodePair> {
    let mut all = vec![CodePair::new_str(0, "SECTION"), CodePair::new_str(2, "TABLES")];
    all.extend(pairs);
    all.push(CodePair::new_str(0, "ENDSEC"));
    all.push(CodePair::new_str(0, "EOF"));
    all
}

fn table(name: &str, items: Vec<CodePair>) -> Vec<CodePair> {
    let mut all = vec![CodePair::new_str(0, "TABLE"), CodePair::new_str(2, name)];
    all.extend(items);
    all.push(CodePair::new_str(0, "ENDTAB"));
    all
}

#[test]
fn read_no_pairs_gives_empty_drawing() {
    let drawing = Drawing::from_code_pairs(&vec![]).unwrap();
    assert_eq!(0, drawing.layers().len());
    assert_eq!(0, drawing.line_types().len());
}

#[test]
fn read_stops_at_eof() {
    let mut pairs = tables(table("LAYER", vec![CodePair::new_str(0, "LAYER"), CodePair::new_str(2, "a")]));
    pairs.push(CodePair::new_str(99, "anything after the end"));
    let drawing = Drawing::from_code_pairs(&pairs).unwrap();
    assert_eq!(1, drawing.layers().len());
}

#[test]
fn read_skips_other_sections() {
    let mut pairs = vec![
        CodePair::new_str(0, "SECTION"),
        CodePair::new_str(2, "HEADER"),
        CodePair::new_str(9, "$ACADVER"),
        CodePair::new_str(1, "AC1015"),
        CodePair::new_str(0, "ENDSEC"),
    ];
    pairs.extend(tables(table("STYLE", vec![CodePair::new_str(0, "STYLE"), CodePair::new_str(2, "s")])));
    let drawing = Drawing::from_code_pairs(&pairs).unwrap();
    assert_eq!(1, drawing.styles().len());
    assert_eq!("s", drawing.styles()[0].name);
}

#[test]
fn read_end_inside_section_is_error() {
    let pairs = vec![CodePair::new_str(0, "SECTION"), CodePair::new_str(2, "TABLES")];
    assert_eq!(Err(DxfError::UnexpectedEndOfInput), Drawing::from_code_pairs(&pairs).map(|_| ()));
}

#[test]
fn read_unexpected_pair_at_top_is_error() {
    let pairs = vec![CodePair::new_str(1, "x")];
    assert_eq!(Err(DxfError::UnexpectedCodePair(1)), Drawing::from_code_pairs(&pairs).map(|_| ()));
}

#[test]
fn read_bad_handle_is_error() {
    let pairs = tables(table("LAYER", vec![CodePair::new_str(0, "LAYER"), CodePair::new_str(5, "ZZ")]));
    assert_eq!(Err(DxfError::ParseHandleError), Drawing::from_code_pairs(&pairs).map(|_| ()));
}

#[test]
fn read_wrong_value_type_is_error() {
    let pairs = tables(table("LAYER", vec![CodePair::new_str(0, "LAYER"), CodePair::new_str(62, "red")]));
    assert_eq!(Err(DxfError::WrongValueType(62)), Drawing::from_code_pairs(&pairs).map(|_| ()));
}

#[test]
fn read_line_type_element_part_before_element_is_error() {
    let pairs = tables(table("LTYPE", vec![CodePair::new_str(0, "LTYPE"), CodePair::new_i16(74, 0)]));
    assert_eq!(Err(DxfError::UnexpectedCodePair(74)), Drawing::from_code_pairs(&pairs).map(|_| ()));
}

#[test]
fn read_line_type_elements() {
    let pairs = tables(table(
        "LTYPE",
        vec![
            CodePair::new_str(0, "LTYPE"),
            CodePair::new_str(5, "1F"),
            CodePair::new_str(2, "dashed"),
            CodePair::new_i16(73, 2),
            CodePair::new_real(49, units(500_000_000_000)),
            CodePair::new_i16(74, 2),
            CodePair::new_i16(75, 0),
            CodePair::new_str(340, "11"),
            CodePair::new_real(46, units(1_000_000_000_000)),
            CodePair::new_real(50, units(2_000_000_000_000)),
            CodePair::new_real(44, units(-250_000_000_000)),
            CodePair::new_real(45, units(750_000_000_000)),
            CodePair::new_str(9, "T"),
            CodePair::new_real(49, units(-250_000_000_000)),
        ],
    ));
    let drawing = Drawing::from_code_pairs(&pairs).unwrap();
    let lt = &drawing.line_types()[0];
    assert_eq!(dxf::Handle(0x1F), lt.handle);
    assert_eq!("dashed", lt.name);
    assert_eq!(2, lt.element_count);
    assert_eq!(2, lt.line_elements.len());
    let e = &lt.line_elements[0];
    assert_eq!(units(500_000_000_000), e.dash_dot_space_length);
    assert_eq!(2, e.complex_line_type_element_type);
    assert_eq!(Some(0), e.shape_number);
    assert_eq!(Some(units(1_000_000_000_000)), e.scale_value);
    assert_eq!(Some(units(-250_000_000_000)), e.x_offset);
    assert_eq!(Some(units(750_000_000_000)), e.y_offset);
    assert_eq!(Some("T".to_string()), e.text_string);
    // the reader takes neither the text style handle nor the rotation
    assert_eq!(None, e.__styles_handle);
    assert_eq!(None, e.rotation_angle);
    assert_eq!(units(-250_000_000_000), lt.line_elements[1].dash_dot_space_length);
    assert_eq!(None, lt.line_elements[1].shape_number);
}

#[test]
fn read_open_extension_group_is_closed_at_item_end() {
    let pairs = tables(table(
        "LAYER",
        vec![
            CodePair::new_str(0, "LAYER"),
            CodePair::new_str(102, "{APP"),
            CodePair::new_str(1, "kept"),
        ],
    ));
    let drawing = Drawing::from_code_pairs(&pairs).unwrap();
    let layer = &drawing.layers()[0];
    assert_eq!(1, layer.extension_data_groups.len());
    assert_eq!("APP", layer.extension_data_groups[0].application_name);
    assert_eq!(1, layer.extension_data_groups[0].items.len());
}

#[test]
fn read_extension_data_of_any_table_item() {
    let pairs = tables(table(
        "APPID",
        vec![
            CodePair::new_str(0, "APPID"),
            CodePair::new_str(2, "ACAD"),
            CodePair::new_str(102, "{OWNER"),
            CodePair::new_str(330, "1"),
            CodePair::new_str(102, "}"),
        ],
    ));
    let drawing = Drawing::from_code_pairs(&pairs).unwrap();
    let app = &drawing.app_ids()[0];
    assert_eq!("ACAD", app.name);
    assert_eq!(1, app.extension_data_groups.len());
    assert_eq!("OWNER", app.extension_data_groups[0].application_name);
    assert_eq!(1, app.extension_data_groups[0].items.len());
}
