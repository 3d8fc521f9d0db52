use dxf::drawing::Drawing;
use dxf::enums::AcadVersion;
use dxf::tables::{ExtensionGroup, ExtensionGroupItem, Layer, Style};
use dxf::{CodePair, Color};

fn contains(actual: &[CodePair], expected: &[CodePair]) -> bool {
    actual.windows(expected.len()).any(|w| w == expected)
}

#[test]
fn write_layer_record_with_its_handle() {
    let mut drawing = Drawing::new();
    let layer = Layer {
        name: String::from("layer-name"),
        color: Color::from_index(3),
        ..Default::default()
    };
    let handle = drawing.add_layer(layer);
    assert_eq!(handle, drawing.layers().last().unwrap().handle);
    let pairs = drawing.code_pairs();
    assert!(contains(
        &pairs,
        &[
            CodePair::new_str(0, "LAYER"),
            CodePair::new_str(5, &handle.as_string()),
            CodePair::new_str(100, "AcDbSymbolTableRecord"),
            CodePair::new_str(100, "AcDbLayerTableRecord"),
            CodePair::new_str(2, "layer-name"),
            CodePair::new_i16(70, 0),
            CodePair::new_i16(62, 3),
            CodePair::new_str(6, "CONTINUOUS"),
        ]
    ));
}

#[test]
fn added_items_get_the_next_handles() {
    let mut drawing = Drawing::new();
    let a = drawing.add_style(Style { name: "a".to_string(), ..Default::default() });
    let b = drawing.add_style(Style { name: "b".to_string(), ..Default::default() });
    assert_eq!(a.next_handle_value(), b);
    let own = drawing.add_style(Style { handle: dxf::Handle(0x500), name: "c".to_string(), ..Default::default() });
    assert_eq!(dxf::Handle(0x500), own);
    let d = drawing.add_style(Style { name: "d".to_string(), ..Default::default() });
    assert_eq!(b.next_handle_value(), d);
}

#[test]
fn write_layer_that_is_off_negates_its_color() {
    let mut drawing = Drawing::new();
    drawing.add_layer(Layer {
        name: String::from("off"),
        color: Color::from_index(5),
        is_layer_on: false,
        ..Default::default()
    });
    let pairs = drawing.code_pairs();
    assert!(contains(
        &pairs,
        &[CodePair::new_str(2, "off"), CodePair::new_i16(70, 0), CodePair::new_i16(62, -5)]
    ));
}

#[test]
fn write_r12_has_no_subclass_markers() {
    let mut drawing = Drawing::new();
    drawing.header.version = AcadVersion::R12;
    let pairs = drawing.code_pairs();
    assert!(!pairs.iter().any(|p| p.code == 100));
    assert!(contains(
        &pairs,
        &[CodePair::new_str(0, "TABLE"), CodePair::new_str(2, "LAYER"), CodePair::new_i16(70, 1)]
    ));
}

#[test]
fn write_extension_data_only_from_r14() {
    let layer = Layer {
        name: String::from("ext"),
        extension_data_groups: vec![ExtensionGroup {
            application_name: String::from("APP"),
            items: vec![ExtensionGroupItem::CodePair(CodePair::new_str(1, "value"))],
        }],
        ..Default::default()
    };
    let group = [
        CodePair::new_str(102, "{APP"),
        CodePair::new_str(1, "value"),
        CodePair::new_str(102, "}"),
    ];
    let mut drawing = Drawing::new();
    drawing.header.version = AcadVersion::R13;
    drawing.add_layer(layer.clone());
    assert!(!contains(&drawing.code_pairs(), &group));
    drawing.header.version = AcadVersion::R14;
    assert!(contains(&drawing.code_pairs(), &group));
}

#[test]
fn write_then_read_gives_the_tables_back() {
    let mut drawing = Drawing::new();
    drawing.add_layer(Layer {
        name: String::from("walls"),
        color: Color::from_index(1),
        line_type_name: String::from("DASHED"),
        is_layer_on: false,
        extension_data_groups: vec![ExtensionGroup {
            application_name: String::from("APP"),
            items: vec![ExtensionGroupItem::CodePair(CodePair::new_i16(70, 4))],
        }],
        ..Default::default()
    });
    drawing.add_style(Style { name: "notes".to_string(), ..Default::default() });
    let read = Drawing::from_code_pairs(&drawing.code_pairs()).unwrap();
    assert_eq!(drawing.layers(), read.layers());
    assert_eq!(drawing.styles(), read.styles());
    assert_eq!(drawing.views(), read.views());
    assert_eq!(drawing.view_ports(), read.view_ports());
    assert_eq!(drawing.ucss(), read.ucss());
    assert_eq!(drawing.app_ids(), read.app_ids());
    assert_eq!(drawing.block_records(), read.block_records());
    assert_eq!(drawing.line_types().len(), read.line_types().len());
    for (a, b) in drawing.line_types().iter().zip(read.line_types()) {
        assert_eq!(a.handle, b.handle);
        assert_eq!(a.name, b.name);
        assert_eq!(a.element_count, b.element_count);
        assert_eq!(a.line_elements.len(), b.line_elements.len());
    }
}

#[test]
fn write_then_read_r12_drops_block_records() {
    let mut drawing = Drawing::new();
    drawing.header.version = AcadVersion::R12;
    assert_eq!(2, drawing.block_records().len());
    let read = Drawing::from_code_pairs(&drawing.code_pairs()).unwrap();
    assert_eq!(0, read.block_records().len());
    assert_eq!(drawing.layers(), read.layers());
}

#[test]
fn write_extension_data_right_after_the_handle() {
    let mut drawing = Drawing::new();
    let handle = drawing.add_style(Style {
        name: "annotated".to_string(),
        extension_data_groups: vec![ExtensionGroup {
            application_name: String::from("APP"),
            items: vec![ExtensionGroupItem::CodePair(CodePair::new_i32(90, 7))],
        }],
        ..Default::default()
    });
    let pairs = drawing.code_pairs();
    assert!(contains(
        &pairs,
        &[
            CodePair::new_str(0, "STYLE"),
            CodePair::new_str(5, &handle.as_string()),
            CodePair::new_str(102, "{APP"),
            CodePair::new_i32(90, 7),
            CodePair::new_str(102, "}"),
            CodePair::new_str(100, "AcDbSymbolTableRecord"),
            CodePair::new_str(100, "AcDbTextStyleTableRecord"),
            CodePair::new_str(2, "annotated"),
        ]
    ));
    let read = Drawing::from_code_pairs(&pairs).unwrap();
    assert_eq!(drawing.styles(), read.styles());
}
