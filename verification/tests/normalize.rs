use dxf::drawing::Drawing;
use dxf::point::Vector;
use dxf::tables::{Layer, Style, ViewPort};
use dxf::{Color, Real};

fn units(u: i128) -> Real {
    Real::new(u < 0, u.unsigned_abs() as u64, -12)
}


const ONE: i128 = 1_000_000_000_000;

fn names<T, F: Fn(&T) -> &str>(items: &[T], f: F) -> Vec<String> {
    items.iter().map(|i| f(i).to_string()).collect()
}

#[test]
fn new_drawing_has_the_default_items_in_order() {
    let drawing = Drawing::new();
    assert_eq!(vec!["0"], names(drawing.layers(), |l| &l.name));
    assert_eq!(vec!["BYBLOCK", "BYLAYER", "CONTINUOUS"], names(drawing.line_types(), |l| &l.name));
    assert_eq!(vec!["ANNOTATIVE", "STANDARD"], names(drawing.styles(), |s| &s.name));
    assert_eq!(vec!["*ACTIVE"], names(drawing.view_ports(), |v| &v.name));
    assert_eq!(0, drawing.ucss().len());
    assert_eq!(
        vec!["ACAD", "ACADANNOTATIVE", "ACAD_MLEADERVER", "ACAD_NAV_VCDISPLAY"],
        names(drawing.app_ids(), |a| &a.name)
    );
    assert_eq!(vec!["*MODEL_SPACE", "*PAPER_SPACE"], names(drawing.block_records(), |b| &b.name));
    // every item has its own handle, from 11 on
    assert_eq!(dxf::Handle(11), drawing.layers()[0].handle);
    assert_eq!(dxf::Handle(23), drawing.block_records()[1].handle);
}

#[test]
fn normalize_twice_changes_nothing_more() {
    let mut drawing = Drawing::new();
    drawing.add_layer(Layer {
        name: "dashed".to_string(),
        line_type_name: "DASHED".to_string(),
        color: Color::by_layer(),
        ..Default::default()
    });
    drawing.add_style(Style { name: "tiny".to_string(), text_height: units(-ONE), width_factor: units(0), ..Default::default() });
    drawing.normalize();
    let once_layers = drawing.layers().to_vec();
    let once_styles = drawing.styles().to_vec();
    let once_line_types = names(drawing.line_types(), |l| &l.name);
    assert!(once_line_types.contains(&"DASHED".to_string()));
    assert_eq!(Some(7), drawing.layers()[1].color.index());
    let tiny = drawing.styles().iter().find(|s| s.name == "tiny").unwrap();
    assert_eq!(units(0), tiny.text_height);
    assert_eq!(units(ONE), tiny.width_factor);
    drawing.normalize();
    assert_eq!(once_layers, drawing.layers().to_vec());
    assert_eq!(once_styles, drawing.styles().to_vec());
    assert_eq!(once_line_types, names(drawing.line_types(), |l| &l.name));
}

#[test]
fn normalize_keeps_existing_items_first() {
    let mut drawing = Drawing::new();
    drawing.clear();
    drawing.add_layer(Layer { name: "z".to_string(), ..Default::default() });
    drawing.header.current_layer = "cur".to_string();
    drawing.normalize();
    assert_eq!(vec!["z", "0", "cur"], names(drawing.layers(), |l| &l.name));
}

#[test]
fn normalize_valid_layer_changes_nothing() {
    let mut layer = Layer {
        name: "ok".to_string(),
        color: Color::from_index(4),
        line_type_name: "DASHED".to_string(),
        ..Default::default()
    };
    let before = layer.clone();
    layer.normalize();
    assert_eq!(before, layer);
    let mut by_block = Layer { color: Color::by_block(), ..Default::default() };
    by_block.normalize();
    assert_eq!(Some(7), by_block.color.index());
}

#[test]
fn normalize_view_port_values() {
    let mut vp = ViewPort {
        snap_spacing: Vector::new(units(0), units(-ONE), units(2 * ONE)),
        lens_length: units(0),
        ucs_icon: -1,
        circle_sides: 0,
        view_port_aspect_ratio: units(3 * ONE),
        ..Default::default()
    };
    vp.normalize();
    assert_eq!(Vector::new(units(ONE), units(ONE), units(2 * ONE)), vp.snap_spacing);
    assert_eq!(units(50 * ONE), vp.lens_length);
    assert_eq!(3, vp.ucs_icon);
    assert_eq!(1000, vp.circle_sides);
    assert_eq!(units(3 * ONE), vp.view_port_aspect_ratio);
    let again = vp.clone();
    vp.normalize();
    assert_eq!(again, vp);
}
