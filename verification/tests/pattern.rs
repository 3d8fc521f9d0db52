use dxf::drawing::Drawing;
use dxf::linetype::LineType;
use dxf::{DxfError, Handle, Real};

fn units(u: i128) -> Real {
    Real::new(u < 0, u.unsigned_abs() as u64, -12)
}


const ONE: i128 = 1_000_000_000_000;

#[test]
fn pattern_without_leading_a_is_malformed() {
    let mut drawing = Drawing::new();
    let styles_before = drawing.styles().len();
    let mut line_type = LineType::default();
    assert_eq!(Err(DxfError::MalformedString), line_type.add_line_type_pattern(&mut drawing, "B,1"));
    assert_eq!(Err(DxfError::MalformedString), line_type.add_line_type_pattern(&mut drawing, ""));
    assert_eq!(0, line_type.line_elements.len());
    assert_eq!(0, line_type.element_count);
    assert_eq!(styles_before, drawing.styles().len());
}

#[test]
fn pattern_with_bad_number_fails_where_it_stops() {
    let mut drawing = Drawing::new();
    let mut line_type = LineType::default();
    assert_eq!(Err(DxfError::ParseFloatError), line_type.add_line_type_pattern(&mut drawing, "A,1,x"));
    // the element before the bad number was already added
    assert_eq!(1, line_type.line_elements.len());
    assert_eq!(1, line_type.element_count);
    assert_eq!(units(ONE), line_type.line_elements[0].dash_dot_space_length);
    // the total length is left as it was
    assert_eq!(units(0), line_type.total_pattern_length);
}

#[test]
fn text_group_must_start_with_quoted_text() {
    let mut drawing = Drawing::new();
    let mut line_type = LineType::default();
    assert_eq!(
        Err(DxfError::MalformedString),
        line_type.add_line_type_pattern(&mut drawing, "A,1,[X,S=1]")
    );
}

#[test]
fn text_group_with_bad_setting_fails() {
    let mut drawing = Drawing::new();
    let mut line_type = LineType::default();
    assert_eq!(
        Err(DxfError::ParseFloatError),
        line_type.add_line_type_pattern(&mut drawing, "A,1,[\"T\",S=abc],-1")
    );
}

#[test]
fn text_style_is_shared_by_equal_texts() {
    let mut drawing = Drawing::new();
    let styles_before = drawing.styles().len();
    let mut line_type = LineType::default();
    line_type
        .add_line_type_pattern(
            &mut drawing,
            "A,0.35,-1.05,[\"X\",STANDARD,S=1.50,R=0.0,X=-0.25,Y=-.75],0.35,-1.05,[\"X\",STANDARD,S=1.50,R=0.0,X=-0.25,Y=-.75],0.35,-1.05",
        )
        .unwrap();
    assert_eq!(styles_before + 1, drawing.styles().len());
    let style = drawing.styles().iter().find(|s| s.name == "X").unwrap();
    assert_eq!(Some(style.handle), line_type.line_elements[1].__styles_handle);
    assert_eq!(Some(style.handle), line_type.line_elements[3].__styles_handle);
    assert_eq!(None, line_type.line_elements[0].__styles_handle);
    assert_eq!(6, line_type.line_elements.len());
    assert_eq!(6, line_type.element_count);
    assert_eq!(units(4_200_000_000_000), line_type.total_pattern_length);
}

#[test]
fn text_with_slash_gets_style_named_forwardslash() {
    let mut drawing = Drawing::new();
    let mut line_type = LineType::default();
    line_type
        .add_line_type_pattern(&mut drawing, "A,1,[\"A/B\",STANDARD],-1")
        .unwrap();
    assert_eq!(Some("A/B".to_string()), line_type.line_elements[0].text_string);
    let style = drawing
        .styles()
        .iter()
        .find(|s| s.name == "AforwardslashB")
        .unwrap();
    assert_eq!(Some(style.handle), line_type.line_elements[0].__styles_handle);
    assert_ne!(Handle(0), style.handle);
}

#[test]
fn patterns_add_up() {
    let mut drawing = Drawing::new();
    let mut line_type = LineType::default();
    line_type.add_line_type_pattern(&mut drawing, "A,1,-1").unwrap();
    line_type.add_line_type_pattern(&mut drawing, "A,2").unwrap();
    assert_eq!(3, line_type.line_elements.len());
    assert_eq!(3, line_type.element_count);
    assert_eq!(units(4 * ONE), line_type.total_pattern_length);
    assert_eq!(units(-ONE), line_type.line_elements[1].dash_dot_space_length);
    assert_eq!(units(2 * ONE), line_type.line_elements[2].dash_dot_space_length);
}

#[test]
fn text_style_lookup_twice_gives_the_same_handle() {
    let mut drawing = Drawing::new();
    let mut line_type = LineType::default();
    let count = drawing.styles().len();
    let first = line_type.add_text_style(&mut drawing, "lookup").unwrap();
    assert_eq!(count + 1, drawing.styles().len());
    let second = line_type.add_text_style(&mut drawing, "lookup").unwrap();
    assert_eq!(first, second);
    assert_eq!(count + 1, drawing.styles().len());
    let standard = line_type.add_text_style(&mut drawing, "STANDARD").unwrap();
    assert_eq!(count + 1, drawing.styles().len());
    assert!(drawing.styles().iter().any(|s| s.name == "STANDARD" && s.handle == standard));
}

#[test]
fn set_version_changes_what_is_written() {
    let mut drawing = Drawing::new();
    drawing.set_version(dxf::AcadVersion::R12);
    assert_eq!(dxf::AcadVersion::R12, drawing.version());
}

#[test]
fn pattern_accepts_every_numeral_rust_reads() {
    let mut drawing = Drawing::new();
    let mut line_type = LineType::default();
    assert_eq!(Ok(()), line_type.add_line_type_pattern(&mut drawing, "A,1e20,-1e400,0.1e-330"));
    assert_eq!(3, line_type.line_elements.len());
    assert_eq!(Real::new(false, 1, 20), line_type.line_elements[0].dash_dot_space_length);
    assert_eq!(Real::Infinite { negative: true }, line_type.line_elements[1].dash_dot_space_length);
    assert_eq!(Real::zero(), line_type.line_elements[2].dash_dot_space_length);
    assert_eq!(Real::Infinite { negative: false }, line_type.total_pattern_length);

    let mut line_type = LineType::default();
    assert_eq!(Ok(()), line_type.add_line_type_pattern(&mut drawing, "A,inf,NaN"));
    assert_eq!(Real::NotANumber, line_type.line_elements[1].dash_dot_space_length);
    assert_eq!(Real::NotANumber, line_type.total_pattern_length);
}
