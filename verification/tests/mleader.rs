use dxf::enums::AcadVersion;
use dxf::mleader::add_custom_code_pairs_mleader;
use dxf::{CodePair, Color, MLeader, Real};

fn units(u: i128) -> Real {
    Real::new(u < 0, u.unsigned_abs() as u64, -12)
}


#[test]
fn mleader_pairs_start_with_marker_and_common_properties() {
    let mut leader = MLeader::default();
    leader.leader_style_id = "1A".to_string();
    leader.property_override_flag = 4;
    leader.leader_line_color = Color::by_layer();
    leader.dogleg_length = units(2_500_000_000_000);
    let mut pairs = vec![CodePair::new_str(0, "MULTILEADER")];
    assert!(add_custom_code_pairs_mleader(&mut pairs, &leader, AcadVersion::R2018));
    assert_eq!(CodePair::new_str(0, "MULTILEADER"), pairs[0]);
    assert_eq!(CodePair::new_str(100, "AcDbMLeader"), pairs[1]);
    assert_eq!(CodePair::new_i16(270, 2), pairs[2]);
    assert_eq!(CodePair::new_str(340, "1A"), pairs[3]);
    assert_eq!(CodePair::new_i32(90, 4), pairs[4]);
    assert_eq!(CodePair::new_i16(170, 0), pairs[5]);
    assert_eq!(CodePair::new_i32(91, -1073741824), pairs[6]);
    assert_eq!(CodePair::new_i16(171, 0), pairs[7]);
    assert_eq!(CodePair::new_i16(290, 0), pairs[8]);
    assert_eq!(CodePair::new_i16(291, 0), pairs[9]);
    assert_eq!(CodePair::new_real(41, units(2_500_000_000_000)), pairs[10]);
    assert_eq!(CodePair::new_str(301, "}"), *pairs.last().unwrap());
}

#[test]
fn mleader_pairs_before_r13_have_no_marker() {
    let leader = MLeader::default();
    let mut pairs = vec![];
    add_custom_code_pairs_mleader(&mut pairs, &leader, AcadVersion::R12);
    assert_eq!(CodePair::new_i16(270, 2), pairs[0]);
    assert!(!pairs.iter().any(|p| p.code == 100));
    let mut later = vec![];
    add_custom_code_pairs_mleader(&mut later, &leader, AcadVersion::R13);
    assert_eq!(pairs.len() + 1, later.len());
}

#[test]
fn mleader_colors() {
    assert_eq!(-1073741824, Color::by_layer().to_mleader_raw_value());
    assert_eq!(-1056964608, Color::by_block().to_mleader_raw_value());
    assert_eq!(-1056964608, Color::by_entity().to_mleader_raw_value());
    assert_eq!(-1023410176 + 5, Color::from_index(5).to_mleader_raw_value());
}

#[test]
fn mleader_context_data_is_bracketed() {
    let leader = MLeader::default();
    let mut pairs = vec![];
    add_custom_code_pairs_mleader(&mut pairs, &leader, AcadVersion::R2018);
    let open = pairs.iter().position(|p| *p == CodePair::new_str(300, "CONTEXT_DATA{")).unwrap();
    let close = pairs.iter().rposition(|p| *p == CodePair::new_str(301, "}")).unwrap();
    assert!(open < close);
}
