//! The code pairs of a multileader.

use vstd::prelude::*;

use crate::code_pair::{
    int_pair, pairs_view, push_pair, real_pair, short_pair, str_pair, CodePair, PairView, ValueView,
};
use crate::color::{mleader_color_value, Color, COLOR_BY_BLOCK};
use crate::decimal::{real_zero, Real};
use crate::enums::{version_at_least, AcadVersion};
use crate::linetype::lemma_add_assoc;
use crate::point::{Point, Vector};

verus! {

/// A multileader entity: one or more leader lines ending in a text.
#[derive(Clone, Debug)]
pub struct MLeader {
    pub leader_style_id: String,
    pub property_override_flag: i32,
    pub leader_line_type: i16,
    pub leader_line_color: Color,
    pub leader_line_type_id: String,
    pub leader_line_weight: i16,
    pub enable_landing: bool,
    pub enable_dogleg: bool,
    pub dogleg_length: Real,
    pub arrowhead_id: String,
    pub arrowhead_size: Real,
    pub content_type: i16,
    pub text_style_id: String,
    pub text_left_attachment_type: i16,
    pub text_right_attachment_type: i16,
    pub text_angle_type: i16,
    pub text_alignment_type: i16,
    pub text_color: Color,
    pub enable_frame_text: bool,
    pub enable_annotation_scale: bool,
    pub arrowhead_index: i32,
    pub arrowhead_id_ref: String,
    pub text_direction_negative: bool,
    pub text_align_in_ipe: i16,
    pub text_attachment_point: i16,
    pub text_attachment_direction: i16,
    pub bottom_text_attachment_direction: i16,
    pub top_text_attachment_direction: i16,
    pub break_point_index: i32,
    pub content_scale: Real,
    pub content_base_point: Point,
    pub text_height: Real,
    pub arrow_head_size: Real,
    pub landing_gap: Real,
    pub has_m_text: bool,
    pub default_text_contents: String,
    pub text_normal_direction: Vector,
    pub text_style_id_context: String,
    pub text_location: Point,
    pub text_direction: Vector,
    pub text_rotation: Real,
    pub text_width: Real,
    pub text_height_context: Real,
    pub text_line_spacing_factor: Real,
    pub text_line_spacing_style: i16,
    pub text_color_context: Color,
    pub text_attachment: i16,
    pub text_flow_direction: i16,
    pub text_background_color: Color,
    pub text_background_scale_factor: Real,
    pub text_background_transparency: i32,
    pub is_text_background_color_on: bool,
    pub is_text_background_fill_on: bool,
    pub text_column_type: i16,
    pub use_text_auto_height: bool,
    pub text_column_width: Real,
    pub text_column_gutter_width: Real,
    pub text_column_flow_reversed: bool,
    pub text_column_height: Real,
    pub text_use_word_break: bool,
    pub has_block: bool,
    pub has_set_last_leader_line_point: bool,
    pub has_set_dogleg_vector: bool,
    pub last_leader_line_point: Point,
    pub dogleg_vector: Vector,
    pub leader_branch_index: i32,
    pub dogleg_length_leader: Real,
    pub vertices: Vec<Point>,
    pub leader_line_index: i32,
}

/// The 16-bit value that stands for a flag.
pub open spec fn bool_short(b: bool) -> i16 {
    if b {
        1
    } else {
        0
    }
}

/// The 16-bit value that stands for a flag: 1 for set, 0 for clear.
pub(crate) fn as_i16(b: bool) -> (v: i16)
    ensures
        v == bool_short(b),
{
    if b {
        1
    } else {
        0
    }
}

/// A text pair where the text is not empty, nothing where it is.
pub open spec fn opt_str_pair(code: i32, s: Seq<char>) -> Seq<PairView> {
    if s.len() > 0 {
        seq![str_pair(code, s)]
    } else {
        Seq::empty()
    }
}

/// Appends a text pair where the text is not empty.
fn push_opt_str(pairs: &mut Vec<CodePair>, code: i32, s: &String)
    ensures
        pairs_view(final(pairs)@) == pairs_view(old(pairs)@) + opt_str_pair(code, s@),
{
    if s.as_str().unicode_len() > 0 {
        push_pair(pairs, CodePair::new_string(code, s));
    }
    proof {
        assert(pairs_view(pairs@) =~= pairs_view(old(pairs)@) + opt_str_pair(code, s@));
    }
}

/// The text `AcDbMLeader`.
pub open spec fn mleader_marker() -> Seq<char> {
    seq!['A', 'c', 'D', 'b', 'M', 'L', 'e', 'a', 'd', 'e', 'r']
}

/// The text that opens the context data of a multileader.
pub open spec fn context_data_open() -> Seq<char> {
    seq!['C', 'O', 'N', 'T', 'E', 'X', 'T', '_', 'D', 'A', 'T', 'A', '{']
}

/// The text that opens the leader of a multileader.
pub open spec fn leader_open() -> Seq<char> {
    seq!['L', 'E', 'A', 'D', 'E', 'R', '{']
}

/// The text that opens the leader line of a multileader.
pub open spec fn leader_line_open() -> Seq<char> {
    seq!['L', 'E', 'A', 'D', 'E', 'R', '_', 'L', 'I', 'N', 'E', '{']
}

/// The text that closes a section of a multileader.
pub open spec fn section_close() -> Seq<char> {
    seq!['}']
}

/// The pairs that write the first part of the common properties of a multileader: its style, leader line, landing and dogleg, and arrowhead.
pub open spec fn common_head_pairs(m: MLeader) -> Seq<PairView> {
    seq![
        short_pair(270, 2),
    ]
        + opt_str_pair(340, m.leader_style_id@)
        + seq![
        int_pair(90, m.property_override_flag),
        short_pair(170, m.leader_line_type),
        int_pair(91, mleader_color_value(m.leader_line_color@)),
    ]
        + opt_str_pair(341, m.leader_line_type_id@)
        + seq![
        short_pair(171, m.leader_line_weight),
        short_pair(290, bool_short(m.enable_landing)),
        short_pair(291, bool_short(m.enable_dogleg)),
        real_pair(41, m.dogleg_length),
    ]
        + opt_str_pair(342, m.arrowhead_id@)
}

/// The pairs that write the rest of the common properties of a multileader: content type, text style, text attachment and direction settings.
pub open spec fn common_tail_pairs(m: MLeader) -> Seq<PairView> {
    seq![
        real_pair(42, m.arrowhead_size),
        short_pair(172, m.content_type),
    ]
        + opt_str_pair(343, m.text_style_id@)
        + seq![
        short_pair(173, m.text_left_attachment_type),
        short_pair(95, m.text_right_attachment_type),
        short_pair(174, m.text_angle_type),
        short_pair(175, m.text_alignment_type),
        int_pair(92, mleader_color_value(m.text_color@)),
        short_pair(292, bool_short(m.enable_frame_text)),
        short_pair(293, bool_short(m.enable_annotation_scale)),
        int_pair(94, m.arrowhead_index),
    ]
        + opt_str_pair(345, m.arrowhead_id_ref@)
        + seq![
        short_pair(294, bool_short(m.text_direction_negative)),
        short_pair(178, m.text_align_in_ipe),
        short_pair(179, m.text_attachment_point),
        short_pair(271, m.text_attachment_direction),
        short_pair(272, m.bottom_text_attachment_direction),
        short_pair(273, m.top_text_attachment_direction),
    ]
}

/// The pairs that write the common properties of a multileader: its style, leader line, landing, arrowhead, content type, text style and attachment settings; ids that are empty are left out.
pub open spec fn common_properties_pairs(m: MLeader) -> Seq<PairView> {
    common_head_pairs(m) + common_tail_pairs(m)
}

/// The pairs that write the content properties of a multileader's context data: scale, base point, text height, arrowhead size, landing gap, text contents and normal; an empty text style id is left out.
pub open spec fn content_properties_pairs(m: MLeader) -> Seq<PairView> {
    seq![
        real_pair(40, m.content_scale),
        real_pair(10, m.content_base_point.x),
        real_pair(20, m.content_base_point.y),
        real_pair(30, m.content_base_point.z),
        real_pair(41, m.text_height),
        real_pair(140, m.arrow_head_size),
        real_pair(145, m.landing_gap),
        short_pair(290, bool_short(m.has_m_text)),
        str_pair(304, m.default_text_contents@),
        real_pair(11, m.text_normal_direction.x),
        real_pair(21, m.text_normal_direction.y),
        real_pair(31, m.text_normal_direction.z),
    ]
        + opt_str_pair(340, m.text_style_id_context@)
}

/// The pairs that write the text properties of a multileader's context data: location, direction, rotation, size, spacing, colors, background and columns.
pub open spec fn text_properties_pairs(m: MLeader) -> Seq<PairView> {
    seq![
        real_pair(12, m.text_location.x),
        real_pair(22, m.text_location.y),
        real_pair(32, m.text_location.z),
        real_pair(13, m.text_direction.x),
        real_pair(23, m.text_direction.y),
        real_pair(33, m.text_direction.z),
        real_pair(42, m.text_rotation),
        real_pair(43, m.text_width),
        real_pair(44, m.text_height_context),
        real_pair(45, m.text_line_spacing_factor),
        short_pair(170, m.text_line_spacing_style),
        int_pair(90, mleader_color_value(m.text_color_context@)),
        short_pair(171, m.text_attachment),
        short_pair(172, m.text_flow_direction),
        int_pair(91, mleader_color_value(m.text_background_color@)),
        real_pair(141, m.text_background_scale_factor),
        int_pair(92, m.text_background_transparency),
        short_pair(291, bool_short(m.is_text_background_color_on)),
        short_pair(292, bool_short(m.is_text_background_fill_on)),
        short_pair(173, m.text_column_type),
        short_pair(293, bool_short(m.use_text_auto_height)),
        real_pair(142, m.text_column_width),
        real_pair(143, m.text_column_gutter_width),
        short_pair(294, bool_short(m.text_column_flow_reversed)),
        real_pair(144, m.text_column_height),
        short_pair(295, bool_short(m.text_use_word_break)),
        short_pair(296, bool_short(m.has_block)),
    ]
}

/// The pairs that write the leader node of a multileader: its last leader line point, dogleg vector, branch index and dogleg length.
pub open spec fn leader_node_pairs(m: MLeader) -> Seq<PairView> {
    seq![
        short_pair(290, bool_short(m.has_set_last_leader_line_point)),
        short_pair(291, bool_short(m.has_set_dogleg_vector)),
        real_pair(10, m.last_leader_line_point.x),
        real_pair(20, m.last_leader_line_point.y),
        real_pair(30, m.last_leader_line_point.z),
        real_pair(11, m.dogleg_vector.x),
        real_pair(21, m.dogleg_vector.y),
        real_pair(31, m.dogleg_vector.z),
        int_pair(90, m.leader_branch_index),
        real_pair(40, m.dogleg_length_leader),
    ]
}

/// The pairs that write the context data of a multileader: its opener, content
/// and text properties, and break point index.
pub open spec fn context_data_pairs(m: MLeader) -> Seq<PairView> {
    seq![str_pair(300, context_data_open())] + content_properties_pairs(m) + text_properties_pairs(m)
        + seq![int_pair(90, m.break_point_index)]
}

/// The three pairs of one leader line vertex.
pub open spec fn vertex_pairs(p: Point) -> Seq<PairView> {
    seq![real_pair(10, p.x), real_pair(20, p.y), real_pair(30, p.z)]
}

/// The pairs of a list of vertices, in order.
pub open spec fn vertices_pairs(vs: Seq<Point>) -> Seq<PairView>
    decreases vs.len(),
{
    if vs.len() == 0 {
        Seq::empty()
    } else {
        vertices_pairs(vs.drop_last()) + vertex_pairs(vs.last())
    }
}

/// The pairs that write the leader line of a multileader: its opener, its
/// vertices and its index.
pub open spec fn leader_lines_pairs(m: MLeader) -> Seq<PairView> {
    seq![str_pair(304, leader_line_open())] + vertices_pairs(m.vertices@) + seq![
        int_pair(91, m.leader_line_index),
    ]
}

/// The pairs that write the leader data of a multileader: its opener, node and
/// lines, and the closers of the leader line, leader and context data.
pub open spec fn leader_data_pairs(m: MLeader) -> Seq<PairView> {
    seq![str_pair(302, leader_open())] + leader_node_pairs(m) + leader_lines_pairs(m) + seq![
        str_pair(305, section_close()),
        str_pair(303, section_close()),
        str_pair(301, section_close()),
    ]
}

/// The pairs that write a multileader's own part: from R13 on its subclass
/// marker, then its common properties, context data and leader data.
pub open spec fn mleader_pairs(m: MLeader, version: AcadVersion) -> Seq<PairView> {
    (if version_at_least(version, AcadVersion::R13) {
        seq![str_pair(100, mleader_marker())]
    } else {
        Seq::empty()
    }) + common_properties_pairs(m) + context_data_pairs(m) + leader_data_pairs(m)
}

/// Writes the first part of the common properties of a multileader.
fn add_mleader_common_head(pairs: &mut Vec<CodePair>, mleader: &MLeader)
    ensures
        pairs_view(final(pairs)@) == pairs_view(old(pairs)@) + common_head_pairs(*mleader),
{
    let ghost s0 = pairs_view(pairs@);
    let ghost m = *mleader;
    let ghost seg0 = seq![short_pair(270, 2)];
    let ghost before = pairs_view(pairs@);
    push_pair(pairs, CodePair::new_i16(270, 2));
    proof {
        assert(pairs_view(pairs@) =~= before + seg0);
        assert(s0 + seg0 == pairs_view(pairs@));
    }
    let ghost acc0 = seg0;
    let ghost seg1 = opt_str_pair(340, m.leader_style_id@);
    push_opt_str(pairs, 340, &mleader.leader_style_id);
    proof {
        lemma_add_assoc(s0, acc0, seg1);
    }
    let ghost acc1 = acc0 + seg1;
    let ghost seg2 = seq![int_pair(90, m.property_override_flag), short_pair(170, m.leader_line_type), int_pair(91, mleader_color_value(m.leader_line_color@))];
    let ghost before = pairs_view(pairs@);
    push_pair(pairs, CodePair::new_i32(90, mleader.property_override_flag));
    push_pair(pairs, CodePair::new_i16(170, mleader.leader_line_type));
    push_pair(pairs, CodePair::new_i32(91, mleader.leader_line_color.to_mleader_raw_value()));
    proof {
        assert(pairs_view(pairs@) =~= before + seg2);
        lemma_add_assoc(s0, acc1, seg2);
    }
    let ghost acc2 = acc1 + seg2;
    let ghost seg3 = opt_str_pair(341, m.leader_line_type_id@);
    push_opt_str(pairs, 341, &mleader.leader_line_type_id);
    proof {
        lemma_add_assoc(s0, acc2, seg3);
    }
    let ghost acc3 = acc2 + seg3;
    let ghost seg4 = seq![short_pair(171, m.leader_line_weight), short_pair(290, bool_short(m.enable_landing)), short_pair(291, bool_short(m.enable_dogleg)), real_pair(41, m.dogleg_length)];
    let ghost before = pairs_view(pairs@);
    push_pair(pairs, CodePair::new_i16(171, mleader.leader_line_weight));
    push_pair(pairs, CodePair::new_i16(290, as_i16(mleader.enable_landing)));
    push_pair(pairs, CodePair::new_i16(291, as_i16(mleader.enable_dogleg)));
    push_pair(pairs, CodePair::new_real(41, mleader.dogleg_length));
    proof {
        assert(pairs_view(pairs@) =~= before + seg4);
        lemma_add_assoc(s0, acc3, seg4);
    }
    let ghost acc4 = acc3 + seg4;
    let ghost seg5 = opt_str_pair(342, m.arrowhead_id@);
    push_opt_str(pairs, 342, &mleader.arrowhead_id);
    proof {
        lemma_add_assoc(s0, acc4, seg5);
    }
    let ghost acc5 = acc4 + seg5;
    proof {
        assert(acc5 == common_head_pairs(m));
    }
}

/// Writes the rest of the common properties of a multileader.
fn add_mleader_common_tail(pairs: &mut Vec<CodePair>, mleader: &MLeader)
    ensures
        pairs_view(final(pairs)@) == pairs_view(old(pairs)@) + common_tail_pairs(*mleader),
{
    let ghost s0 = pairs_view(pairs@);
    let ghost m = *mleader;
    let ghost seg0 = seq![real_pair(42, m.arrowhead_size), short_pair(172, m.content_type)];
    let ghost before = pairs_view(pairs@);
    push_pair(pairs, CodePair::new_real(42, mleader.arrowhead_size));
    push_pair(pairs, CodePair::new_i16(172, mleader.content_type));
    proof {
        assert(pairs_view(pairs@) =~= before + seg0);
        assert(s0 + seg0 == pairs_view(pairs@));
    }
    let ghost acc0 = seg0;
    let ghost seg1 = opt_str_pair(343, m.text_style_id@);
    push_opt_str(pairs, 343, &mleader.text_style_id);
    proof {
        lemma_add_assoc(s0, acc0, seg1);
    }
    let ghost acc1 = acc0 + seg1;
    let ghost seg2 = seq![short_pair(173, m.text_left_attachment_type), short_pair(95, m.text_right_attachment_type), short_pair(174, m.text_angle_type), short_pair(175, m.text_alignment_type), int_pair(92, mleader_color_value(m.text_color@)), short_pair(292, bool_short(m.enable_frame_text)), short_pair(293, bool_short(m.enable_annotation_scale)), int_pair(94, m.arrowhead_index)];
    let ghost before = pairs_view(pairs@);
    push_pair(pairs, CodePair::new_i16(173, mleader.text_left_attachment_type));
    push_pair(pairs, CodePair::new_i16(95, mleader.text_right_attachment_type));
    push_pair(pairs, CodePair::new_i16(174, mleader.text_angle_type));
    push_pair(pairs, CodePair::new_i16(175, mleader.text_alignment_type));
    push_pair(pairs, CodePair::new_i32(92, mleader.text_color.to_mleader_raw_value()));
    push_pair(pairs, CodePair::new_i16(292, as_i16(mleader.enable_frame_text)));
    push_pair(pairs, CodePair::new_i16(293, as_i16(mleader.enable_annotation_scale)));
    push_pair(pairs, CodePair::new_i32(94, mleader.arrowhead_index));
    proof {
        assert(pairs_view(pairs@) =~= before + seg2);
        lemma_add_assoc(s0, acc1, seg2);
    }
    let ghost acc2 = acc1 + seg2;
    let ghost seg3 = opt_str_pair(345, m.arrowhead_id_ref@);
    push_opt_str(pairs, 345, &mleader.arrowhead_id_ref);
    proof {
        lemma_add_assoc(s0, acc2, seg3);
    }
    let ghost acc3 = acc2 + seg3;
    let ghost seg4 = seq![short_pair(294, bool_short(m.text_direction_negative)), short_pair(178, m.text_align_in_ipe), short_pair(179, m.text_attachment_point), short_pair(271, m.text_attachment_direction), short_pair(272, m.bottom_text_attachment_direction), short_pair(273, m.top_text_attachment_direction)];
    let ghost before = pairs_view(pairs@);
    push_pair(pairs, CodePair::new_i16(294, as_i16(mleader.text_direction_negative)));
    push_pair(pairs, CodePair::new_i16(178, mleader.text_align_in_ipe));
    push_pair(pairs, CodePair::new_i16(179, mleader.text_attachment_point));
    push_pair(pairs, CodePair::new_i16(271, mleader.text_attachment_direction));
    push_pair(pairs, CodePair::new_i16(272, mleader.bottom_text_attachment_direction));
    push_pair(pairs, CodePair::new_i16(273, mleader.top_text_attachment_direction));
    proof {
        assert(pairs_view(pairs@) =~= before + seg4);
        lemma_add_assoc(s0, acc3, seg4);
    }
    let ghost acc4 = acc3 + seg4;
    proof {
        assert(acc4 == common_tail_pairs(m));
    }
}

/// Writes the content properties of a multileader's context data.
fn add_mleader_content_properties(pairs: &mut Vec<CodePair>, mleader: &MLeader)
    ensures
        pairs_view(final(pairs)@) == pairs_view(old(pairs)@) + content_properties_pairs(*mleader),
{
    let ghost s0 = pairs_view(pairs@);
    let ghost m = *mleader;
    let ghost seg0 = seq![real_pair(40, m.content_scale), real_pair(10, m.content_base_point.x), real_pair(20, m.content_base_point.y), real_pair(30, m.content_base_point.z), real_pair(41, m.text_height), real_pair(140, m.arrow_head_size), real_pair(145, m.landing_gap), short_pair(290, bool_short(m.has_m_text)), str_pair(304, m.default_text_contents@), real_pair(11, m.text_normal_direction.x), real_pair(21, m.text_normal_direction.y), real_pair(31, m.text_normal_direction.z)];
    let ghost before = pairs_view(pairs@);
    push_pair(pairs, CodePair::new_real(40, mleader.content_scale));
    push_pair(pairs, CodePair::new_real(10, mleader.content_base_point.x));
    push_pair(pairs, CodePair::new_real(20, mleader.content_base_point.y));
    push_pair(pairs, CodePair::new_real(30, mleader.content_base_point.z));
    push_pair(pairs, CodePair::new_real(41, mleader.text_height));
    push_pair(pairs, CodePair::new_real(140, mleader.arrow_head_size));
    push_pair(pairs, CodePair::new_real(145, mleader.landing_gap));
    push_pair(pairs, CodePair::new_i16(290, as_i16(mleader.has_m_text)));
    push_pair(pairs, CodePair::new_string(304, &mleader.default_text_contents));
    push_pair(pairs, CodePair::new_real(11, mleader.text_normal_direction.x));
    push_pair(pairs, CodePair::new_real(21, mleader.text_normal_direction.y));
    push_pair(pairs, CodePair::new_real(31, mleader.text_normal_direction.z));
    proof {
        assert(pairs_view(pairs@) =~= before + seg0);
        assert(s0 + seg0 == pairs_view(pairs@));
    }
    let ghost acc0 = seg0;
    let ghost seg1 = opt_str_pair(340, m.text_style_id_context@);
    push_opt_str(pairs, 340, &mleader.text_style_id_context);
    proof {
        lemma_add_assoc(s0, acc0, seg1);
    }
    let ghost acc1 = acc0 + seg1;
    proof {
        assert(acc1 == content_properties_pairs(m));
    }
}

/// Writes the text properties of a multileader's context data.
fn add_mleader_text_properties(pairs: &mut Vec<CodePair>, mleader: &MLeader)
    ensures
        pairs_view(final(pairs)@) == pairs_view(old(pairs)@) + text_properties_pairs(*mleader),
{
    let ghost s0 = pairs_view(pairs@);
    let ghost m = *mleader;
    let ghost seg0 = seq![real_pair(12, m.text_location.x), real_pair(22, m.text_location.y), real_pair(32, m.text_location.z), real_pair(13, m.text_direction.x), real_pair(23, m.text_direction.y), real_pair(33, m.text_direction.z), real_pair(42, m.text_rotation), real_pair(43, m.text_width), real_pair(44, m.text_height_context), real_pair(45, m.text_line_spacing_factor), short_pair(170, m.text_line_spacing_style), int_pair(90, mleader_color_value(m.text_color_context@)), short_pair(171, m.text_attachment), short_pair(172, m.text_flow_direction), int_pair(91, mleader_color_value(m.text_background_color@)), real_pair(141, m.text_background_scale_factor), int_pair(92, m.text_background_transparency), short_pair(291, bool_short(m.is_text_background_color_on)), short_pair(292, bool_short(m.is_text_background_fill_on)), short_pair(173, m.text_column_type), short_pair(293, bool_short(m.use_text_auto_height)), real_pair(142, m.text_column_width), real_pair(143, m.text_column_gutter_width), short_pair(294, bool_short(m.text_column_flow_reversed)), real_pair(144, m.text_column_height), short_pair(295, bool_short(m.text_use_word_break)), short_pair(296, bool_short(m.has_block))];
    let ghost before = pairs_view(pairs@);
    push_pair(pairs, CodePair::new_real(12, mleader.text_location.x));
    push_pair(pairs, CodePair::new_real(22, mleader.text_location.y));
    push_pair(pairs, CodePair::new_real(32, mleader.text_location.z));
    push_pair(pairs, CodePair::new_real(13, mleader.text_direction.x));
    push_pair(pairs, CodePair::new_real(23, mleader.text_direction.y));
    push_pair(pairs, CodePair::new_real(33, mleader.text_direction.z));
    push_pair(pairs, CodePair::new_real(42, mleader.text_rotation));
    push_pair(pairs, CodePair::new_real(43, mleader.text_width));
    push_pair(pairs, CodePair::new_real(44, mleader.text_height_context));
    push_pair(pairs, CodePair::new_real(45, mleader.text_line_spacing_factor));
    push_pair(pairs, CodePair::new_i16(170, mleader.text_line_spacing_style));
    push_pair(pairs, CodePair::new_i32(90, mleader.text_color_context.to_mleader_raw_value()));
    push_pair(pairs, CodePair::new_i16(171, mleader.text_attachment));
    push_pair(pairs, CodePair::new_i16(172, mleader.text_flow_direction));
    push_pair(pairs, CodePair::new_i32(91, mleader.text_background_color.to_mleader_raw_value()));
    push_pair(pairs, CodePair::new_real(141, mleader.text_background_scale_factor));
    push_pair(pairs, CodePair::new_i32(92, mleader.text_background_transparency));
    push_pair(pairs, CodePair::new_i16(291, as_i16(mleader.is_text_background_color_on)));
    push_pair(pairs, CodePair::new_i16(292, as_i16(mleader.is_text_background_fill_on)));
    push_pair(pairs, CodePair::new_i16(173, mleader.text_column_type));
    push_pair(pairs, CodePair::new_i16(293, as_i16(mleader.use_text_auto_height)));
    push_pair(pairs, CodePair::new_real(142, mleader.text_column_width));
    push_pair(pairs, CodePair::new_real(143, mleader.text_column_gutter_width));
    push_pair(pairs, CodePair::new_i16(294, as_i16(mleader.text_column_flow_reversed)));
    push_pair(pairs, CodePair::new_real(144, mleader.text_column_height));
    push_pair(pairs, CodePair::new_i16(295, as_i16(mleader.text_use_word_break)));
    push_pair(pairs, CodePair::new_i16(296, as_i16(mleader.has_block)));
    proof {
        assert(pairs_view(pairs@) =~= before + seg0);
        assert(s0 + seg0 == pairs_view(pairs@));
    }
    let ghost acc0 = seg0;
    proof {
        assert(acc0 == text_properties_pairs(m));
    }
}

/// Writes the leader node of a multileader.
fn add_mleader_leader_node(pairs: &mut Vec<CodePair>, mleader: &MLeader)
    ensures
        pairs_view(final(pairs)@) == pairs_view(old(pairs)@) + leader_node_pairs(*mleader),
{
    let ghost s0 = pairs_view(pairs@);
    let ghost m = *mleader;
    let ghost seg0 = seq![short_pair(290, bool_short(m.has_set_last_leader_line_point)), short_pair(291, bool_short(m.has_set_dogleg_vector)), real_pair(10, m.last_leader_line_point.x), real_pair(20, m.last_leader_line_point.y), real_pair(30, m.last_leader_line_point.z), real_pair(11, m.dogleg_vector.x), real_pair(21, m.dogleg_vector.y), real_pair(31, m.dogleg_vector.z), int_pair(90, m.leader_branch_index), real_pair(40, m.dogleg_length_leader)];
    let ghost before = pairs_view(pairs@);
    push_pair(pairs, CodePair::new_i16(290, as_i16(mleader.has_set_last_leader_line_point)));
    push_pair(pairs, CodePair::new_i16(291, as_i16(mleader.has_set_dogleg_vector)));
    push_pair(pairs, CodePair::new_real(10, mleader.last_leader_line_point.x));
    push_pair(pairs, CodePair::new_real(20, mleader.last_leader_line_point.y));
    push_pair(pairs, CodePair::new_real(30, mleader.last_leader_line_point.z));
    push_pair(pairs, CodePair::new_real(11, mleader.dogleg_vector.x));
    push_pair(pairs, CodePair::new_real(21, mleader.dogleg_vector.y));
    push_pair(pairs, CodePair::new_real(31, mleader.dogleg_vector.z));
    push_pair(pairs, CodePair::new_i32(90, mleader.leader_branch_index));
    push_pair(pairs, CodePair::new_real(40, mleader.dogleg_length_leader));
    proof {
        assert(pairs_view(pairs@) =~= before + seg0);
        assert(s0 + seg0 == pairs_view(pairs@));
    }
    let ghost acc0 = seg0;
    proof {
        assert(acc0 == leader_node_pairs(m));
    }
}

/// Writes the common properties of a multileader.
fn add_mleader_common_properties(pairs: &mut Vec<CodePair>, mleader: &MLeader)
    ensures
        pairs_view(final(pairs)@) == pairs_view(old(pairs)@) + common_properties_pairs(*mleader),
{
    let ghost s0 = pairs_view(pairs@);
    add_mleader_common_head(pairs, mleader);
    add_mleader_common_tail(pairs, mleader);
    proof {
        lemma_add_assoc(s0, common_head_pairs(*mleader), common_tail_pairs(*mleader));
    }
}

/// Writes the context data of a multileader.
fn add_mleader_context_data(pairs: &mut Vec<CodePair>, mleader: &MLeader)
    ensures
        pairs_view(final(pairs)@) == pairs_view(old(pairs)@) + context_data_pairs(*mleader),
{
    let ghost s0 = pairs_view(pairs@);
    let ghost m = *mleader;
    push_pair(pairs, CodePair::new_str(300, "CONTEXT_DATA{"));
    let ghost p1 = seq![str_pair(300, context_data_open())];
    proof {
        reveal_strlit("CONTEXT_DATA{");
        assert("CONTEXT_DATA{"@ =~= context_data_open());
        assert(pairs_view(pairs@) =~= s0 + p1);
    }
    add_mleader_content_properties(pairs, mleader);
    proof {
        lemma_add_assoc(s0, p1, content_properties_pairs(m));
    }
    let ghost p2 = p1 + content_properties_pairs(m);
    add_mleader_text_properties(pairs, mleader);
    proof {
        lemma_add_assoc(s0, p2, text_properties_pairs(m));
    }
    let ghost p3 = p2 + text_properties_pairs(m);
    let ghost s3 = pairs_view(pairs@);
    push_pair(pairs, CodePair::new_i32(90, mleader.break_point_index));
    proof {
        assert(pairs_view(pairs@) =~= s3 + seq![int_pair(90, m.break_point_index)]);
        lemma_add_assoc(s0, p3, seq![int_pair(90, m.break_point_index)]);
    }
}

/// Writes the leader line of a multileader: its vertices and index.
fn add_mleader_leader_lines(pairs: &mut Vec<CodePair>, mleader: &MLeader)
    ensures
        pairs_view(final(pairs)@) == pairs_view(old(pairs)@) + leader_lines_pairs(*mleader),
{
    let ghost s0 = pairs_view(pairs@);
    push_pair(pairs, CodePair::new_str(304, "LEADER_LINE{"));
    let ghost s1 = pairs_view(pairs@);
    proof {
        reveal_strlit("LEADER_LINE{");
        assert("LEADER_LINE{"@ =~= leader_line_open());
        assert(s1 =~= s0 + seq![str_pair(304, leader_line_open())]);
    }
    let mut i: usize = 0;
    proof {
        assert(mleader.vertices@.take(0) =~= Seq::<Point>::empty());
        assert(s1 =~= s1 + vertices_pairs(mleader.vertices@.take(0)));
    }
    while i < mleader.vertices.len()
        invariant
            i <= mleader.vertices@.len(),
            pairs_view(pairs@) == s1 + vertices_pairs(mleader.vertices@.take(i as int)),
        decreases mleader.vertices.len() - i,
    {
        let vertex = mleader.vertices[i];
        let ghost before = pairs_view(pairs@);
        push_pair(pairs, CodePair::new_real(10, vertex.x));
        push_pair(pairs, CodePair::new_real(20, vertex.y));
        push_pair(pairs, CodePair::new_real(30, vertex.z));
        proof {
            assert(mleader.vertices@.take(i + 1).drop_last() =~= mleader.vertices@.take(i as int));
            assert(pairs_view(pairs@) =~= before + vertex_pairs(vertex));
            lemma_add_assoc(s1, vertices_pairs(mleader.vertices@.take(i as int)), vertex_pairs(vertex));
        }
        i = i + 1;
    }
    let ghost s2 = pairs_view(pairs@);
    push_pair(pairs, CodePair::new_i32(91, mleader.leader_line_index));
    proof {
        assert(mleader.vertices@.take(i as int) =~= mleader.vertices@);
        let vp = vertices_pairs(mleader.vertices@);
        let head = seq![str_pair(304, leader_line_open())];
        let tail = seq![int_pair(91, mleader.leader_line_index)];
        assert(pairs_view(pairs@) =~= s2 + tail);
        lemma_add_assoc(s0, head, vp);
        lemma_add_assoc(s0, head + vp, tail);
    }
}

/// Writes the leader data of a multileader, closing its sections.
fn add_mleader_leader_data(pairs: &mut Vec<CodePair>, mleader: &MLeader)
    ensures
        pairs_view(final(pairs)@) == pairs_view(old(pairs)@) + leader_data_pairs(*mleader),
{
    let ghost s0 = pairs_view(pairs@);
    let ghost m = *mleader;
    push_pair(pairs, CodePair::new_str(302, "LEADER{"));
    let ghost p1 = seq![str_pair(302, leader_open())];
    proof {
        reveal_strlit("LEADER{");
        assert("LEADER{"@ =~= leader_open());
        assert(pairs_view(pairs@) =~= s0 + p1);
    }
    add_mleader_leader_node(pairs, mleader);
    proof {
        lemma_add_assoc(s0, p1, leader_node_pairs(m));
    }
    let ghost p2 = p1 + leader_node_pairs(m);
    add_mleader_leader_lines(pairs, mleader);
    proof {
        lemma_add_assoc(s0, p2, leader_lines_pairs(m));
    }
    let ghost p3 = p2 + leader_lines_pairs(m);
    let ghost s3 = pairs_view(pairs@);
    // Close sections
    push_pair(pairs, CodePair::new_str(305, "}"));
    push_pair(pairs, CodePair::new_str(303, "}"));
    push_pair(pairs, CodePair::new_str(301, "}"));
    proof {
        reveal_strlit("}");
        assert("}"@ =~= section_close());
        let closers = seq![
            str_pair(305, section_close()),
            str_pair(303, section_close()),
            str_pair(301, section_close()),
        ];
        assert(pairs_view(pairs@) =~= s3 + closers);
        lemma_add_assoc(s0, p3, closers);
    }
}

/// Writes a multileader's own code pairs, as `mleader_pairs` describes, and
/// reports that it did.
pub fn add_custom_code_pairs_mleader(
    pairs: &mut Vec<CodePair>,
    mleader: &MLeader,
    version: AcadVersion,
) -> (r: bool)
    ensures
        r,
        pairs_view(final(pairs)@) == pairs_view(old(pairs)@) + mleader_pairs(*mleader, version),
{
    let ghost s0 = pairs_view(pairs@);
    if version.at_least(AcadVersion::R13) {
        push_pair(pairs, CodePair::new_str(100, "AcDbMLeader"));
    }
    let ghost s1 = pairs_view(pairs@);
    add_mleader_common_properties(pairs, mleader);
    let ghost s2 = pairs_view(pairs@);
    add_mleader_context_data(pairs, mleader);
    let ghost s3 = pairs_view(pairs@);
    add_mleader_leader_data(pairs, mleader);
    proof {
        reveal_strlit("AcDbMLeader");
        assert("AcDbMLeader"@ =~= mleader_marker());
        let m = *mleader;
        let head = if version_at_least(version, AcadVersion::R13) {
            seq![str_pair(100, mleader_marker())]
        } else {
            Seq::<PairView>::empty()
        };
        assert(s1 =~= s0 + head);
        lemma_add_assoc(s0, head, common_properties_pairs(m));
        lemma_add_assoc(s0, head + common_properties_pairs(m), context_data_pairs(m));
        lemma_add_assoc(s0, head + common_properties_pairs(m) + context_data_pairs(m), leader_data_pairs(m));
    }
    true
}

impl Default for MLeader {
    fn default() -> (m: MLeader)
        ensures
            m.leader_style_id@ == Seq::<char>::empty(),
            m.property_override_flag == 0,
            m.leader_line_type == 0,
            m.leader_line_color@ == COLOR_BY_BLOCK,
            m.leader_line_type_id@ == Seq::<char>::empty(),
            m.leader_line_weight == 0,
            m.enable_landing == false,
            m.enable_dogleg == false,
            m.dogleg_length == real_zero(),
            m.arrowhead_id@ == Seq::<char>::empty(),
            m.arrowhead_size == real_zero(),
            m.content_type == 0,
            m.text_style_id@ == Seq::<char>::empty(),
            m.text_left_attachment_type == 0,
            m.text_right_attachment_type == 0,
            m.text_angle_type == 0,
            m.text_alignment_type == 0,
            m.text_color@ == COLOR_BY_BLOCK,
            m.enable_frame_text == false,
            m.enable_annotation_scale == false,
            m.arrowhead_index == 0,
            m.arrowhead_id_ref@ == Seq::<char>::empty(),
            m.text_direction_negative == false,
            m.text_align_in_ipe == 0,
            m.text_attachment_point == 0,
            m.text_attachment_direction == 0,
            m.bottom_text_attachment_direction == 0,
            m.top_text_attachment_direction == 0,
            m.break_point_index == 0,
            m.content_scale == real_zero(),
            m.content_base_point == (Point { x: real_zero(), y: real_zero(), z: real_zero() }),
            m.text_height == real_zero(),
            m.arrow_head_size == real_zero(),
            m.landing_gap == real_zero(),
            m.has_m_text == false,
            m.default_text_contents@ == Seq::<char>::empty(),
            m.text_normal_direction == (Vector { x: real_zero(), y: real_zero(), z: real_zero() }),
            m.text_style_id_context@ == Seq::<char>::empty(),
            m.text_location == (Point { x: real_zero(), y: real_zero(), z: real_zero() }),
            m.text_direction == (Vector { x: real_zero(), y: real_zero(), z: real_zero() }),
            m.text_rotation == real_zero(),
            m.text_width == real_zero(),
            m.text_height_context == real_zero(),
            m.text_line_spacing_factor == real_zero(),
            m.text_line_spacing_style == 0,
            m.text_color_context@ == COLOR_BY_BLOCK,
            m.text_attachment == 0,
            m.text_flow_direction == 0,
            m.text_background_color@ == COLOR_BY_BLOCK,
            m.text_background_scale_factor == real_zero(),
            m.text_background_transparency == 0,
            m.is_text_background_color_on == false,
            m.is_text_background_fill_on == false,
            m.text_column_type == 0,
            m.use_text_auto_height == false,
            m.text_column_width == real_zero(),
            m.text_column_gutter_width == real_zero(),
            m.text_column_flow_reversed == false,
            m.text_column_height == real_zero(),
            m.text_use_word_break == false,
            m.has_block == false,
            m.has_set_last_leader_line_point == false,
            m.has_set_dogleg_vector == false,
            m.last_leader_line_point == (Point { x: real_zero(), y: real_zero(), z: real_zero() }),
            m.dogleg_vector == (Vector { x: real_zero(), y: real_zero(), z: real_zero() }),
            m.leader_branch_index == 0,
            m.dogleg_length_leader == real_zero(),
            m.vertices@.len() == 0,
            m.leader_line_index == 0,
    {
        MLeader {
            leader_style_id: String::new(),
            property_override_flag: 0,
            leader_line_type: 0,
            leader_line_color: Color::by_block(),
            leader_line_type_id: String::new(),
            leader_line_weight: 0,
            enable_landing: false,
            enable_dogleg: false,
            dogleg_length: Real::zero(),
            arrowhead_id: String::new(),
            arrowhead_size: Real::zero(),
            content_type: 0,
            text_style_id: String::new(),
            text_left_attachment_type: 0,
            text_right_attachment_type: 0,
            text_angle_type: 0,
            text_alignment_type: 0,
            text_color: Color::by_block(),
            enable_frame_text: false,
            enable_annotation_scale: false,
            arrowhead_index: 0,
            arrowhead_id_ref: String::new(),
            text_direction_negative: false,
            text_align_in_ipe: 0,
            text_attachment_point: 0,
            text_attachment_direction: 0,
            bottom_text_attachment_direction: 0,
            top_text_attachment_direction: 0,
            break_point_index: 0,
            content_scale: Real::zero(),
            content_base_point: Point::origin(),
            text_height: Real::zero(),
            arrow_head_size: Real::zero(),
            landing_gap: Real::zero(),
            has_m_text: false,
            default_text_contents: String::new(),
            text_normal_direction: Vector::zero(),
            text_style_id_context: String::new(),
            text_location: Point::origin(),
            text_direction: Vector::zero(),
            text_rotation: Real::zero(),
            text_width: Real::zero(),
            text_height_context: Real::zero(),
            text_line_spacing_factor: Real::zero(),
            text_line_spacing_style: 0,
            text_color_context: Color::by_block(),
            text_attachment: 0,
            text_flow_direction: 0,
            text_background_color: Color::by_block(),
            text_background_scale_factor: Real::zero(),
            text_background_transparency: 0,
            is_text_background_color_on: false,
            is_text_background_fill_on: false,
            text_column_type: 0,
            use_text_auto_height: false,
            text_column_width: Real::zero(),
            text_column_gutter_width: Real::zero(),
            text_column_flow_reversed: false,
            text_column_height: Real::zero(),
            text_use_word_break: false,
            has_block: false,
            has_set_last_leader_line_point: false,
            has_set_dogleg_vector: false,
            last_leader_line_point: Point::origin(),
            dogleg_vector: Vector::zero(),
            leader_branch_index: 0,
            dogleg_length_leader: Real::zero(),
            vertices: Vec::new(),
            leader_line_index: 0,
        }
    }
}

/// The pairs of a list of vertices are three per vertex, in the vertices'
/// order: `(10, x)`, `(20, y)` and `(30, z)`.
proof fn lemma_vertices_pairs_at(vs: Seq<Point>)
    ensures
        vertices_pairs(vs).len() == 3 * vs.len(),
        forall|i: int|
            0 <= i < vs.len() ==> {
                &&& vertices_pairs(vs)[3 * i] == PairView { code: 10, value: ValueView::Double(#[trigger] vs[i].x) }
                &&& vertices_pairs(vs)[3 * i + 1] == PairView { code: 20, value: ValueView::Double(vs[i].y) }
                &&& vertices_pairs(vs)[3 * i + 2] == PairView { code: 30, value: ValueView::Double(vs[i].z) }
            },
    decreases vs.len(),
{
    if vs.len() > 0 {
        let init = vs.drop_last();
        lemma_vertices_pairs_at(init);
        let a = vertices_pairs(init);
        let b = vertex_pairs(vs.last());
        assert(vertices_pairs(vs) == a + b);
        assert forall|i: int| 0 <= i < vs.len() implies {
            &&& vertices_pairs(vs)[3 * i] == PairView { code: 10, value: ValueView::Double(#[trigger] vs[i].x) }
            &&& vertices_pairs(vs)[3 * i + 1] == PairView { code: 20, value: ValueView::Double(vs[i].y) }
            &&& vertices_pairs(vs)[3 * i + 2] == PairView { code: 30, value: ValueView::Double(vs[i].z) }
        } by {
            if i < init.len() {
                assert(init[i] == vs[i]);
                assert(vertices_pairs(init)[3 * i] == PairView { code: 10, value: ValueView::Double(init[i].x) });
            } else {
                assert(i == init.len());
                assert(vs[i] == vs.last());
            }
        }
    }
}

/// The leader line that a multileader's own pairs end with writes every
/// vertex, in order, as the three pairs `(10, x)`, `(20, y)` and `(30, z)`:
/// they follow the leader line opener `(304, "LEADER_LINE{")` and are followed
/// by the leader line index `(91, ..)` and the three closers.
pub proof fn leader_line_vertices_law(m: MLeader, version: AcadVersion)
    ensures
        ({
            let s = mleader_pairs(m, version);
            let n = m.vertices@.len();
            let o = s.len() - 3 * n - 4;
            &&& o >= 1
            &&& s[o - 1] == PairView { code: 304, value: ValueView::Str(leader_line_open()) }
            &&& forall|i: int|
                0 <= i < n ==> {
                    &&& s[o + 3 * i] == PairView { code: 10, value: ValueView::Double(#[trigger] m.vertices@[i].x) }
                    &&& s[o + 3 * i + 1] == PairView { code: 20, value: ValueView::Double(m.vertices@[i].y) }
                    &&& s[o + 3 * i + 2] == PairView { code: 30, value: ValueView::Double(m.vertices@[i].z) }
                }
            &&& s[o + 3 * n] == PairView { code: 91, value: ValueView::Integer(m.leader_line_index) }
        }),
{
    let vs = m.vertices@;
    lemma_vertices_pairs_at(vs);
    let v = vertices_pairs(vs);
    let head = (if version_at_least(version, AcadVersion::R13) {
        seq![str_pair(100, mleader_marker())]
    } else {
        Seq::empty()
    }) + common_properties_pairs(m) + context_data_pairs(m) + seq![str_pair(302, leader_open())]
        + leader_node_pairs(m);
    let closers = seq![
        str_pair(305, section_close()),
        str_pair(303, section_close()),
        str_pair(301, section_close()),
    ];
    let s = mleader_pairs(m, version);
    let tail = seq![str_pair(304, leader_line_open())] + v + seq![int_pair(91, m.leader_line_index)];
    assert(s =~= head + tail + closers);
    let o: int = head.len() as int + 1;
    assert(s.len() - 3 * vs.len() - 4 == o);
    assert forall|i: int| 0 <= i < vs.len() implies {
        &&& s[o + 3 * i] == PairView { code: 10, value: ValueView::Double(#[trigger] vs[i].x) }
        &&& s[o + 3 * i + 1] == PairView { code: 20, value: ValueView::Double(vs[i].y) }
        &&& s[o + 3 * i + 2] == PairView { code: 30, value: ValueView::Double(vs[i].z) }
    } by {
        assert(s[o + 3 * i] == v[3 * i]);
        assert(s[o + 3 * i + 1] == v[3 * i + 1]);
        assert(s[o + 3 * i + 2] == v[3 * i + 2]);
    }
    assert(s[o - 1] == tail[0]);
    assert(s[(o + 3 * vs.len()) as int] == tail[(v.len() + 1) as int]);
}

/// What each part of a multileader's own pairs holds, pair by pair, in the
/// order written: every flag as 1 or 0, every id only where it is not empty,
/// and every coordinate of a point or vector as its `x`, `y` and `z` under the
/// codes of that point or vector.
pub proof fn mleader_parts_law(m: MLeader)
    ensures
        common_head_pairs(m) == seq![
                (PairView { code: 270, value: ValueView::Short(2) }),
            ]
                + (if m.leader_style_id@.len() > 0 { seq![(PairView { code: 340, value: ValueView::Str(m.leader_style_id@) })] } else { Seq::<PairView>::empty() })
                + seq![
                (PairView { code: 90, value: ValueView::Integer(m.property_override_flag) }),
                (PairView { code: 170, value: ValueView::Short(m.leader_line_type) }),
                (PairView { code: 91, value: ValueView::Integer(mleader_color_value(m.leader_line_color@)) }),
            ]
                + (if m.leader_line_type_id@.len() > 0 { seq![(PairView { code: 341, value: ValueView::Str(m.leader_line_type_id@) })] } else { Seq::<PairView>::empty() })
                + seq![
                (PairView { code: 171, value: ValueView::Short(m.leader_line_weight) }),
                (PairView { code: 290, value: ValueView::Short((if m.enable_landing { 1i16 } else { 0i16 })) }),
                (PairView { code: 291, value: ValueView::Short((if m.enable_dogleg { 1i16 } else { 0i16 })) }),
                (PairView { code: 41, value: ValueView::Double(m.dogleg_length) }),
            ]
                + (if m.arrowhead_id@.len() > 0 { seq![(PairView { code: 342, value: ValueView::Str(m.arrowhead_id@) })] } else { Seq::<PairView>::empty() }),
        common_tail_pairs(m) == seq![
                (PairView { code: 42, value: ValueView::Double(m.arrowhead_size) }),
                (PairView { code: 172, value: ValueView::Short(m.content_type) }),
            ]
                + (if m.text_style_id@.len() > 0 { seq![(PairView { code: 343, value: ValueView::Str(m.text_style_id@) })] } else { Seq::<PairView>::empty() })
                + seq![
                (PairView { code: 173, value: ValueView::Short(m.text_left_attachment_type) }),
                (PairView { code: 95, value: ValueView::Short(m.text_right_attachment_type) }),
                (PairView { code: 174, value: ValueView::Short(m.text_angle_type) }),
                (PairView { code: 175, value: ValueView::Short(m.text_alignment_type) }),
                (PairView { code: 92, value: ValueView::Integer(mleader_color_value(m.text_color@)) }),
                (PairView { code: 292, value: ValueView::Short((if m.enable_frame_text { 1i16 } else { 0i16 })) }),
                (PairView { code: 293, value: ValueView::Short((if m.enable_annotation_scale { 1i16 } else { 0i16 })) }),
                (PairView { code: 94, value: ValueView::Integer(m.arrowhead_index) }),
            ]
                + (if m.arrowhead_id_ref@.len() > 0 { seq![(PairView { code: 345, value: ValueView::Str(m.arrowhead_id_ref@) })] } else { Seq::<PairView>::empty() })
                + seq![
                (PairView { code: 294, value: ValueView::Short((if m.text_direction_negative { 1i16 } else { 0i16 })) }),
                (PairView { code: 178, value: ValueView::Short(m.text_align_in_ipe) }),
                (PairView { code: 179, value: ValueView::Short(m.text_attachment_point) }),
                (PairView { code: 271, value: ValueView::Short(m.text_attachment_direction) }),
                (PairView { code: 272, value: ValueView::Short(m.bottom_text_attachment_direction) }),
                (PairView { code: 273, value: ValueView::Short(m.top_text_attachment_direction) }),
            ],
        content_properties_pairs(m) == seq![
                (PairView { code: 40, value: ValueView::Double(m.content_scale) }),
                (PairView { code: 10, value: ValueView::Double(m.content_base_point.x) }),
                (PairView { code: 20, value: ValueView::Double(m.content_base_point.y) }),
                (PairView { code: 30, value: ValueView::Double(m.content_base_point.z) }),
                (PairView { code: 41, value: ValueView::Double(m.text_height) }),
                (PairView { code: 140, value: ValueView::Double(m.arrow_head_size) }),
                (PairView { code: 145, value: ValueView::Double(m.landing_gap) }),
                (PairView { code: 290, value: ValueView::Short((if m.has_m_text { 1i16 } else { 0i16 })) }),
                (PairView { code: 304, value: ValueView::Str(m.default_text_contents@) }),
                (PairView { code: 11, value: ValueView::Double(m.text_normal_direction.x) }),
                (PairView { code: 21, value: ValueView::Double(m.text_normal_direction.y) }),
                (PairView { code: 31, value: ValueView::Double(m.text_normal_direction.z) }),
            ]
                + (if m.text_style_id_context@.len() > 0 { seq![(PairView { code: 340, value: ValueView::Str(m.text_style_id_context@) })] } else { Seq::<PairView>::empty() }),
        text_properties_pairs(m) == seq![
                (PairView { code: 12, value: ValueView::Double(m.text_location.x) }),
                (PairView { code: 22, value: ValueView::Double(m.text_location.y) }),
                (PairView { code: 32, value: ValueView::Double(m.text_location.z) }),
                (PairView { code: 13, value: ValueView::Double(m.text_direction.x) }),
                (PairView { code: 23, value: ValueView::Double(m.text_direction.y) }),
                (PairView { code: 33, value: ValueView::Double(m.text_direction.z) }),
                (PairView { code: 42, value: ValueView::Double(m.text_rotation) }),
                (PairView { code: 43, value: ValueView::Double(m.text_width) }),
                (PairView { code: 44, value: ValueView::Double(m.text_height_context) }),
                (PairView { code: 45, value: ValueView::Double(m.text_line_spacing_factor) }),
                (PairView { code: 170, value: ValueView::Short(m.text_line_spacing_style) }),
                (PairView { code: 90, value: ValueView::Integer(mleader_color_value(m.text_color_context@)) }),
                (PairView { code: 171, value: ValueView::Short(m.text_attachment) }),
                (PairView { code: 172, value: ValueView::Short(m.text_flow_direction) }),
                (PairView { code: 91, value: ValueView::Integer(mleader_color_value(m.text_background_color@)) }),
                (PairView { code: 141, value: ValueView::Double(m.text_background_scale_factor) }),
                (PairView { code: 92, value: ValueView::Integer(m.text_background_transparency) }),
                (PairView { code: 291, value: ValueView::Short((if m.is_text_background_color_on { 1i16 } else { 0i16 })) }),
                (PairView { code: 292, value: ValueView::Short((if m.is_text_background_fill_on { 1i16 } else { 0i16 })) }),
                (PairView { code: 173, value: ValueView::Short(m.text_column_type) }),
                (PairView { code: 293, value: ValueView::Short((if m.use_text_auto_height { 1i16 } else { 0i16 })) }),
                (PairView { code: 142, value: ValueView::Double(m.text_column_width) }),
                (PairView { code: 143, value: ValueView::Double(m.text_column_gutter_width) }),
                (PairView { code: 294, value: ValueView::Short((if m.text_column_flow_reversed { 1i16 } else { 0i16 })) }),
                (PairView { code: 144, value: ValueView::Double(m.text_column_height) }),
                (PairView { code: 295, value: ValueView::Short((if m.text_use_word_break { 1i16 } else { 0i16 })) }),
                (PairView { code: 296, value: ValueView::Short((if m.has_block { 1i16 } else { 0i16 })) }),
            ],
        leader_node_pairs(m) == seq![
                (PairView { code: 290, value: ValueView::Short((if m.has_set_last_leader_line_point { 1i16 } else { 0i16 })) }),
                (PairView { code: 291, value: ValueView::Short((if m.has_set_dogleg_vector { 1i16 } else { 0i16 })) }),
                (PairView { code: 10, value: ValueView::Double(m.last_leader_line_point.x) }),
                (PairView { code: 20, value: ValueView::Double(m.last_leader_line_point.y) }),
                (PairView { code: 30, value: ValueView::Double(m.last_leader_line_point.z) }),
                (PairView { code: 11, value: ValueView::Double(m.dogleg_vector.x) }),
                (PairView { code: 21, value: ValueView::Double(m.dogleg_vector.y) }),
                (PairView { code: 31, value: ValueView::Double(m.dogleg_vector.z) }),
                (PairView { code: 90, value: ValueView::Integer(m.leader_branch_index) }),
                (PairView { code: 40, value: ValueView::Double(m.dogleg_length_leader) }),
            ],
{
}

/// A multileader's own pairs, in order: from R13 on the subclass marker
/// `(100, "AcDbMLeader")`; the common properties; the context data, opened by
/// `(300, "CONTEXT_DATA{")`, with content and text properties and the break
/// point index `(90, ..)`; the leader, opened by `(302, "LEADER{")`, with its
/// node; the leader line, opened by `(304, "LEADER_LINE{")`, with its vertices
/// and index `(91, ..)`; and the closers `(305, "}")`, `(303, "}")` and
/// `(301, "}")`.
pub proof fn mleader_layout_law(m: MLeader, version: AcadVersion)
    ensures
        mleader_pairs(m, version) == (if version_at_least(version, AcadVersion::R13) {
            seq![(PairView { code: 100, value: ValueView::Str(seq!['A', 'c', 'D', 'b', 'M', 'L', 'e', 'a', 'd', 'e', 'r']) })]
        } else {
            Seq::<PairView>::empty()
        }) + common_head_pairs(m) + common_tail_pairs(m)
            + seq![(PairView { code: 300, value: ValueView::Str(seq!['C', 'O', 'N', 'T', 'E', 'X', 'T', '_', 'D', 'A', 'T', 'A', '{']) })]
            + content_properties_pairs(m) + text_properties_pairs(m)
            + seq![(PairView { code: 90, value: ValueView::Integer(m.break_point_index) })]
            + seq![(PairView { code: 302, value: ValueView::Str(seq!['L', 'E', 'A', 'D', 'E', 'R', '{']) })]
            + leader_node_pairs(m)
            + seq![(PairView { code: 304, value: ValueView::Str(seq!['L', 'E', 'A', 'D', 'E', 'R', '_', 'L', 'I', 'N', 'E', '{']) })]
            + vertices_pairs(m.vertices@)
            + seq![
                (PairView { code: 91, value: ValueView::Integer(m.leader_line_index) }),
                (PairView { code: 305, value: ValueView::Str(seq!['}']) }),
                (PairView { code: 303, value: ValueView::Str(seq!['}']) }),
                (PairView { code: 301, value: ValueView::Str(seq!['}']) }),
            ],
{
}

} // verus!
