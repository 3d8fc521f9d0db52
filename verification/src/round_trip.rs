//! Reading back what is written: the pairs that the writer writes for a table
//! item, and for a whole drawing, read by the reader, give them back.

use vstd::prelude::*;

use crate::code_pair::{int_pair, real_pair, short_pair, str_pair, PairView};
use crate::decimal::Real;
use crate::drawing::{empty_drawing, DrawingModel};
use crate::enums::{default_version, version_at_least, AcadVersion};
use crate::error::DxfError;
use crate::handle::{handle_string_round_trip, hex_upper, Handle};
use crate::items::{
    app_id_continue, app_id_of, app_id_step, block_record_continue, block_record_of,
    block_record_step, handle_value, is_group_close, layer_continue, layer_of, layer_step,
    lemma_app_id_continue_append, lemma_block_record_continue_append, lemma_layer_continue_append,
    lemma_line_type_continue_append, lemma_style_continue_append, lemma_ucs_continue_append,
    lemma_view_continue_append, lemma_view_port_continue_append, line_type_continue, line_type_of,
    line_type_step, style_continue, style_of, style_step, ucs_continue, ucs_of, ucs_step,
    view_continue, view_of, view_port_continue, view_port_of, view_port_step, view_step,
};
use crate::linetype::{
    default_element, default_line_type, element_extra_pairs, element_pairs, elements_pairs,
    opt_real_pair, shape_pairs, style_handle_pairs, text_pairs, ElementModel, LineTypeModel,
};
use crate::reader::{
    finish_item, item_word, read_pairs, read_run, read_step, table_kind, Phase, ReadState, TableKind,
};
use crate::tables::{
    default_layer, default_style, default_view, default_view_port, named_default, GroupModel,
    LayerModel, NamedModel, StyleModel, ViewModel, ViewPortModel,
};
use crate::writer::{
    app_id_item_pairs, app_id_items_pairs, app_id_subclass, app_id_type_word,
    block_record_item_pairs, block_record_items_pairs, block_record_subclass,
    block_record_type_word, drawing_pairs, endsec_word, endtab_word, eof_word, group_pairs,
    groups_pairs, item_header, layer_color_value, layer_item_pairs, layer_items_pairs,
    layer_subclass, layer_type_word, line_type_item_pairs, line_type_items_pairs,
    line_type_subclass, line_type_type_word, section_word, style_item_pairs, style_items_pairs,
    style_subclass, style_type_word, symbol_table, symbol_table_record, table_pairs, table_word,
    tables_word, ucs_item_pairs, ucs_items_pairs, ucs_subclass, ucs_type_word, view_item_pairs,
    view_items_pairs, view_port_item_pairs, view_port_items_pairs, view_port_subclass,
    view_port_type_word, view_subclass, view_type_word,
};

verus! {

/// The extension data groups written for an item: from R14 on, all of them.
pub open spec fn written_groups(groups: Seq<GroupModel>, v: AcadVersion) -> Seq<GroupModel> {
    if version_at_least(v, AcadVersion::R14) {
        groups
    } else {
        Seq::empty()
    }
}

/// The pairs of an item header after its type pair: the handle, from R14 on
/// the extension data groups, from R13 on the subclass markers, the name and
/// the flags.
pub open spec fn header_tail(
    h: u64,
    groups: Seq<GroupModel>,
    name: Seq<char>,
    subclass: Seq<char>,
    v: AcadVersion,
) -> Seq<PairView> {
    seq![str_pair(5, hex_upper(h as nat))] + (if version_at_least(v, AcadVersion::R14) {
        groups_pairs(groups)
    } else {
        Seq::empty()
    }) + (if version_at_least(v, AcadVersion::R13) {
        seq![str_pair(100, symbol_table_record()), str_pair(100, subclass)]
    } else {
        Seq::empty()
    }) + seq![str_pair(2, name), short_pair(70, 0)]
}

/// Whether no item of an extension data group is itself a closing pair.
pub open spec fn group_items_plain(g: GroupModel) -> bool {
    forall|j: int| 0 <= j < g.items.len() ==> !is_group_close(#[trigger] g.items[j])
}

/// Whether no item of any of the groups is a closing pair.
pub open spec fn groups_plain(gs: Seq<GroupModel>) -> bool {
    forall|i: int| 0 <= i < gs.len() ==> group_items_plain(#[trigger] gs[i])
}

/// Whether no item of any of the groups is a closing pair or has code 0 (which
/// would end the item it belongs to).
pub open spec fn groups_clean(gs: Seq<GroupModel>) -> bool {
    &&& groups_plain(gs)
    &&& forall|i: int| 0 <= i < gs.len() ==> no_zero_code(#[trigger] gs[i].items)
}

/// Whether no pair of `s` has code 0.
pub open spec fn no_zero_code(s: Seq<PairView>) -> bool {
    forall|m: int| 0 <= m < s.len() ==> (#[trigger] s[m]).code != 0
}

/// Whether the pairs written for a view port read back as the view port: the
/// depth of its snap and grid spacing, which is not written, is the default
/// one.
pub open spec fn view_port_round_trips(x: ViewPortModel, v: AcadVersion) -> bool {
    &&& x.snap_spacing.z == default_view_port().snap_spacing.z
    &&& x.grid_spacing.z == default_view_port().grid_spacing.z
    &&& version_at_least(v, AcadVersion::R14) ==> groups_clean(x.groups)
}

/// Whether the pairs written for a line type read back as the line type: its
/// alignment code and element count fit in the 16 bits they are written in,
/// and every element is `element_plain`.
pub open spec fn line_type_round_trips(x: LineTypeModel, v: AcadVersion) -> bool {
    &&& i16::MIN <= x.alignment_code <= i16::MAX
    &&& i16::MIN <= x.element_count <= i16::MAX
    &&& forall|i: int| 0 <= i < x.line_elements.len() ==> element_plain(#[trigger] x.line_elements[i], v)
    &&& version_at_least(v, AcadVersion::R14) ==> groups_clean(x.groups)
}

/// Whether the pairs written for a layer read back as the layer: the written
/// color tells whether the layer is on (it is positive, or zero on a layer
/// that is on).
pub open spec fn layer_round_trips(x: LayerModel, v: AcadVersion) -> bool {
    &&& x.color > 0 || (x.color == 0 && x.is_layer_on)
    &&& version_at_least(v, AcadVersion::R14) ==> groups_clean(x.groups)
}

/// An item header is its type pair followed by `header_tail`.
proof fn lemma_item_header(
    kind_word: Seq<char>,
    subclass: Seq<char>,
    h: u64,
    groups: Seq<GroupModel>,
    name: Seq<char>,
    v: AcadVersion,
)
    ensures
        item_header(kind_word, subclass, h, groups, name, v) == seq![str_pair(0, kind_word)] + header_tail(h, groups, name, subclass, v),
{
    assert(item_header(kind_word, subclass, h, groups, name, v) =~= seq![str_pair(0, kind_word)] + header_tail(h, groups, name, subclass, v));
}

/// The numeral written for a handle is read back as the handle.
proof fn lemma_handle_text(h: u64)
    ensures
        handle_value(hex_upper(h as nat)) == Some(h),
{
    handle_string_round_trip(Handle(h), Handle(h));
    assert(hex_upper(h as nat).len() > 0);
}

/// Reading one more pair is one more step.
proof fn lemma_view_port_push(r: Result<(ViewPortModel, Option<GroupModel>), DxfError>, s: Seq<PairView>, p: PairView)
    ensures
        view_port_continue(r, s.push(p)) == view_port_step(view_port_continue(r, s), p),
{
    assert(s.push(p).drop_last() =~= s);
}

/// The items inside an open group are collected into it.
proof fn lemma_view_port_group_items(x: ViewPortModel, g: GroupModel, items: Seq<PairView>)
    requires
        forall|j: int| 0 <= j < items.len() ==> !is_group_close(#[trigger] items[j]),
    ensures
        view_port_continue(Ok((x, Some(g))), items) == Ok::<(ViewPortModel, Option<GroupModel>), DxfError>(
            (x, Some(GroupModel { items: g.items + items, ..g })),
        ),
    decreases items.len(),
{
    if items.len() == 0 {
        assert(g.items + items =~= g.items);
    } else {
        lemma_view_port_group_items(x, g, items.drop_last());
        assert(!is_group_close(items[items.len() - 1]));
        assert((g.items + items.drop_last()).push(items.last()) =~= g.items + items);
    }
}

/// The pairs of one group are read into the item as that group.
proof fn lemma_view_port_group(x: ViewPortModel, g: GroupModel)
    requires
        group_items_plain(g),
    ensures
        view_port_continue(Ok((x, None)), group_pairs(g)) == Ok::<(ViewPortModel, Option<GroupModel>), DxfError>(
            (ViewPortModel { groups: x.groups.push(g), ..x }, None),
        ),
{
    let open = str_pair(102, seq!['{'] + g.application_name);
    let close = str_pair(102, seq!['}']);
    let r = Ok::<(ViewPortModel, Option<GroupModel>), DxfError>((x, None));
    let e = Seq::<PairView>::empty();
    assert(group_pairs(g) =~= e.push(open) + g.items + e.push(close));
    assert((seq!['{'] + g.application_name).drop_first() =~= g.application_name);
    lemma_view_port_push(r, e, open);
    let g0 = GroupModel { application_name: g.application_name, items: Seq::empty() };
    assert(view_port_continue(r, e.push(open)) == Ok::<(ViewPortModel, Option<GroupModel>), DxfError>((x, Some(g0))));
    lemma_view_port_group_items(x, g0, g.items);
    assert(g0.items + g.items =~= g.items);
    lemma_view_port_continue_append(r, e.push(open), g.items);
    lemma_view_port_continue_append(r, e.push(open) + g.items, e.push(close));
    lemma_view_port_push(view_port_continue(r, e.push(open) + g.items), e, close);
    assert(is_group_close(close));
}

/// The pairs of some groups are read into the item as those groups.
proof fn lemma_view_port_groups(x: ViewPortModel, gs: Seq<GroupModel>)
    requires
        groups_plain(gs),
    ensures
        view_port_continue(Ok((x, None)), groups_pairs(gs)) == Ok::<(ViewPortModel, Option<GroupModel>), DxfError>(
            (ViewPortModel { groups: x.groups + gs, ..x }, None),
        ),
    decreases gs.len(),
{
    let r = Ok::<(ViewPortModel, Option<GroupModel>), DxfError>((x, None));
    if gs.len() == 0 {
        assert(x.groups + gs =~= x.groups);
        assert(ViewPortModel { groups: x.groups + gs, ..x } == x);
    } else {
        assert(groups_plain(gs.drop_last())) by {
            assert forall|i: int| 0 <= i < gs.drop_last().len() implies group_items_plain(#[trigger] gs.drop_last()[i]) by {
                assert(gs.drop_last()[i] == gs[i]);
            }
        }
        lemma_view_port_groups(x, gs.drop_last());
        let y = ViewPortModel { groups: x.groups + gs.drop_last(), ..x };
        assert(group_items_plain(gs[gs.len() - 1]));
        lemma_view_port_group(y, gs.last());
        lemma_view_port_continue_append(r, groups_pairs(gs.drop_last()), group_pairs(gs.last()));
        assert((x.groups + gs.drop_last()).push(gs.last()) =~= x.groups + gs);
    }
}

/// The view port that reading back its written pairs gives: the
/// item, with its extension data only from R14 on.
pub open spec fn view_port_read_back(x: ViewPortModel, v: AcadVersion) -> ViewPortModel {
    ViewPortModel { groups: written_groups(x.groups, v), ..x }
}

/// Reading the pairs of an item header after its type pair sets the handle,
/// the extension data (from R14 on) and the name.
proof fn lemma_view_port_header(x: ViewPortModel, h: u64, groups: Seq<GroupModel>, name: Seq<char>, v: AcadVersion)
    requires
        version_at_least(v, AcadVersion::R14) ==> groups_plain(groups),
    ensures
        view_port_continue(Ok((x, None)), header_tail(h, groups, name, view_port_subclass(), v)) == Ok::<(ViewPortModel, Option<GroupModel>), DxfError>(
            (ViewPortModel { handle: h, name: name, groups: x.groups + written_groups(groups, v), ..x }, None),
        ),
{
    lemma_handle_text(h);
    let p5 = str_pair(5, hex_upper(h as nat));
    let q1 = str_pair(100, symbol_table_record());
    let q2 = str_pair(100, view_port_subclass());
    let p2 = str_pair(2, name);
    let p70 = short_pair(70, 0);
    let r = Ok::<(ViewPortModel, Option<GroupModel>), DxfError>((x, None));
    let e = Seq::<PairView>::empty();
    let gp = if version_at_least(v, AcadVersion::R14) {
        groups_pairs(groups)
    } else {
        Seq::<PairView>::empty()
    };
    let rest = if version_at_least(v, AcadVersion::R13) {
        e.push(q1).push(q2).push(p2).push(p70)
    } else {
        e.push(p2).push(p70)
    };
    assert(header_tail(h, groups, name, view_port_subclass(), v) =~= e.push(p5) + gp + rest);
    lemma_view_port_push(r, e, p5);
    let x1 = ViewPortModel { handle: h, ..x };
    assert(view_port_continue(r, e.push(p5)) == Ok::<(ViewPortModel, Option<GroupModel>), DxfError>((x1, None)));
    lemma_view_port_continue_append(r, e.push(p5), gp);
    let x2 = ViewPortModel { groups: x1.groups + written_groups(groups, v), ..x1 };
    if version_at_least(v, AcadVersion::R14) {
        lemma_view_port_groups(x1, groups);
    } else {
        assert(x1.groups + written_groups(groups, v) =~= x1.groups);
        assert(x2 == x1);
    }
    assert(view_port_continue(r, e.push(p5) + gp) == Ok::<(ViewPortModel, Option<GroupModel>), DxfError>((x2, None)));
    lemma_view_port_continue_append(r, e.push(p5) + gp, rest);
    let r2 = Ok::<(ViewPortModel, Option<GroupModel>), DxfError>((x2, None));
    if version_at_least(v, AcadVersion::R13) {
        lemma_view_port_push(r2, e, q1);
        lemma_view_port_push(r2, e.push(q1), q2);
        lemma_view_port_push(r2, e.push(q1).push(q2), p2);
        lemma_view_port_push(r2, e.push(q1).push(q2).push(p2), p70);
    } else {
        lemma_view_port_push(r2, e, p2);
        lemma_view_port_push(r2, e.push(p2), p70);
    }
}

/// Reading one more pair is one more step.
proof fn lemma_line_type_push(r: Result<(LineTypeModel, Option<GroupModel>), DxfError>, s: Seq<PairView>, p: PairView)
    ensures
        line_type_continue(r, s.push(p)) == line_type_step(line_type_continue(r, s), p),
{
    assert(s.push(p).drop_last() =~= s);
}

/// The items inside an open group are collected into it.
proof fn lemma_line_type_group_items(x: LineTypeModel, g: GroupModel, items: Seq<PairView>)
    requires
        forall|j: int| 0 <= j < items.len() ==> !is_group_close(#[trigger] items[j]),
    ensures
        line_type_continue(Ok((x, Some(g))), items) == Ok::<(LineTypeModel, Option<GroupModel>), DxfError>(
            (x, Some(GroupModel { items: g.items + items, ..g })),
        ),
    decreases items.len(),
{
    if items.len() == 0 {
        assert(g.items + items =~= g.items);
    } else {
        lemma_line_type_group_items(x, g, items.drop_last());
        assert(!is_group_close(items[items.len() - 1]));
        assert((g.items + items.drop_last()).push(items.last()) =~= g.items + items);
    }
}

/// The pairs of one group are read into the item as that group.
proof fn lemma_line_type_group(x: LineTypeModel, g: GroupModel)
    requires
        group_items_plain(g),
    ensures
        line_type_continue(Ok((x, None)), group_pairs(g)) == Ok::<(LineTypeModel, Option<GroupModel>), DxfError>(
            (LineTypeModel { groups: x.groups.push(g), ..x }, None),
        ),
{
    let open = str_pair(102, seq!['{'] + g.application_name);
    let close = str_pair(102, seq!['}']);
    let r = Ok::<(LineTypeModel, Option<GroupModel>), DxfError>((x, None));
    let e = Seq::<PairView>::empty();
    assert(group_pairs(g) =~= e.push(open) + g.items + e.push(close));
    assert((seq!['{'] + g.application_name).drop_first() =~= g.application_name);
    lemma_line_type_push(r, e, open);
    let g0 = GroupModel { application_name: g.application_name, items: Seq::empty() };
    assert(line_type_continue(r, e.push(open)) == Ok::<(LineTypeModel, Option<GroupModel>), DxfError>((x, Some(g0))));
    lemma_line_type_group_items(x, g0, g.items);
    assert(g0.items + g.items =~= g.items);
    lemma_line_type_continue_append(r, e.push(open), g.items);
    lemma_line_type_continue_append(r, e.push(open) + g.items, e.push(close));
    lemma_line_type_push(line_type_continue(r, e.push(open) + g.items), e, close);
    assert(is_group_close(close));
}

/// The pairs of some groups are read into the item as those groups.
proof fn lemma_line_type_groups(x: LineTypeModel, gs: Seq<GroupModel>)
    requires
        groups_plain(gs),
    ensures
        line_type_continue(Ok((x, None)), groups_pairs(gs)) == Ok::<(LineTypeModel, Option<GroupModel>), DxfError>(
            (LineTypeModel { groups: x.groups + gs, ..x }, None),
        ),
    decreases gs.len(),
{
    let r = Ok::<(LineTypeModel, Option<GroupModel>), DxfError>((x, None));
    if gs.len() == 0 {
        assert(x.groups + gs =~= x.groups);
        assert(LineTypeModel { groups: x.groups + gs, ..x } == x);
    } else {
        assert(groups_plain(gs.drop_last())) by {
            assert forall|i: int| 0 <= i < gs.drop_last().len() implies group_items_plain(#[trigger] gs.drop_last()[i]) by {
                assert(gs.drop_last()[i] == gs[i]);
            }
        }
        lemma_line_type_groups(x, gs.drop_last());
        let y = LineTypeModel { groups: x.groups + gs.drop_last(), ..x };
        assert(group_items_plain(gs[gs.len() - 1]));
        lemma_line_type_group(y, gs.last());
        lemma_line_type_continue_append(r, groups_pairs(gs.drop_last()), group_pairs(gs.last()));
        assert((x.groups + gs.drop_last()).push(gs.last()) =~= x.groups + gs);
    }
}

/// The line type that reading back its written pairs gives: the
/// item, with its extension data only from R14 on.
pub open spec fn line_type_read_back(x: LineTypeModel, v: AcadVersion) -> LineTypeModel {
    LineTypeModel { groups: written_groups(x.groups, v), ..x }
}

/// Reading the pairs of an item header after its type pair sets the handle,
/// the extension data (from R14 on) and the name.
proof fn lemma_line_type_header(x: LineTypeModel, h: u64, groups: Seq<GroupModel>, name: Seq<char>, v: AcadVersion)
    requires
        version_at_least(v, AcadVersion::R14) ==> groups_plain(groups),
    ensures
        line_type_continue(Ok((x, None)), header_tail(h, groups, name, line_type_subclass(), v)) == Ok::<(LineTypeModel, Option<GroupModel>), DxfError>(
            (LineTypeModel { handle: h, name: name, groups: x.groups + written_groups(groups, v), ..x }, None),
        ),
{
    lemma_handle_text(h);
    let p5 = str_pair(5, hex_upper(h as nat));
    let q1 = str_pair(100, symbol_table_record());
    let q2 = str_pair(100, line_type_subclass());
    let p2 = str_pair(2, name);
    let p70 = short_pair(70, 0);
    let r = Ok::<(LineTypeModel, Option<GroupModel>), DxfError>((x, None));
    let e = Seq::<PairView>::empty();
    let gp = if version_at_least(v, AcadVersion::R14) {
        groups_pairs(groups)
    } else {
        Seq::<PairView>::empty()
    };
    let rest = if version_at_least(v, AcadVersion::R13) {
        e.push(q1).push(q2).push(p2).push(p70)
    } else {
        e.push(p2).push(p70)
    };
    assert(header_tail(h, groups, name, line_type_subclass(), v) =~= e.push(p5) + gp + rest);
    lemma_line_type_push(r, e, p5);
    let x1 = LineTypeModel { handle: h, ..x };
    assert(line_type_continue(r, e.push(p5)) == Ok::<(LineTypeModel, Option<GroupModel>), DxfError>((x1, None)));
    lemma_line_type_continue_append(r, e.push(p5), gp);
    let x2 = LineTypeModel { groups: x1.groups + written_groups(groups, v), ..x1 };
    if version_at_least(v, AcadVersion::R14) {
        lemma_line_type_groups(x1, groups);
    } else {
        assert(x1.groups + written_groups(groups, v) =~= x1.groups);
        assert(x2 == x1);
    }
    assert(line_type_continue(r, e.push(p5) + gp) == Ok::<(LineTypeModel, Option<GroupModel>), DxfError>((x2, None)));
    lemma_line_type_continue_append(r, e.push(p5) + gp, rest);
    let r2 = Ok::<(LineTypeModel, Option<GroupModel>), DxfError>((x2, None));
    if version_at_least(v, AcadVersion::R13) {
        lemma_line_type_push(r2, e, q1);
        lemma_line_type_push(r2, e.push(q1), q2);
        lemma_line_type_push(r2, e.push(q1).push(q2), p2);
        lemma_line_type_push(r2, e.push(q1).push(q2).push(p2), p70);
    } else {
        lemma_line_type_push(r2, e, p2);
        lemma_line_type_push(r2, e.push(p2), p70);
    }
}

/// Reading one more pair is one more step.
proof fn lemma_layer_push(r: Result<(LayerModel, Option<GroupModel>), DxfError>, s: Seq<PairView>, p: PairView)
    ensures
        layer_continue(r, s.push(p)) == layer_step(layer_continue(r, s), p),
{
    assert(s.push(p).drop_last() =~= s);
}

/// The items inside an open group are collected into it.
proof fn lemma_layer_group_items(x: LayerModel, g: GroupModel, items: Seq<PairView>)
    requires
        forall|j: int| 0 <= j < items.len() ==> !is_group_close(#[trigger] items[j]),
    ensures
        layer_continue(Ok((x, Some(g))), items) == Ok::<(LayerModel, Option<GroupModel>), DxfError>(
            (x, Some(GroupModel { items: g.items + items, ..g })),
        ),
    decreases items.len(),
{
    if items.len() == 0 {
        assert(g.items + items =~= g.items);
    } else {
        lemma_layer_group_items(x, g, items.drop_last());
        assert(!is_group_close(items[items.len() - 1]));
        assert((g.items + items.drop_last()).push(items.last()) =~= g.items + items);
    }
}

/// The pairs of one group are read into the item as that group.
proof fn lemma_layer_group(x: LayerModel, g: GroupModel)
    requires
        group_items_plain(g),
    ensures
        layer_continue(Ok((x, None)), group_pairs(g)) == Ok::<(LayerModel, Option<GroupModel>), DxfError>(
            (LayerModel { groups: x.groups.push(g), ..x }, None),
        ),
{
    let open = str_pair(102, seq!['{'] + g.application_name);
    let close = str_pair(102, seq!['}']);
    let r = Ok::<(LayerModel, Option<GroupModel>), DxfError>((x, None));
    let e = Seq::<PairView>::empty();
    assert(group_pairs(g) =~= e.push(open) + g.items + e.push(close));
    assert((seq!['{'] + g.application_name).drop_first() =~= g.application_name);
    lemma_layer_push(r, e, open);
    let g0 = GroupModel { application_name: g.application_name, items: Seq::empty() };
    assert(layer_continue(r, e.push(open)) == Ok::<(LayerModel, Option<GroupModel>), DxfError>((x, Some(g0))));
    lemma_layer_group_items(x, g0, g.items);
    assert(g0.items + g.items =~= g.items);
    lemma_layer_continue_append(r, e.push(open), g.items);
    lemma_layer_continue_append(r, e.push(open) + g.items, e.push(close));
    lemma_layer_push(layer_continue(r, e.push(open) + g.items), e, close);
    assert(is_group_close(close));
}

/// The pairs of some groups are read into the item as those groups.
proof fn lemma_layer_groups(x: LayerModel, gs: Seq<GroupModel>)
    requires
        groups_plain(gs),
    ensures
        layer_continue(Ok((x, None)), groups_pairs(gs)) == Ok::<(LayerModel, Option<GroupModel>), DxfError>(
            (LayerModel { groups: x.groups + gs, ..x }, None),
        ),
    decreases gs.len(),
{
    let r = Ok::<(LayerModel, Option<GroupModel>), DxfError>((x, None));
    if gs.len() == 0 {
        assert(x.groups + gs =~= x.groups);
        assert(LayerModel { groups: x.groups + gs, ..x } == x);
    } else {
        assert(groups_plain(gs.drop_last())) by {
            assert forall|i: int| 0 <= i < gs.drop_last().len() implies group_items_plain(#[trigger] gs.drop_last()[i]) by {
                assert(gs.drop_last()[i] == gs[i]);
            }
        }
        lemma_layer_groups(x, gs.drop_last());
        let y = LayerModel { groups: x.groups + gs.drop_last(), ..x };
        assert(group_items_plain(gs[gs.len() - 1]));
        lemma_layer_group(y, gs.last());
        lemma_layer_continue_append(r, groups_pairs(gs.drop_last()), group_pairs(gs.last()));
        assert((x.groups + gs.drop_last()).push(gs.last()) =~= x.groups + gs);
    }
}

/// The layer that reading back its written pairs gives: the
/// item, with its extension data only from R14 on.
pub open spec fn layer_read_back(x: LayerModel, v: AcadVersion) -> LayerModel {
    LayerModel { groups: written_groups(x.groups, v), ..x }
}

/// Reading the pairs of an item header after its type pair sets the handle,
/// the extension data (from R14 on) and the name.
proof fn lemma_layer_header(x: LayerModel, h: u64, groups: Seq<GroupModel>, name: Seq<char>, v: AcadVersion)
    requires
        version_at_least(v, AcadVersion::R14) ==> groups_plain(groups),
    ensures
        layer_continue(Ok((x, None)), header_tail(h, groups, name, layer_subclass(), v)) == Ok::<(LayerModel, Option<GroupModel>), DxfError>(
            (LayerModel { handle: h, name: name, groups: x.groups + written_groups(groups, v), ..x }, None),
        ),
{
    lemma_handle_text(h);
    let p5 = str_pair(5, hex_upper(h as nat));
    let q1 = str_pair(100, symbol_table_record());
    let q2 = str_pair(100, layer_subclass());
    let p2 = str_pair(2, name);
    let p70 = short_pair(70, 0);
    let r = Ok::<(LayerModel, Option<GroupModel>), DxfError>((x, None));
    let e = Seq::<PairView>::empty();
    let gp = if version_at_least(v, AcadVersion::R14) {
        groups_pairs(groups)
    } else {
        Seq::<PairView>::empty()
    };
    let rest = if version_at_least(v, AcadVersion::R13) {
        e.push(q1).push(q2).push(p2).push(p70)
    } else {
        e.push(p2).push(p70)
    };
    assert(header_tail(h, groups, name, layer_subclass(), v) =~= e.push(p5) + gp + rest);
    lemma_layer_push(r, e, p5);
    let x1 = LayerModel { handle: h, ..x };
    assert(layer_continue(r, e.push(p5)) == Ok::<(LayerModel, Option<GroupModel>), DxfError>((x1, None)));
    lemma_layer_continue_append(r, e.push(p5), gp);
    let x2 = LayerModel { groups: x1.groups + written_groups(groups, v), ..x1 };
    if version_at_least(v, AcadVersion::R14) {
        lemma_layer_groups(x1, groups);
    } else {
        assert(x1.groups + written_groups(groups, v) =~= x1.groups);
        assert(x2 == x1);
    }
    assert(layer_continue(r, e.push(p5) + gp) == Ok::<(LayerModel, Option<GroupModel>), DxfError>((x2, None)));
    lemma_layer_continue_append(r, e.push(p5) + gp, rest);
    let r2 = Ok::<(LayerModel, Option<GroupModel>), DxfError>((x2, None));
    if version_at_least(v, AcadVersion::R13) {
        lemma_layer_push(r2, e, q1);
        lemma_layer_push(r2, e.push(q1), q2);
        lemma_layer_push(r2, e.push(q1).push(q2), p2);
        lemma_layer_push(r2, e.push(q1).push(q2).push(p2), p70);
    } else {
        lemma_layer_push(r2, e, p2);
        lemma_layer_push(r2, e.push(p2), p70);
    }
}

/// Reading one more pair is one more step.
proof fn lemma_style_push(r: Result<(StyleModel, Option<GroupModel>), DxfError>, s: Seq<PairView>, p: PairView)
    ensures
        style_continue(r, s.push(p)) == style_step(style_continue(r, s), p),
{
    assert(s.push(p).drop_last() =~= s);
}

/// The items inside an open group are collected into it.
proof fn lemma_style_group_items(x: StyleModel, g: GroupModel, items: Seq<PairView>)
    requires
        forall|j: int| 0 <= j < items.len() ==> !is_group_close(#[trigger] items[j]),
    ensures
        style_continue(Ok((x, Some(g))), items) == Ok::<(StyleModel, Option<GroupModel>), DxfError>(
            (x, Some(GroupModel { items: g.items + items, ..g })),
        ),
    decreases items.len(),
{
    if items.len() == 0 {
        assert(g.items + items =~= g.items);
    } else {
        lemma_style_group_items(x, g, items.drop_last());
        assert(!is_group_close(items[items.len() - 1]));
        assert((g.items + items.drop_last()).push(items.last()) =~= g.items + items);
    }
}

/// The pairs of one group are read into the item as that group.
proof fn lemma_style_group(x: StyleModel, g: GroupModel)
    requires
        group_items_plain(g),
    ensures
        style_continue(Ok((x, None)), group_pairs(g)) == Ok::<(StyleModel, Option<GroupModel>), DxfError>(
            (StyleModel { groups: x.groups.push(g), ..x }, None),
        ),
{
    let open = str_pair(102, seq!['{'] + g.application_name);
    let close = str_pair(102, seq!['}']);
    let r = Ok::<(StyleModel, Option<GroupModel>), DxfError>((x, None));
    let e = Seq::<PairView>::empty();
    assert(group_pairs(g) =~= e.push(open) + g.items + e.push(close));
    assert((seq!['{'] + g.application_name).drop_first() =~= g.application_name);
    lemma_style_push(r, e, open);
    let g0 = GroupModel { application_name: g.application_name, items: Seq::empty() };
    assert(style_continue(r, e.push(open)) == Ok::<(StyleModel, Option<GroupModel>), DxfError>((x, Some(g0))));
    lemma_style_group_items(x, g0, g.items);
    assert(g0.items + g.items =~= g.items);
    lemma_style_continue_append(r, e.push(open), g.items);
    lemma_style_continue_append(r, e.push(open) + g.items, e.push(close));
    lemma_style_push(style_continue(r, e.push(open) + g.items), e, close);
    assert(is_group_close(close));
}

/// The pairs of some groups are read into the item as those groups.
proof fn lemma_style_groups(x: StyleModel, gs: Seq<GroupModel>)
    requires
        groups_plain(gs),
    ensures
        style_continue(Ok((x, None)), groups_pairs(gs)) == Ok::<(StyleModel, Option<GroupModel>), DxfError>(
            (StyleModel { groups: x.groups + gs, ..x }, None),
        ),
    decreases gs.len(),
{
    let r = Ok::<(StyleModel, Option<GroupModel>), DxfError>((x, None));
    if gs.len() == 0 {
        assert(x.groups + gs =~= x.groups);
        assert(StyleModel { groups: x.groups + gs, ..x } == x);
    } else {
        assert(groups_plain(gs.drop_last())) by {
            assert forall|i: int| 0 <= i < gs.drop_last().len() implies group_items_plain(#[trigger] gs.drop_last()[i]) by {
                assert(gs.drop_last()[i] == gs[i]);
            }
        }
        lemma_style_groups(x, gs.drop_last());
        let y = StyleModel { groups: x.groups + gs.drop_last(), ..x };
        assert(group_items_plain(gs[gs.len() - 1]));
        lemma_style_group(y, gs.last());
        lemma_style_continue_append(r, groups_pairs(gs.drop_last()), group_pairs(gs.last()));
        assert((x.groups + gs.drop_last()).push(gs.last()) =~= x.groups + gs);
    }
}

/// The style that reading back its written pairs gives: the
/// item, with its extension data only from R14 on.
pub open spec fn style_read_back(x: StyleModel, v: AcadVersion) -> StyleModel {
    StyleModel { groups: written_groups(x.groups, v), ..x }
}

/// Reading the pairs of an item header after its type pair sets the handle,
/// the extension data (from R14 on) and the name.
proof fn lemma_style_header(x: StyleModel, h: u64, groups: Seq<GroupModel>, name: Seq<char>, v: AcadVersion)
    requires
        version_at_least(v, AcadVersion::R14) ==> groups_plain(groups),
    ensures
        style_continue(Ok((x, None)), header_tail(h, groups, name, style_subclass(), v)) == Ok::<(StyleModel, Option<GroupModel>), DxfError>(
            (StyleModel { handle: h, name: name, groups: x.groups + written_groups(groups, v), ..x }, None),
        ),
{
    lemma_handle_text(h);
    let p5 = str_pair(5, hex_upper(h as nat));
    let q1 = str_pair(100, symbol_table_record());
    let q2 = str_pair(100, style_subclass());
    let p2 = str_pair(2, name);
    let p70 = short_pair(70, 0);
    let r = Ok::<(StyleModel, Option<GroupModel>), DxfError>((x, None));
    let e = Seq::<PairView>::empty();
    let gp = if version_at_least(v, AcadVersion::R14) {
        groups_pairs(groups)
    } else {
        Seq::<PairView>::empty()
    };
    let rest = if version_at_least(v, AcadVersion::R13) {
        e.push(q1).push(q2).push(p2).push(p70)
    } else {
        e.push(p2).push(p70)
    };
    assert(header_tail(h, groups, name, style_subclass(), v) =~= e.push(p5) + gp + rest);
    lemma_style_push(r, e, p5);
    let x1 = StyleModel { handle: h, ..x };
    assert(style_continue(r, e.push(p5)) == Ok::<(StyleModel, Option<GroupModel>), DxfError>((x1, None)));
    lemma_style_continue_append(r, e.push(p5), gp);
    let x2 = StyleModel { groups: x1.groups + written_groups(groups, v), ..x1 };
    if version_at_least(v, AcadVersion::R14) {
        lemma_style_groups(x1, groups);
    } else {
        assert(x1.groups + written_groups(groups, v) =~= x1.groups);
        assert(x2 == x1);
    }
    assert(style_continue(r, e.push(p5) + gp) == Ok::<(StyleModel, Option<GroupModel>), DxfError>((x2, None)));
    lemma_style_continue_append(r, e.push(p5) + gp, rest);
    let r2 = Ok::<(StyleModel, Option<GroupModel>), DxfError>((x2, None));
    if version_at_least(v, AcadVersion::R13) {
        lemma_style_push(r2, e, q1);
        lemma_style_push(r2, e.push(q1), q2);
        lemma_style_push(r2, e.push(q1).push(q2), p2);
        lemma_style_push(r2, e.push(q1).push(q2).push(p2), p70);
    } else {
        lemma_style_push(r2, e, p2);
        lemma_style_push(r2, e.push(p2), p70);
    }
}

/// Reading one more pair is one more step.
proof fn lemma_view_push(r: Result<(ViewModel, Option<GroupModel>), DxfError>, s: Seq<PairView>, p: PairView)
    ensures
        view_continue(r, s.push(p)) == view_step(view_continue(r, s), p),
{
    assert(s.push(p).drop_last() =~= s);
}

/// The items inside an open group are collected into it.
proof fn lemma_view_group_items(x: ViewModel, g: GroupModel, items: Seq<PairView>)
    requires
        forall|j: int| 0 <= j < items.len() ==> !is_group_close(#[trigger] items[j]),
    ensures
        view_continue(Ok((x, Some(g))), items) == Ok::<(ViewModel, Option<GroupModel>), DxfError>(
            (x, Some(GroupModel { items: g.items + items, ..g })),
        ),
    decreases items.len(),
{
    if items.len() == 0 {
        assert(g.items + items =~= g.items);
    } else {
        lemma_view_group_items(x, g, items.drop_last());
        assert(!is_group_close(items[items.len() - 1]));
        assert((g.items + items.drop_last()).push(items.last()) =~= g.items + items);
    }
}

/// The pairs of one group are read into the item as that group.
proof fn lemma_view_group(x: ViewModel, g: GroupModel)
    requires
        group_items_plain(g),
    ensures
        view_continue(Ok((x, None)), group_pairs(g)) == Ok::<(ViewModel, Option<GroupModel>), DxfError>(
            (ViewModel { groups: x.groups.push(g), ..x }, None),
        ),
{
    let open = str_pair(102, seq!['{'] + g.application_name);
    let close = str_pair(102, seq!['}']);
    let r = Ok::<(ViewModel, Option<GroupModel>), DxfError>((x, None));
    let e = Seq::<PairView>::empty();
    assert(group_pairs(g) =~= e.push(open) + g.items + e.push(close));
    assert((seq!['{'] + g.application_name).drop_first() =~= g.application_name);
    lemma_view_push(r, e, open);
    let g0 = GroupModel { application_name: g.application_name, items: Seq::empty() };
    assert(view_continue(r, e.push(open)) == Ok::<(ViewModel, Option<GroupModel>), DxfError>((x, Some(g0))));
    lemma_view_group_items(x, g0, g.items);
    assert(g0.items + g.items =~= g.items);
    lemma_view_continue_append(r, e.push(open), g.items);
    lemma_view_continue_append(r, e.push(open) + g.items, e.push(close));
    lemma_view_push(view_continue(r, e.push(open) + g.items), e, close);
    assert(is_group_close(close));
}

/// The pairs of some groups are read into the item as those groups.
proof fn lemma_view_groups(x: ViewModel, gs: Seq<GroupModel>)
    requires
        groups_plain(gs),
    ensures
        view_continue(Ok((x, None)), groups_pairs(gs)) == Ok::<(ViewModel, Option<GroupModel>), DxfError>(
            (ViewModel { groups: x.groups + gs, ..x }, None),
        ),
    decreases gs.len(),
{
    let r = Ok::<(ViewModel, Option<GroupModel>), DxfError>((x, None));
    if gs.len() == 0 {
        assert(x.groups + gs =~= x.groups);
        assert(ViewModel { groups: x.groups + gs, ..x } == x);
    } else {
        assert(groups_plain(gs.drop_last())) by {
            assert forall|i: int| 0 <= i < gs.drop_last().len() implies group_items_plain(#[trigger] gs.drop_last()[i]) by {
                assert(gs.drop_last()[i] == gs[i]);
            }
        }
        lemma_view_groups(x, gs.drop_last());
        let y = ViewModel { groups: x.groups + gs.drop_last(), ..x };
        assert(group_items_plain(gs[gs.len() - 1]));
        lemma_view_group(y, gs.last());
        lemma_view_continue_append(r, groups_pairs(gs.drop_last()), group_pairs(gs.last()));
        assert((x.groups + gs.drop_last()).push(gs.last()) =~= x.groups + gs);
    }
}

/// The view that reading back its written pairs gives: the
/// item, with its extension data only from R14 on.
pub open spec fn view_read_back(x: ViewModel, v: AcadVersion) -> ViewModel {
    ViewModel { groups: written_groups(x.groups, v), ..x }
}

/// Reading the pairs of an item header after its type pair sets the handle,
/// the extension data (from R14 on) and the name.
proof fn lemma_view_header(x: ViewModel, h: u64, groups: Seq<GroupModel>, name: Seq<char>, v: AcadVersion)
    requires
        version_at_least(v, AcadVersion::R14) ==> groups_plain(groups),
    ensures
        view_continue(Ok((x, None)), header_tail(h, groups, name, view_subclass(), v)) == Ok::<(ViewModel, Option<GroupModel>), DxfError>(
            (ViewModel { handle: h, name: name, groups: x.groups + written_groups(groups, v), ..x }, None),
        ),
{
    lemma_handle_text(h);
    let p5 = str_pair(5, hex_upper(h as nat));
    let q1 = str_pair(100, symbol_table_record());
    let q2 = str_pair(100, view_subclass());
    let p2 = str_pair(2, name);
    let p70 = short_pair(70, 0);
    let r = Ok::<(ViewModel, Option<GroupModel>), DxfError>((x, None));
    let e = Seq::<PairView>::empty();
    let gp = if version_at_least(v, AcadVersion::R14) {
        groups_pairs(groups)
    } else {
        Seq::<PairView>::empty()
    };
    let rest = if version_at_least(v, AcadVersion::R13) {
        e.push(q1).push(q2).push(p2).push(p70)
    } else {
        e.push(p2).push(p70)
    };
    assert(header_tail(h, groups, name, view_subclass(), v) =~= e.push(p5) + gp + rest);
    lemma_view_push(r, e, p5);
    let x1 = ViewModel { handle: h, ..x };
    assert(view_continue(r, e.push(p5)) == Ok::<(ViewModel, Option<GroupModel>), DxfError>((x1, None)));
    lemma_view_continue_append(r, e.push(p5), gp);
    let x2 = ViewModel { groups: x1.groups + written_groups(groups, v), ..x1 };
    if version_at_least(v, AcadVersion::R14) {
        lemma_view_groups(x1, groups);
    } else {
        assert(x1.groups + written_groups(groups, v) =~= x1.groups);
        assert(x2 == x1);
    }
    assert(view_continue(r, e.push(p5) + gp) == Ok::<(ViewModel, Option<GroupModel>), DxfError>((x2, None)));
    lemma_view_continue_append(r, e.push(p5) + gp, rest);
    let r2 = Ok::<(ViewModel, Option<GroupModel>), DxfError>((x2, None));
    if version_at_least(v, AcadVersion::R13) {
        lemma_view_push(r2, e, q1);
        lemma_view_push(r2, e.push(q1), q2);
        lemma_view_push(r2, e.push(q1).push(q2), p2);
        lemma_view_push(r2, e.push(q1).push(q2).push(p2), p70);
    } else {
        lemma_view_push(r2, e, p2);
        lemma_view_push(r2, e.push(p2), p70);
    }
}

/// Reading one more pair is one more step.
proof fn lemma_ucs_push(r: Result<(NamedModel, Option<GroupModel>), DxfError>, s: Seq<PairView>, p: PairView)
    ensures
        ucs_continue(r, s.push(p)) == ucs_step(ucs_continue(r, s), p),
{
    assert(s.push(p).drop_last() =~= s);
}

/// The items inside an open group are collected into it.
proof fn lemma_ucs_group_items(x: NamedModel, g: GroupModel, items: Seq<PairView>)
    requires
        forall|j: int| 0 <= j < items.len() ==> !is_group_close(#[trigger] items[j]),
    ensures
        ucs_continue(Ok((x, Some(g))), items) == Ok::<(NamedModel, Option<GroupModel>), DxfError>(
            (x, Some(GroupModel { items: g.items + items, ..g })),
        ),
    decreases items.len(),
{
    if items.len() == 0 {
        assert(g.items + items =~= g.items);
    } else {
        lemma_ucs_group_items(x, g, items.drop_last());
        assert(!is_group_close(items[items.len() - 1]));
        assert((g.items + items.drop_last()).push(items.last()) =~= g.items + items);
    }
}

/// The pairs of one group are read into the item as that group.
proof fn lemma_ucs_group(x: NamedModel, g: GroupModel)
    requires
        group_items_plain(g),
    ensures
        ucs_continue(Ok((x, None)), group_pairs(g)) == Ok::<(NamedModel, Option<GroupModel>), DxfError>(
            (NamedModel { groups: x.groups.push(g), ..x }, None),
        ),
{
    let open = str_pair(102, seq!['{'] + g.application_name);
    let close = str_pair(102, seq!['}']);
    let r = Ok::<(NamedModel, Option<GroupModel>), DxfError>((x, None));
    let e = Seq::<PairView>::empty();
    assert(group_pairs(g) =~= e.push(open) + g.items + e.push(close));
    assert((seq!['{'] + g.application_name).drop_first() =~= g.application_name);
    lemma_ucs_push(r, e, open);
    let g0 = GroupModel { application_name: g.application_name, items: Seq::empty() };
    assert(ucs_continue(r, e.push(open)) == Ok::<(NamedModel, Option<GroupModel>), DxfError>((x, Some(g0))));
    lemma_ucs_group_items(x, g0, g.items);
    assert(g0.items + g.items =~= g.items);
    lemma_ucs_continue_append(r, e.push(open), g.items);
    lemma_ucs_continue_append(r, e.push(open) + g.items, e.push(close));
    lemma_ucs_push(ucs_continue(r, e.push(open) + g.items), e, close);
    assert(is_group_close(close));
}

/// The pairs of some groups are read into the item as those groups.
proof fn lemma_ucs_groups(x: NamedModel, gs: Seq<GroupModel>)
    requires
        groups_plain(gs),
    ensures
        ucs_continue(Ok((x, None)), groups_pairs(gs)) == Ok::<(NamedModel, Option<GroupModel>), DxfError>(
            (NamedModel { groups: x.groups + gs, ..x }, None),
        ),
    decreases gs.len(),
{
    let r = Ok::<(NamedModel, Option<GroupModel>), DxfError>((x, None));
    if gs.len() == 0 {
        assert(x.groups + gs =~= x.groups);
        assert(NamedModel { groups: x.groups + gs, ..x } == x);
    } else {
        assert(groups_plain(gs.drop_last())) by {
            assert forall|i: int| 0 <= i < gs.drop_last().len() implies group_items_plain(#[trigger] gs.drop_last()[i]) by {
                assert(gs.drop_last()[i] == gs[i]);
            }
        }
        lemma_ucs_groups(x, gs.drop_last());
        let y = NamedModel { groups: x.groups + gs.drop_last(), ..x };
        assert(group_items_plain(gs[gs.len() - 1]));
        lemma_ucs_group(y, gs.last());
        lemma_ucs_continue_append(r, groups_pairs(gs.drop_last()), group_pairs(gs.last()));
        assert((x.groups + gs.drop_last()).push(gs.last()) =~= x.groups + gs);
    }
}

/// The ucs that reading back its written pairs gives: the
/// item, with its extension data only from R14 on.
pub open spec fn ucs_read_back(x: NamedModel, v: AcadVersion) -> NamedModel {
    NamedModel { groups: written_groups(x.groups, v), ..x }
}

/// Reading the pairs of an item header after its type pair sets the handle,
/// the extension data (from R14 on) and the name.
proof fn lemma_ucs_header(x: NamedModel, h: u64, groups: Seq<GroupModel>, name: Seq<char>, v: AcadVersion)
    requires
        version_at_least(v, AcadVersion::R14) ==> groups_plain(groups),
    ensures
        ucs_continue(Ok((x, None)), header_tail(h, groups, name, ucs_subclass(), v)) == Ok::<(NamedModel, Option<GroupModel>), DxfError>(
            (NamedModel { handle: h, name: name, groups: x.groups + written_groups(groups, v), ..x }, None),
        ),
{
    lemma_handle_text(h);
    let p5 = str_pair(5, hex_upper(h as nat));
    let q1 = str_pair(100, symbol_table_record());
    let q2 = str_pair(100, ucs_subclass());
    let p2 = str_pair(2, name);
    let p70 = short_pair(70, 0);
    let r = Ok::<(NamedModel, Option<GroupModel>), DxfError>((x, None));
    let e = Seq::<PairView>::empty();
    let gp = if version_at_least(v, AcadVersion::R14) {
        groups_pairs(groups)
    } else {
        Seq::<PairView>::empty()
    };
    let rest = if version_at_least(v, AcadVersion::R13) {
        e.push(q1).push(q2).push(p2).push(p70)
    } else {
        e.push(p2).push(p70)
    };
    assert(header_tail(h, groups, name, ucs_subclass(), v) =~= e.push(p5) + gp + rest);
    lemma_ucs_push(r, e, p5);
    let x1 = NamedModel { handle: h, ..x };
    assert(ucs_continue(r, e.push(p5)) == Ok::<(NamedModel, Option<GroupModel>), DxfError>((x1, None)));
    lemma_ucs_continue_append(r, e.push(p5), gp);
    let x2 = NamedModel { groups: x1.groups + written_groups(groups, v), ..x1 };
    if version_at_least(v, AcadVersion::R14) {
        lemma_ucs_groups(x1, groups);
    } else {
        assert(x1.groups + written_groups(groups, v) =~= x1.groups);
        assert(x2 == x1);
    }
    assert(ucs_continue(r, e.push(p5) + gp) == Ok::<(NamedModel, Option<GroupModel>), DxfError>((x2, None)));
    lemma_ucs_continue_append(r, e.push(p5) + gp, rest);
    let r2 = Ok::<(NamedModel, Option<GroupModel>), DxfError>((x2, None));
    if version_at_least(v, AcadVersion::R13) {
        lemma_ucs_push(r2, e, q1);
        lemma_ucs_push(r2, e.push(q1), q2);
        lemma_ucs_push(r2, e.push(q1).push(q2), p2);
        lemma_ucs_push(r2, e.push(q1).push(q2).push(p2), p70);
    } else {
        lemma_ucs_push(r2, e, p2);
        lemma_ucs_push(r2, e.push(p2), p70);
    }
}

/// Reading one more pair is one more step.
proof fn lemma_app_id_push(r: Result<(NamedModel, Option<GroupModel>), DxfError>, s: Seq<PairView>, p: PairView)
    ensures
        app_id_continue(r, s.push(p)) == app_id_step(app_id_continue(r, s), p),
{
    assert(s.push(p).drop_last() =~= s);
}

/// The items inside an open group are collected into it.
proof fn lemma_app_id_group_items(x: NamedModel, g: GroupModel, items: Seq<PairView>)
    requires
        forall|j: int| 0 <= j < items.len() ==> !is_group_close(#[trigger] items[j]),
    ensures
        app_id_continue(Ok((x, Some(g))), items) == Ok::<(NamedModel, Option<GroupModel>), DxfError>(
            (x, Some(GroupModel { items: g.items + items, ..g })),
        ),
    decreases items.len(),
{
    if items.len() == 0 {
        assert(g.items + items =~= g.items);
    } else {
        lemma_app_id_group_items(x, g, items.drop_last());
        assert(!is_group_close(items[items.len() - 1]));
        assert((g.items + items.drop_last()).push(items.last()) =~= g.items + items);
    }
}

/// The pairs of one group are read into the item as that group.
proof fn lemma_app_id_group(x: NamedModel, g: GroupModel)
    requires
        group_items_plain(g),
    ensures
        app_id_continue(Ok((x, None)), group_pairs(g)) == Ok::<(NamedModel, Option<GroupModel>), DxfError>(
            (NamedModel { groups: x.groups.push(g), ..x }, None),
        ),
{
    let open = str_pair(102, seq!['{'] + g.application_name);
    let close = str_pair(102, seq!['}']);
    let r = Ok::<(NamedModel, Option<GroupModel>), DxfError>((x, None));
    let e = Seq::<PairView>::empty();
    assert(group_pairs(g) =~= e.push(open) + g.items + e.push(close));
    assert((seq!['{'] + g.application_name).drop_first() =~= g.application_name);
    lemma_app_id_push(r, e, open);
    let g0 = GroupModel { application_name: g.application_name, items: Seq::empty() };
    assert(app_id_continue(r, e.push(open)) == Ok::<(NamedModel, Option<GroupModel>), DxfError>((x, Some(g0))));
    lemma_app_id_group_items(x, g0, g.items);
    assert(g0.items + g.items =~= g.items);
    lemma_app_id_continue_append(r, e.push(open), g.items);
    lemma_app_id_continue_append(r, e.push(open) + g.items, e.push(close));
    lemma_app_id_push(app_id_continue(r, e.push(open) + g.items), e, close);
    assert(is_group_close(close));
}

/// The pairs of some groups are read into the item as those groups.
proof fn lemma_app_id_groups(x: NamedModel, gs: Seq<GroupModel>)
    requires
        groups_plain(gs),
    ensures
        app_id_continue(Ok((x, None)), groups_pairs(gs)) == Ok::<(NamedModel, Option<GroupModel>), DxfError>(
            (NamedModel { groups: x.groups + gs, ..x }, None),
        ),
    decreases gs.len(),
{
    let r = Ok::<(NamedModel, Option<GroupModel>), DxfError>((x, None));
    if gs.len() == 0 {
        assert(x.groups + gs =~= x.groups);
        assert(NamedModel { groups: x.groups + gs, ..x } == x);
    } else {
        assert(groups_plain(gs.drop_last())) by {
            assert forall|i: int| 0 <= i < gs.drop_last().len() implies group_items_plain(#[trigger] gs.drop_last()[i]) by {
                assert(gs.drop_last()[i] == gs[i]);
            }
        }
        lemma_app_id_groups(x, gs.drop_last());
        let y = NamedModel { groups: x.groups + gs.drop_last(), ..x };
        assert(group_items_plain(gs[gs.len() - 1]));
        lemma_app_id_group(y, gs.last());
        lemma_app_id_continue_append(r, groups_pairs(gs.drop_last()), group_pairs(gs.last()));
        assert((x.groups + gs.drop_last()).push(gs.last()) =~= x.groups + gs);
    }
}

/// The app id that reading back its written pairs gives: the
/// item, with its extension data only from R14 on.
pub open spec fn app_id_read_back(x: NamedModel, v: AcadVersion) -> NamedModel {
    NamedModel { groups: written_groups(x.groups, v), ..x }
}

/// Reading the pairs of an item header after its type pair sets the handle,
/// the extension data (from R14 on) and the name.
proof fn lemma_app_id_header(x: NamedModel, h: u64, groups: Seq<GroupModel>, name: Seq<char>, v: AcadVersion)
    requires
        version_at_least(v, AcadVersion::R14) ==> groups_plain(groups),
    ensures
        app_id_continue(Ok((x, None)), header_tail(h, groups, name, app_id_subclass(), v)) == Ok::<(NamedModel, Option<GroupModel>), DxfError>(
            (NamedModel { handle: h, name: name, groups: x.groups + written_groups(groups, v), ..x }, None),
        ),
{
    lemma_handle_text(h);
    let p5 = str_pair(5, hex_upper(h as nat));
    let q1 = str_pair(100, symbol_table_record());
    let q2 = str_pair(100, app_id_subclass());
    let p2 = str_pair(2, name);
    let p70 = short_pair(70, 0);
    let r = Ok::<(NamedModel, Option<GroupModel>), DxfError>((x, None));
    let e = Seq::<PairView>::empty();
    let gp = if version_at_least(v, AcadVersion::R14) {
        groups_pairs(groups)
    } else {
        Seq::<PairView>::empty()
    };
    let rest = if version_at_least(v, AcadVersion::R13) {
        e.push(q1).push(q2).push(p2).push(p70)
    } else {
        e.push(p2).push(p70)
    };
    assert(header_tail(h, groups, name, app_id_subclass(), v) =~= e.push(p5) + gp + rest);
    lemma_app_id_push(r, e, p5);
    let x1 = NamedModel { handle: h, ..x };
    assert(app_id_continue(r, e.push(p5)) == Ok::<(NamedModel, Option<GroupModel>), DxfError>((x1, None)));
    lemma_app_id_continue_append(r, e.push(p5), gp);
    let x2 = NamedModel { groups: x1.groups + written_groups(groups, v), ..x1 };
    if version_at_least(v, AcadVersion::R14) {
        lemma_app_id_groups(x1, groups);
    } else {
        assert(x1.groups + written_groups(groups, v) =~= x1.groups);
        assert(x2 == x1);
    }
    assert(app_id_continue(r, e.push(p5) + gp) == Ok::<(NamedModel, Option<GroupModel>), DxfError>((x2, None)));
    lemma_app_id_continue_append(r, e.push(p5) + gp, rest);
    let r2 = Ok::<(NamedModel, Option<GroupModel>), DxfError>((x2, None));
    if version_at_least(v, AcadVersion::R13) {
        lemma_app_id_push(r2, e, q1);
        lemma_app_id_push(r2, e.push(q1), q2);
        lemma_app_id_push(r2, e.push(q1).push(q2), p2);
        lemma_app_id_push(r2, e.push(q1).push(q2).push(p2), p70);
    } else {
        lemma_app_id_push(r2, e, p2);
        lemma_app_id_push(r2, e.push(p2), p70);
    }
}

/// Reading one more pair is one more step.
proof fn lemma_block_record_push(r: Result<(NamedModel, Option<GroupModel>), DxfError>, s: Seq<PairView>, p: PairView)
    ensures
        block_record_continue(r, s.push(p)) == block_record_step(block_record_continue(r, s), p),
{
    assert(s.push(p).drop_last() =~= s);
}

/// The items inside an open group are collected into it.
proof fn lemma_block_record_group_items(x: NamedModel, g: GroupModel, items: Seq<PairView>)
    requires
        forall|j: int| 0 <= j < items.len() ==> !is_group_close(#[trigger] items[j]),
    ensures
        block_record_continue(Ok((x, Some(g))), items) == Ok::<(NamedModel, Option<GroupModel>), DxfError>(
            (x, Some(GroupModel { items: g.items + items, ..g })),
        ),
    decreases items.len(),
{
    if items.len() == 0 {
        assert(g.items + items =~= g.items);
    } else {
        lemma_block_record_group_items(x, g, items.drop_last());
        assert(!is_group_close(items[items.len() - 1]));
        assert((g.items + items.drop_last()).push(items.last()) =~= g.items + items);
    }
}

/// The pairs of one group are read into the item as that group.
proof fn lemma_block_record_group(x: NamedModel, g: GroupModel)
    requires
        group_items_plain(g),
    ensures
        block_record_continue(Ok((x, None)), group_pairs(g)) == Ok::<(NamedModel, Option<GroupModel>), DxfError>(
            (NamedModel { groups: x.groups.push(g), ..x }, None),
        ),
{
    let open = str_pair(102, seq!['{'] + g.application_name);
    let close = str_pair(102, seq!['}']);
    let r = Ok::<(NamedModel, Option<GroupModel>), DxfError>((x, None));
    let e = Seq::<PairView>::empty();
    assert(group_pairs(g) =~= e.push(open) + g.items + e.push(close));
    assert((seq!['{'] + g.application_name).drop_first() =~= g.application_name);
    lemma_block_record_push(r, e, open);
    let g0 = GroupModel { application_name: g.application_name, items: Seq::empty() };
    assert(block_record_continue(r, e.push(open)) == Ok::<(NamedModel, Option<GroupModel>), DxfError>((x, Some(g0))));
    lemma_block_record_group_items(x, g0, g.items);
    assert(g0.items + g.items =~= g.items);
    lemma_block_record_continue_append(r, e.push(open), g.items);
    lemma_block_record_continue_append(r, e.push(open) + g.items, e.push(close));
    lemma_block_record_push(block_record_continue(r, e.push(open) + g.items), e, close);
    assert(is_group_close(close));
}

/// The pairs of some groups are read into the item as those groups.
proof fn lemma_block_record_groups(x: NamedModel, gs: Seq<GroupModel>)
    requires
        groups_plain(gs),
    ensures
        block_record_continue(Ok((x, None)), groups_pairs(gs)) == Ok::<(NamedModel, Option<GroupModel>), DxfError>(
            (NamedModel { groups: x.groups + gs, ..x }, None),
        ),
    decreases gs.len(),
{
    let r = Ok::<(NamedModel, Option<GroupModel>), DxfError>((x, None));
    if gs.len() == 0 {
        assert(x.groups + gs =~= x.groups);
        assert(NamedModel { groups: x.groups + gs, ..x } == x);
    } else {
        assert(groups_plain(gs.drop_last())) by {
            assert forall|i: int| 0 <= i < gs.drop_last().len() implies group_items_plain(#[trigger] gs.drop_last()[i]) by {
                assert(gs.drop_last()[i] == gs[i]);
            }
        }
        lemma_block_record_groups(x, gs.drop_last());
        let y = NamedModel { groups: x.groups + gs.drop_last(), ..x };
        assert(group_items_plain(gs[gs.len() - 1]));
        lemma_block_record_group(y, gs.last());
        lemma_block_record_continue_append(r, groups_pairs(gs.drop_last()), group_pairs(gs.last()));
        assert((x.groups + gs.drop_last()).push(gs.last()) =~= x.groups + gs);
    }
}

/// The block record that reading back its written pairs gives: the
/// item, with its extension data only from R14 on.
pub open spec fn block_record_read_back(x: NamedModel, v: AcadVersion) -> NamedModel {
    NamedModel { groups: written_groups(x.groups, v), ..x }
}

/// Reading the pairs of an item header after its type pair sets the handle,
/// the extension data (from R14 on) and the name.
proof fn lemma_block_record_header(x: NamedModel, h: u64, groups: Seq<GroupModel>, name: Seq<char>, v: AcadVersion)
    requires
        version_at_least(v, AcadVersion::R14) ==> groups_plain(groups),
    ensures
        block_record_continue(Ok((x, None)), header_tail(h, groups, name, block_record_subclass(), v)) == Ok::<(NamedModel, Option<GroupModel>), DxfError>(
            (NamedModel { handle: h, name: name, groups: x.groups + written_groups(groups, v), ..x }, None),
        ),
{
    lemma_handle_text(h);
    let p5 = str_pair(5, hex_upper(h as nat));
    let q1 = str_pair(100, symbol_table_record());
    let q2 = str_pair(100, block_record_subclass());
    let p2 = str_pair(2, name);
    let p70 = short_pair(70, 0);
    let r = Ok::<(NamedModel, Option<GroupModel>), DxfError>((x, None));
    let e = Seq::<PairView>::empty();
    let gp = if version_at_least(v, AcadVersion::R14) {
        groups_pairs(groups)
    } else {
        Seq::<PairView>::empty()
    };
    let rest = if version_at_least(v, AcadVersion::R13) {
        e.push(q1).push(q2).push(p2).push(p70)
    } else {
        e.push(p2).push(p70)
    };
    assert(header_tail(h, groups, name, block_record_subclass(), v) =~= e.push(p5) + gp + rest);
    lemma_block_record_push(r, e, p5);
    let x1 = NamedModel { handle: h, ..x };
    assert(block_record_continue(r, e.push(p5)) == Ok::<(NamedModel, Option<GroupModel>), DxfError>((x1, None)));
    lemma_block_record_continue_append(r, e.push(p5), gp);
    let x2 = NamedModel { groups: x1.groups + written_groups(groups, v), ..x1 };
    if version_at_least(v, AcadVersion::R14) {
        lemma_block_record_groups(x1, groups);
    } else {
        assert(x1.groups + written_groups(groups, v) =~= x1.groups);
        assert(x2 == x1);
    }
    assert(block_record_continue(r, e.push(p5) + gp) == Ok::<(NamedModel, Option<GroupModel>), DxfError>((x2, None)));
    lemma_block_record_continue_append(r, e.push(p5) + gp, rest);
    let r2 = Ok::<(NamedModel, Option<GroupModel>), DxfError>((x2, None));
    if version_at_least(v, AcadVersion::R13) {
        lemma_block_record_push(r2, e, q1);
        lemma_block_record_push(r2, e.push(q1), q2);
        lemma_block_record_push(r2, e.push(q1).push(q2), p2);
        lemma_block_record_push(r2, e.push(q1).push(q2).push(p2), p70);
    } else {
        lemma_block_record_push(r2, e, p2);
        lemma_block_record_push(r2, e.push(p2), p70);
    }
}

/// Reading back the pairs written for a view port item, after its type pair,
/// gives the item back, with its extension data only from R14 on, wherever the depth of its snap and grid spacing (which is not written) is the default one; from
/// R14 on, no extension data item may be a group's closing pair.
pub proof fn view_port_write_read_law(x: ViewPortModel, v: AcadVersion)
    requires
        version_at_least(v, AcadVersion::R14) ==> groups_plain(x.groups),
        x.snap_spacing.z == default_view_port().snap_spacing.z,
        x.grid_spacing.z == default_view_port().grid_spacing.z,
    ensures
        view_port_of(view_port_item_pairs(x, v).drop_first()) == Ok::<ViewPortModel, DxfError>(view_port_read_back(x, v)),
{
    let tail = header_tail(x.handle, x.groups, x.name, view_port_subclass(), v);
    let b0 = Seq::<PairView>::empty();
    let b1 = b0.push(real_pair(14, x.snap_spacing.x));
    let b2 = b1.push(real_pair(24, x.snap_spacing.y));
    let b3 = b2.push(real_pair(15, x.grid_spacing.x));
    let b4 = b3.push(real_pair(25, x.grid_spacing.y));
    let b5 = b4.push(real_pair(40, x.view_height));
    let b6 = b5.push(real_pair(41, x.view_port_aspect_ratio));
    let b7 = b6.push(real_pair(42, x.lens_length));
    let b8 = b7.push(short_pair(74, x.ucs_icon));
    let b9 = b8.push(int_pair(72, x.circle_sides));
    let body = b9;
    lemma_item_header(view_port_type_word(), view_port_subclass(), x.handle, x.groups, x.name, v);
    assert(view_port_item_pairs(x, v).drop_first() =~= tail + body);
    let r0 = Ok::<(ViewPortModel, Option<GroupModel>), DxfError>((default_view_port(), None));
    lemma_view_port_continue_append(r0, tail, body);
    lemma_view_port_header(default_view_port(), x.handle, x.groups, x.name, v);
    assert(default_view_port().groups + written_groups(x.groups, v) =~= written_groups(x.groups, v));
    let r1 = view_port_continue(r0, tail);
    lemma_view_port_push(r1, b0, real_pair(14, x.snap_spacing.x));
    lemma_view_port_push(r1, b1, real_pair(24, x.snap_spacing.y));
    lemma_view_port_push(r1, b2, real_pair(15, x.grid_spacing.x));
    lemma_view_port_push(r1, b3, real_pair(25, x.grid_spacing.y));
    lemma_view_port_push(r1, b4, real_pair(40, x.view_height));
    lemma_view_port_push(r1, b5, real_pair(41, x.view_port_aspect_ratio));
    lemma_view_port_push(r1, b6, real_pair(42, x.lens_length));
    lemma_view_port_push(r1, b7, short_pair(74, x.ucs_icon));
    lemma_view_port_push(r1, b8, int_pair(72, x.circle_sides));
    assert(view_port_continue(r1, body) == Ok::<(ViewPortModel, Option<GroupModel>), DxfError>((view_port_read_back(x, v), None)));
}

/// Reading back the pairs written for a layer item, after its type pair,
/// gives the item back, with its extension data only from R14 on, wherever the written color tells whether the layer is on (its color is positive, or zero on a layer that is on); from
/// R14 on, no extension data item may be a group's closing pair.
pub proof fn layer_write_read_law(x: LayerModel, v: AcadVersion)
    requires
        version_at_least(v, AcadVersion::R14) ==> groups_plain(x.groups),
        x.color > 0 || (x.color == 0 && x.is_layer_on),
    ensures
        layer_of(layer_item_pairs(x, v).drop_first()) == Ok::<LayerModel, DxfError>(layer_read_back(x, v)),
{
    let tail = header_tail(x.handle, x.groups, x.name, layer_subclass(), v);
    let b0 = Seq::<PairView>::empty();
    let b1 = b0.push(short_pair(62, layer_color_value(x.color, x.is_layer_on)));
    let b2 = b1.push(str_pair(6, x.line_type_name));
    let body = b2;
    lemma_item_header(layer_type_word(), layer_subclass(), x.handle, x.groups, x.name, v);
    assert(layer_item_pairs(x, v).drop_first() =~= tail + body);
    let r0 = Ok::<(LayerModel, Option<GroupModel>), DxfError>((default_layer(), None));
    lemma_layer_continue_append(r0, tail, body);
    lemma_layer_header(default_layer(), x.handle, x.groups, x.name, v);
    assert(default_layer().groups + written_groups(x.groups, v) =~= written_groups(x.groups, v));
    let r1 = layer_continue(r0, tail);
    lemma_layer_push(r1, b0, short_pair(62, layer_color_value(x.color, x.is_layer_on)));
    lemma_layer_push(r1, b1, str_pair(6, x.line_type_name));
    assert(layer_continue(r1, body) == Ok::<(LayerModel, Option<GroupModel>), DxfError>((layer_read_back(x, v), None)));
}

/// Reading back the pairs written for a text style item, after its type pair,
/// gives the item back, with its extension data only from R14 on; from
/// R14 on, no extension data item may be a group's closing pair.
pub proof fn style_write_read_law(x: StyleModel, v: AcadVersion)
    requires
        version_at_least(v, AcadVersion::R14) ==> groups_plain(x.groups),
    ensures
        style_of(style_item_pairs(x, v).drop_first()) == Ok::<StyleModel, DxfError>(style_read_back(x, v)),
{
    let tail = header_tail(x.handle, x.groups, x.name, style_subclass(), v);
    let b0 = Seq::<PairView>::empty();
    let b1 = b0.push(real_pair(40, x.text_height));
    let b2 = b1.push(real_pair(41, x.width_factor));
    let body = b2;
    lemma_item_header(style_type_word(), style_subclass(), x.handle, x.groups, x.name, v);
    assert(style_item_pairs(x, v).drop_first() =~= tail + body);
    let r0 = Ok::<(StyleModel, Option<GroupModel>), DxfError>((default_style(), None));
    lemma_style_continue_append(r0, tail, body);
    lemma_style_header(default_style(), x.handle, x.groups, x.name, v);
    assert(default_style().groups + written_groups(x.groups, v) =~= written_groups(x.groups, v));
    let r1 = style_continue(r0, tail);
    lemma_style_push(r1, b0, real_pair(40, x.text_height));
    lemma_style_push(r1, b1, real_pair(41, x.width_factor));
    assert(style_continue(r1, body) == Ok::<(StyleModel, Option<GroupModel>), DxfError>((style_read_back(x, v), None)));
}

/// Reading back the pairs written for a named view item, after its type pair,
/// gives the item back, with its extension data only from R14 on; from
/// R14 on, no extension data item may be a group's closing pair.
pub proof fn view_write_read_law(x: ViewModel, v: AcadVersion)
    requires
        version_at_least(v, AcadVersion::R14) ==> groups_plain(x.groups),
    ensures
        view_of(view_item_pairs(x, v).drop_first()) == Ok::<ViewModel, DxfError>(view_read_back(x, v)),
{
    let tail = header_tail(x.handle, x.groups, x.name, view_subclass(), v);
    let b0 = Seq::<PairView>::empty();
    let b1 = b0.push(real_pair(40, x.view_height));
    let b2 = b1.push(real_pair(41, x.view_width));
    let b3 = b2.push(real_pair(42, x.lens_length));
    let body = b3;
    lemma_item_header(view_type_word(), view_subclass(), x.handle, x.groups, x.name, v);
    assert(view_item_pairs(x, v).drop_first() =~= tail + body);
    let r0 = Ok::<(ViewModel, Option<GroupModel>), DxfError>((default_view(), None));
    lemma_view_continue_append(r0, tail, body);
    lemma_view_header(default_view(), x.handle, x.groups, x.name, v);
    assert(default_view().groups + written_groups(x.groups, v) =~= written_groups(x.groups, v));
    let r1 = view_continue(r0, tail);
    lemma_view_push(r1, b0, real_pair(40, x.view_height));
    lemma_view_push(r1, b1, real_pair(41, x.view_width));
    lemma_view_push(r1, b2, real_pair(42, x.lens_length));
    assert(view_continue(r1, body) == Ok::<(ViewModel, Option<GroupModel>), DxfError>((view_read_back(x, v), None)));
}

/// Reading back the pairs written for a user coordinate system item, after its type pair,
/// gives the item back, with its extension data only from R14 on; from
/// R14 on, no extension data item may be a group's closing pair.
pub proof fn ucs_write_read_law(x: NamedModel, v: AcadVersion)
    requires
        version_at_least(v, AcadVersion::R14) ==> groups_plain(x.groups),
    ensures
        ucs_of(ucs_item_pairs(x, v).drop_first()) == Ok::<NamedModel, DxfError>(ucs_read_back(x, v)),
{
    let tail = header_tail(x.handle, x.groups, x.name, ucs_subclass(), v);
    let b0 = Seq::<PairView>::empty();
    let body = b0;
    lemma_item_header(ucs_type_word(), ucs_subclass(), x.handle, x.groups, x.name, v);
    assert(ucs_item_pairs(x, v).drop_first() =~= tail + body);
    let r0 = Ok::<(NamedModel, Option<GroupModel>), DxfError>((named_default(), None));
    lemma_ucs_continue_append(r0, tail, body);
    lemma_ucs_header(named_default(), x.handle, x.groups, x.name, v);
    assert(named_default().groups + written_groups(x.groups, v) =~= written_groups(x.groups, v));
    let r1 = ucs_continue(r0, tail);
    assert(ucs_continue(r1, body) == Ok::<(NamedModel, Option<GroupModel>), DxfError>((ucs_read_back(x, v), None)));
}

/// Reading back the pairs written for a registered application item, after its type pair,
/// gives the item back, with its extension data only from R14 on; from
/// R14 on, no extension data item may be a group's closing pair.
pub proof fn app_id_write_read_law(x: NamedModel, v: AcadVersion)
    requires
        version_at_least(v, AcadVersion::R14) ==> groups_plain(x.groups),
    ensures
        app_id_of(app_id_item_pairs(x, v).drop_first()) == Ok::<NamedModel, DxfError>(app_id_read_back(x, v)),
{
    let tail = header_tail(x.handle, x.groups, x.name, app_id_subclass(), v);
    let b0 = Seq::<PairView>::empty();
    let body = b0;
    lemma_item_header(app_id_type_word(), app_id_subclass(), x.handle, x.groups, x.name, v);
    assert(app_id_item_pairs(x, v).drop_first() =~= tail + body);
    let r0 = Ok::<(NamedModel, Option<GroupModel>), DxfError>((named_default(), None));
    lemma_app_id_continue_append(r0, tail, body);
    lemma_app_id_header(named_default(), x.handle, x.groups, x.name, v);
    assert(named_default().groups + written_groups(x.groups, v) =~= written_groups(x.groups, v));
    let r1 = app_id_continue(r0, tail);
    assert(app_id_continue(r1, body) == Ok::<(NamedModel, Option<GroupModel>), DxfError>((app_id_read_back(x, v), None)));
}

/// Reading back the pairs written for a block record item, after its type pair,
/// gives the item back, with its extension data only from R14 on; from
/// R14 on, no extension data item may be a group's closing pair.
pub proof fn block_record_write_read_law(x: NamedModel, v: AcadVersion)
    requires
        version_at_least(v, AcadVersion::R14) ==> groups_plain(x.groups),
    ensures
        block_record_of(block_record_item_pairs(x, v).drop_first()) == Ok::<NamedModel, DxfError>(block_record_read_back(x, v)),
{
    let tail = header_tail(x.handle, x.groups, x.name, block_record_subclass(), v);
    let b0 = Seq::<PairView>::empty();
    let body = b0;
    lemma_item_header(block_record_type_word(), block_record_subclass(), x.handle, x.groups, x.name, v);
    assert(block_record_item_pairs(x, v).drop_first() =~= tail + body);
    let r0 = Ok::<(NamedModel, Option<GroupModel>), DxfError>((named_default(), None));
    lemma_block_record_continue_append(r0, tail, body);
    lemma_block_record_header(named_default(), x.handle, x.groups, x.name, v);
    assert(named_default().groups + written_groups(x.groups, v) =~= written_groups(x.groups, v));
    let r1 = block_record_continue(r0, tail);
    assert(block_record_continue(r1, body) == Ok::<(NamedModel, Option<GroupModel>), DxfError>((block_record_read_back(x, v), None)));
}

/// The runs of pairs written for some view port items, one per item.
pub open spec fn view_port_item_runs(xs: Seq<ViewPortModel>, v: AcadVersion) -> Seq<Seq<PairView>> {
    xs.map_values(|x: ViewPortModel| crate::writer::view_port_item_pairs(x, v))
}

proof fn lemma_view_port_joined(xs: Seq<ViewPortModel>, v: AcadVersion)
    ensures
        joined(view_port_item_runs(xs, v)) == crate::writer::view_port_items_pairs(xs, v),
    decreases xs.len(),
{
    if xs.len() > 0 {
        lemma_view_port_joined(xs.drop_last(), v);
        assert(view_port_item_runs(xs, v).drop_last() =~= view_port_item_runs(xs.drop_last(), v));
    } else {
        assert(view_port_item_runs(xs, v) =~= Seq::<Seq<PairView>>::empty());
    }
}

proof fn lemma_view_port_shaped(xs: Seq<ViewPortModel>, v: AcadVersion)
    requires
        forall|i: int| 0 <= i < xs.len() ==> { let x = #[trigger] xs[i]; view_port_round_trips(x, v) },
    ensures
        forall|t: int| 0 <= t < xs.len() ==> item_shaped(#[trigger] view_port_item_runs(xs, v)[t], TableKind::ViewPort),
{
    assert forall|t: int| 0 <= t < xs.len() implies item_shaped(#[trigger] view_port_item_runs(xs, v)[t], TableKind::ViewPort) by {
        let x = xs[t];
        let tail = header_tail(x.handle, x.groups, x.name, view_port_subclass(), v);
        let body = seq![real_pair(14, x.snap_spacing.x), real_pair(24, x.snap_spacing.y), real_pair(15, x.grid_spacing.x), real_pair(25, x.grid_spacing.y), real_pair(40, x.view_height), real_pair(41, x.view_port_aspect_ratio), real_pair(42, x.lens_length), short_pair(74, x.ucs_icon), int_pair(72, x.circle_sides)];
        lemma_item_header(view_port_type_word(), view_port_subclass(), x.handle, x.groups, x.name, v);
        lemma_header_codes(x.handle, x.groups, x.name, view_port_subclass(), v);
        assert(no_zero_code(body));
        lemma_no_zero_append(tail, body);
        assert(crate::writer::view_port_item_pairs(x, v) =~= seq![str_pair(0, item_word(TableKind::ViewPort))] + (tail + body));
        lemma_item_shaped(TableKind::ViewPort, tail + body);
    }
}

proof fn lemma_view_port_fold(d: DrawingModel, xs: Seq<ViewPortModel>, v: AcadVersion)
    requires
        forall|i: int| 0 <= i < xs.len() ==> { let x = #[trigger] xs[i]; view_port_round_trips(x, v) },
    ensures
        fold_bodies(d, TableKind::ViewPort, view_port_item_runs(xs, v)) == Ok::<DrawingModel, DxfError>(
            DrawingModel { view_ports: d.view_ports + xs.map_values(|x: ViewPortModel| view_port_read_back(x, v)), ..d },
        ),
    decreases xs.len(),
{
    if xs.len() == 0 {
        assert(d.view_ports + xs.map_values(|x: ViewPortModel| view_port_read_back(x, v)) =~= d.view_ports);
        assert(view_port_item_runs(xs, v) =~= Seq::<Seq<PairView>>::empty());
        assert(DrawingModel { view_ports: d.view_ports + xs.map_values(|x: ViewPortModel| view_port_read_back(x, v)), ..d } =~= d);
    } else {
        lemma_view_port_fold(d, xs.drop_last(), v);
        assert(view_port_item_runs(xs, v).drop_last() =~= view_port_item_runs(xs.drop_last(), v));
        let x = xs.last();
        assert({ let x = xs[xs.len() - 1]; view_port_round_trips(x, v) });
        lemma_clean_is_plain(x.groups);
        view_port_write_read_law(x, v);
        let body = crate::writer::view_port_item_pairs(x, v).drop_first();
        assert(body.subrange(0, body.len() as int) =~= body);
        assert(view_port_item_runs(xs, v).last() == crate::writer::view_port_item_pairs(x, v));
        assert((d.view_ports + xs.drop_last().map_values(|x: ViewPortModel| view_port_read_back(x, v))).push(view_port_read_back(x, v)) =~= d.view_ports + xs.map_values(|x: ViewPortModel| view_port_read_back(x, v)));
    }
}

/// Reading the view port table written for the items `xs` adds them.
proof fn lemma_view_port_table(ps: Seq<PairView>, xs: Seq<ViewPortModel>, v: AcadVersion, o: int, st: ReadState)
    requires
        st.phase == Phase::Tables,
        holds_at(ps, o, table_pairs(view_port_type_word(), xs.len() as int, crate::writer::view_port_items_pairs(xs, v), v)),
        forall|i: int| 0 <= i < xs.len() ==> { let x = #[trigger] xs[i]; view_port_round_trips(x, v) },
    ensures
        run_until(ps, o, o + table_pairs(view_port_type_word(), xs.len() as int, crate::writer::view_port_items_pairs(xs, v), v).len(), st)
            == Ok::<ReadState, DxfError>(ReadState {
            phase: Phase::Tables,
            drawing: DrawingModel { view_ports: st.drawing.view_ports + xs.map_values(|x: ViewPortModel| view_port_read_back(x, v)), ..st.drawing },
            pending: None,
        }),
{
    lemma_view_port_joined(xs, v);
    lemma_view_port_shaped(xs, v);
    lemma_view_port_fold(st.drawing, xs, v);
    lemma_table_kinds();
    lemma_table_run(ps, view_port_type_word(), xs.len() as int, view_port_item_runs(xs, v), v, o, st);
}

/// The runs of pairs written for some line type items, one per item.
pub open spec fn line_type_item_runs(xs: Seq<LineTypeModel>, v: AcadVersion) -> Seq<Seq<PairView>> {
    xs.map_values(|x: LineTypeModel| crate::writer::line_type_item_pairs(x, v))
}

proof fn lemma_line_type_joined(xs: Seq<LineTypeModel>, v: AcadVersion)
    ensures
        joined(line_type_item_runs(xs, v)) == crate::writer::line_type_items_pairs(xs, v),
    decreases xs.len(),
{
    if xs.len() > 0 {
        lemma_line_type_joined(xs.drop_last(), v);
        assert(line_type_item_runs(xs, v).drop_last() =~= line_type_item_runs(xs.drop_last(), v));
    } else {
        assert(line_type_item_runs(xs, v) =~= Seq::<Seq<PairView>>::empty());
    }
}

proof fn lemma_line_type_shaped(xs: Seq<LineTypeModel>, v: AcadVersion)
    requires
        forall|i: int| 0 <= i < xs.len() ==> { let x = #[trigger] xs[i]; line_type_round_trips(x, v) },
    ensures
        forall|t: int| 0 <= t < xs.len() ==> item_shaped(#[trigger] line_type_item_runs(xs, v)[t], TableKind::LineType),
{
    assert forall|t: int| 0 <= t < xs.len() implies item_shaped(#[trigger] line_type_item_runs(xs, v)[t], TableKind::LineType) by {
        let x = xs[t];
        let tail = header_tail(x.handle, x.groups, x.name, line_type_subclass(), v);
        let body = seq![str_pair(3, x.description), short_pair(72, x.alignment_code as i16), short_pair(73, x.element_count as i16), real_pair(40, x.total_pattern_length)] + elements_pairs(x.line_elements, v);
        lemma_item_header(line_type_type_word(), line_type_subclass(), x.handle, x.groups, x.name, v);
        lemma_header_codes(x.handle, x.groups, x.name, line_type_subclass(), v);
        let fixed = seq![str_pair(3, x.description), short_pair(72, x.alignment_code as i16), short_pair(73, x.element_count as i16), real_pair(40, x.total_pattern_length)];
        assert(no_zero_code(fixed));
        lemma_elements_codes(x.line_elements, v);
        lemma_no_zero_append(fixed, elements_pairs(x.line_elements, v));
        assert(no_zero_code(body));
        lemma_no_zero_append(tail, body);
        assert(crate::writer::line_type_item_pairs(x, v) =~= seq![str_pair(0, item_word(TableKind::LineType))] + (tail + body));
        lemma_item_shaped(TableKind::LineType, tail + body);
    }
}

proof fn lemma_line_type_fold(d: DrawingModel, xs: Seq<LineTypeModel>, v: AcadVersion)
    requires
        forall|i: int| 0 <= i < xs.len() ==> { let x = #[trigger] xs[i]; line_type_round_trips(x, v) },
    ensures
        fold_bodies(d, TableKind::LineType, line_type_item_runs(xs, v)) == Ok::<DrawingModel, DxfError>(
            DrawingModel { line_types: d.line_types + xs.map_values(|x: LineTypeModel| line_type_read_back(x, v)), ..d },
        ),
    decreases xs.len(),
{
    if xs.len() == 0 {
        assert(d.line_types + xs.map_values(|x: LineTypeModel| line_type_read_back(x, v)) =~= d.line_types);
        assert(line_type_item_runs(xs, v) =~= Seq::<Seq<PairView>>::empty());
        assert(DrawingModel { line_types: d.line_types + xs.map_values(|x: LineTypeModel| line_type_read_back(x, v)), ..d } =~= d);
    } else {
        lemma_line_type_fold(d, xs.drop_last(), v);
        assert(line_type_item_runs(xs, v).drop_last() =~= line_type_item_runs(xs.drop_last(), v));
        let x = xs.last();
        assert({ let x = xs[xs.len() - 1]; line_type_round_trips(x, v) });
        lemma_clean_is_plain(x.groups);
        line_type_write_read_law(x, v);
        let body = crate::writer::line_type_item_pairs(x, v).drop_first();
        assert(body.subrange(0, body.len() as int) =~= body);
        assert(line_type_item_runs(xs, v).last() == crate::writer::line_type_item_pairs(x, v));
        assert((d.line_types + xs.drop_last().map_values(|x: LineTypeModel| line_type_read_back(x, v))).push(line_type_read_back(x, v)) =~= d.line_types + xs.map_values(|x: LineTypeModel| line_type_read_back(x, v)));
    }
}

/// Reading the line type table written for the items `xs` adds them.
proof fn lemma_line_type_table(ps: Seq<PairView>, xs: Seq<LineTypeModel>, v: AcadVersion, o: int, st: ReadState)
    requires
        st.phase == Phase::Tables,
        holds_at(ps, o, table_pairs(line_type_type_word(), xs.len() as int, crate::writer::line_type_items_pairs(xs, v), v)),
        forall|i: int| 0 <= i < xs.len() ==> { let x = #[trigger] xs[i]; line_type_round_trips(x, v) },
    ensures
        run_until(ps, o, o + table_pairs(line_type_type_word(), xs.len() as int, crate::writer::line_type_items_pairs(xs, v), v).len(), st)
            == Ok::<ReadState, DxfError>(ReadState {
            phase: Phase::Tables,
            drawing: DrawingModel { line_types: st.drawing.line_types + xs.map_values(|x: LineTypeModel| line_type_read_back(x, v)), ..st.drawing },
            pending: None,
        }),
{
    lemma_line_type_joined(xs, v);
    lemma_line_type_shaped(xs, v);
    lemma_line_type_fold(st.drawing, xs, v);
    lemma_table_kinds();
    lemma_table_run(ps, line_type_type_word(), xs.len() as int, line_type_item_runs(xs, v), v, o, st);
}

/// The runs of pairs written for some layer items, one per item.
pub open spec fn layer_item_runs(xs: Seq<LayerModel>, v: AcadVersion) -> Seq<Seq<PairView>> {
    xs.map_values(|x: LayerModel| crate::writer::layer_item_pairs(x, v))
}

proof fn lemma_layer_joined(xs: Seq<LayerModel>, v: AcadVersion)
    ensures
        joined(layer_item_runs(xs, v)) == crate::writer::layer_items_pairs(xs, v),
    decreases xs.len(),
{
    if xs.len() > 0 {
        lemma_layer_joined(xs.drop_last(), v);
        assert(layer_item_runs(xs, v).drop_last() =~= layer_item_runs(xs.drop_last(), v));
    } else {
        assert(layer_item_runs(xs, v) =~= Seq::<Seq<PairView>>::empty());
    }
}

proof fn lemma_layer_shaped(xs: Seq<LayerModel>, v: AcadVersion)
    requires
        forall|i: int| 0 <= i < xs.len() ==> { let x = #[trigger] xs[i]; layer_round_trips(x, v) },
    ensures
        forall|t: int| 0 <= t < xs.len() ==> item_shaped(#[trigger] layer_item_runs(xs, v)[t], TableKind::Layer),
{
    assert forall|t: int| 0 <= t < xs.len() implies item_shaped(#[trigger] layer_item_runs(xs, v)[t], TableKind::Layer) by {
        let x = xs[t];
        let tail = header_tail(x.handle, x.groups, x.name, layer_subclass(), v);
        let body = seq![short_pair(62, layer_color_value(x.color, x.is_layer_on)), str_pair(6, x.line_type_name)];
        lemma_item_header(layer_type_word(), layer_subclass(), x.handle, x.groups, x.name, v);
        lemma_header_codes(x.handle, x.groups, x.name, layer_subclass(), v);
        assert(no_zero_code(body));
        lemma_no_zero_append(tail, body);
        assert(crate::writer::layer_item_pairs(x, v) =~= seq![str_pair(0, item_word(TableKind::Layer))] + (tail + body));
        lemma_item_shaped(TableKind::Layer, tail + body);
    }
}

proof fn lemma_layer_fold(d: DrawingModel, xs: Seq<LayerModel>, v: AcadVersion)
    requires
        forall|i: int| 0 <= i < xs.len() ==> { let x = #[trigger] xs[i]; layer_round_trips(x, v) },
    ensures
        fold_bodies(d, TableKind::Layer, layer_item_runs(xs, v)) == Ok::<DrawingModel, DxfError>(
            DrawingModel { layers: d.layers + xs.map_values(|x: LayerModel| layer_read_back(x, v)), ..d },
        ),
    decreases xs.len(),
{
    if xs.len() == 0 {
        assert(d.layers + xs.map_values(|x: LayerModel| layer_read_back(x, v)) =~= d.layers);
        assert(layer_item_runs(xs, v) =~= Seq::<Seq<PairView>>::empty());
        assert(DrawingModel { layers: d.layers + xs.map_values(|x: LayerModel| layer_read_back(x, v)), ..d } =~= d);
    } else {
        lemma_layer_fold(d, xs.drop_last(), v);
        assert(layer_item_runs(xs, v).drop_last() =~= layer_item_runs(xs.drop_last(), v));
        let x = xs.last();
        assert({ let x = xs[xs.len() - 1]; layer_round_trips(x, v) });
        lemma_clean_is_plain(x.groups);
        layer_write_read_law(x, v);
        let body = crate::writer::layer_item_pairs(x, v).drop_first();
        assert(body.subrange(0, body.len() as int) =~= body);
        assert(layer_item_runs(xs, v).last() == crate::writer::layer_item_pairs(x, v));
        assert((d.layers + xs.drop_last().map_values(|x: LayerModel| layer_read_back(x, v))).push(layer_read_back(x, v)) =~= d.layers + xs.map_values(|x: LayerModel| layer_read_back(x, v)));
    }
}

/// Reading the layer table written for the items `xs` adds them.
proof fn lemma_layer_table(ps: Seq<PairView>, xs: Seq<LayerModel>, v: AcadVersion, o: int, st: ReadState)
    requires
        st.phase == Phase::Tables,
        holds_at(ps, o, table_pairs(layer_type_word(), xs.len() as int, crate::writer::layer_items_pairs(xs, v), v)),
        forall|i: int| 0 <= i < xs.len() ==> { let x = #[trigger] xs[i]; layer_round_trips(x, v) },
    ensures
        run_until(ps, o, o + table_pairs(layer_type_word(), xs.len() as int, crate::writer::layer_items_pairs(xs, v), v).len(), st)
            == Ok::<ReadState, DxfError>(ReadState {
            phase: Phase::Tables,
            drawing: DrawingModel { layers: st.drawing.layers + xs.map_values(|x: LayerModel| layer_read_back(x, v)), ..st.drawing },
            pending: None,
        }),
{
    lemma_layer_joined(xs, v);
    lemma_layer_shaped(xs, v);
    lemma_layer_fold(st.drawing, xs, v);
    lemma_table_kinds();
    lemma_table_run(ps, layer_type_word(), xs.len() as int, layer_item_runs(xs, v), v, o, st);
}

/// The runs of pairs written for some style items, one per item.
pub open spec fn style_item_runs(xs: Seq<StyleModel>, v: AcadVersion) -> Seq<Seq<PairView>> {
    xs.map_values(|x: StyleModel| crate::writer::style_item_pairs(x, v))
}

proof fn lemma_style_joined(xs: Seq<StyleModel>, v: AcadVersion)
    ensures
        joined(style_item_runs(xs, v)) == crate::writer::style_items_pairs(xs, v),
    decreases xs.len(),
{
    if xs.len() > 0 {
        lemma_style_joined(xs.drop_last(), v);
        assert(style_item_runs(xs, v).drop_last() =~= style_item_runs(xs.drop_last(), v));
    } else {
        assert(style_item_runs(xs, v) =~= Seq::<Seq<PairView>>::empty());
    }
}

proof fn lemma_style_shaped(xs: Seq<StyleModel>, v: AcadVersion)
    requires
        forall|i: int| 0 <= i < xs.len() ==> { let x = #[trigger] xs[i]; version_at_least(v, AcadVersion::R14) ==> groups_clean(x.groups) },
    ensures
        forall|t: int| 0 <= t < xs.len() ==> item_shaped(#[trigger] style_item_runs(xs, v)[t], TableKind::Style),
{
    assert forall|t: int| 0 <= t < xs.len() implies item_shaped(#[trigger] style_item_runs(xs, v)[t], TableKind::Style) by {
        let x = xs[t];
        let tail = header_tail(x.handle, x.groups, x.name, style_subclass(), v);
        let body = seq![real_pair(40, x.text_height), real_pair(41, x.width_factor)];
        lemma_item_header(style_type_word(), style_subclass(), x.handle, x.groups, x.name, v);
        lemma_header_codes(x.handle, x.groups, x.name, style_subclass(), v);
        assert(no_zero_code(body));
        lemma_no_zero_append(tail, body);
        assert(crate::writer::style_item_pairs(x, v) =~= seq![str_pair(0, item_word(TableKind::Style))] + (tail + body));
        lemma_item_shaped(TableKind::Style, tail + body);
    }
}

proof fn lemma_style_fold(d: DrawingModel, xs: Seq<StyleModel>, v: AcadVersion)
    requires
        forall|i: int| 0 <= i < xs.len() ==> { let x = #[trigger] xs[i]; version_at_least(v, AcadVersion::R14) ==> groups_clean(x.groups) },
    ensures
        fold_bodies(d, TableKind::Style, style_item_runs(xs, v)) == Ok::<DrawingModel, DxfError>(
            DrawingModel { styles: d.styles + xs.map_values(|x: StyleModel| style_read_back(x, v)), ..d },
        ),
    decreases xs.len(),
{
    if xs.len() == 0 {
        assert(d.styles + xs.map_values(|x: StyleModel| style_read_back(x, v)) =~= d.styles);
        assert(style_item_runs(xs, v) =~= Seq::<Seq<PairView>>::empty());
        assert(DrawingModel { styles: d.styles + xs.map_values(|x: StyleModel| style_read_back(x, v)), ..d } =~= d);
    } else {
        lemma_style_fold(d, xs.drop_last(), v);
        assert(style_item_runs(xs, v).drop_last() =~= style_item_runs(xs.drop_last(), v));
        let x = xs.last();
        assert({ let x = xs[xs.len() - 1]; version_at_least(v, AcadVersion::R14) ==> groups_clean(x.groups) });
        lemma_clean_is_plain(x.groups);
        style_write_read_law(x, v);
        let body = crate::writer::style_item_pairs(x, v).drop_first();
        assert(body.subrange(0, body.len() as int) =~= body);
        assert(style_item_runs(xs, v).last() == crate::writer::style_item_pairs(x, v));
        assert((d.styles + xs.drop_last().map_values(|x: StyleModel| style_read_back(x, v))).push(style_read_back(x, v)) =~= d.styles + xs.map_values(|x: StyleModel| style_read_back(x, v)));
    }
}

/// Reading the style table written for the items `xs` adds them.
proof fn lemma_style_table(ps: Seq<PairView>, xs: Seq<StyleModel>, v: AcadVersion, o: int, st: ReadState)
    requires
        st.phase == Phase::Tables,
        holds_at(ps, o, table_pairs(style_type_word(), xs.len() as int, crate::writer::style_items_pairs(xs, v), v)),
        forall|i: int| 0 <= i < xs.len() ==> { let x = #[trigger] xs[i]; version_at_least(v, AcadVersion::R14) ==> groups_clean(x.groups) },
    ensures
        run_until(ps, o, o + table_pairs(style_type_word(), xs.len() as int, crate::writer::style_items_pairs(xs, v), v).len(), st)
            == Ok::<ReadState, DxfError>(ReadState {
            phase: Phase::Tables,
            drawing: DrawingModel { styles: st.drawing.styles + xs.map_values(|x: StyleModel| style_read_back(x, v)), ..st.drawing },
            pending: None,
        }),
{
    lemma_style_joined(xs, v);
    lemma_style_shaped(xs, v);
    lemma_style_fold(st.drawing, xs, v);
    lemma_table_kinds();
    lemma_table_run(ps, style_type_word(), xs.len() as int, style_item_runs(xs, v), v, o, st);
}

/// The runs of pairs written for some view items, one per item.
pub open spec fn view_item_runs(xs: Seq<ViewModel>, v: AcadVersion) -> Seq<Seq<PairView>> {
    xs.map_values(|x: ViewModel| crate::writer::view_item_pairs(x, v))
}

proof fn lemma_view_joined(xs: Seq<ViewModel>, v: AcadVersion)
    ensures
        joined(view_item_runs(xs, v)) == crate::writer::view_items_pairs(xs, v),
    decreases xs.len(),
{
    if xs.len() > 0 {
        lemma_view_joined(xs.drop_last(), v);
        assert(view_item_runs(xs, v).drop_last() =~= view_item_runs(xs.drop_last(), v));
    } else {
        assert(view_item_runs(xs, v) =~= Seq::<Seq<PairView>>::empty());
    }
}

proof fn lemma_view_shaped(xs: Seq<ViewModel>, v: AcadVersion)
    requires
        forall|i: int| 0 <= i < xs.len() ==> { let x = #[trigger] xs[i]; version_at_least(v, AcadVersion::R14) ==> groups_clean(x.groups) },
    ensures
        forall|t: int| 0 <= t < xs.len() ==> item_shaped(#[trigger] view_item_runs(xs, v)[t], TableKind::View),
{
    assert forall|t: int| 0 <= t < xs.len() implies item_shaped(#[trigger] view_item_runs(xs, v)[t], TableKind::View) by {
        let x = xs[t];
        let tail = header_tail(x.handle, x.groups, x.name, view_subclass(), v);
        let body = seq![real_pair(40, x.view_height), real_pair(41, x.view_width), real_pair(42, x.lens_length)];
        lemma_item_header(view_type_word(), view_subclass(), x.handle, x.groups, x.name, v);
        lemma_header_codes(x.handle, x.groups, x.name, view_subclass(), v);
        assert(no_zero_code(body));
        lemma_no_zero_append(tail, body);
        assert(crate::writer::view_item_pairs(x, v) =~= seq![str_pair(0, item_word(TableKind::View))] + (tail + body));
        lemma_item_shaped(TableKind::View, tail + body);
    }
}

proof fn lemma_view_fold(d: DrawingModel, xs: Seq<ViewModel>, v: AcadVersion)
    requires
        forall|i: int| 0 <= i < xs.len() ==> { let x = #[trigger] xs[i]; version_at_least(v, AcadVersion::R14) ==> groups_clean(x.groups) },
    ensures
        fold_bodies(d, TableKind::View, view_item_runs(xs, v)) == Ok::<DrawingModel, DxfError>(
            DrawingModel { views: d.views + xs.map_values(|x: ViewModel| view_read_back(x, v)), ..d },
        ),
    decreases xs.len(),
{
    if xs.len() == 0 {
        assert(d.views + xs.map_values(|x: ViewModel| view_read_back(x, v)) =~= d.views);
        assert(view_item_runs(xs, v) =~= Seq::<Seq<PairView>>::empty());
        assert(DrawingModel { views: d.views + xs.map_values(|x: ViewModel| view_read_back(x, v)), ..d } =~= d);
    } else {
        lemma_view_fold(d, xs.drop_last(), v);
        assert(view_item_runs(xs, v).drop_last() =~= view_item_runs(xs.drop_last(), v));
        let x = xs.last();
        assert({ let x = xs[xs.len() - 1]; version_at_least(v, AcadVersion::R14) ==> groups_clean(x.groups) });
        lemma_clean_is_plain(x.groups);
        view_write_read_law(x, v);
        let body = crate::writer::view_item_pairs(x, v).drop_first();
        assert(body.subrange(0, body.len() as int) =~= body);
        assert(view_item_runs(xs, v).last() == crate::writer::view_item_pairs(x, v));
        assert((d.views + xs.drop_last().map_values(|x: ViewModel| view_read_back(x, v))).push(view_read_back(x, v)) =~= d.views + xs.map_values(|x: ViewModel| view_read_back(x, v)));
    }
}

/// Reading the view table written for the items `xs` adds them.
proof fn lemma_view_table(ps: Seq<PairView>, xs: Seq<ViewModel>, v: AcadVersion, o: int, st: ReadState)
    requires
        st.phase == Phase::Tables,
        holds_at(ps, o, table_pairs(view_type_word(), xs.len() as int, crate::writer::view_items_pairs(xs, v), v)),
        forall|i: int| 0 <= i < xs.len() ==> { let x = #[trigger] xs[i]; version_at_least(v, AcadVersion::R14) ==> groups_clean(x.groups) },
    ensures
        run_until(ps, o, o + table_pairs(view_type_word(), xs.len() as int, crate::writer::view_items_pairs(xs, v), v).len(), st)
            == Ok::<ReadState, DxfError>(ReadState {
            phase: Phase::Tables,
            drawing: DrawingModel { views: st.drawing.views + xs.map_values(|x: ViewModel| view_read_back(x, v)), ..st.drawing },
            pending: None,
        }),
{
    lemma_view_joined(xs, v);
    lemma_view_shaped(xs, v);
    lemma_view_fold(st.drawing, xs, v);
    lemma_table_kinds();
    lemma_table_run(ps, view_type_word(), xs.len() as int, view_item_runs(xs, v), v, o, st);
}

/// The runs of pairs written for some ucs items, one per item.
pub open spec fn ucs_item_runs(xs: Seq<NamedModel>, v: AcadVersion) -> Seq<Seq<PairView>> {
    xs.map_values(|x: NamedModel| crate::writer::ucs_item_pairs(x, v))
}

proof fn lemma_ucs_joined(xs: Seq<NamedModel>, v: AcadVersion)
    ensures
        joined(ucs_item_runs(xs, v)) == crate::writer::ucs_items_pairs(xs, v),
    decreases xs.len(),
{
    if xs.len() > 0 {
        lemma_ucs_joined(xs.drop_last(), v);
        assert(ucs_item_runs(xs, v).drop_last() =~= ucs_item_runs(xs.drop_last(), v));
    } else {
        assert(ucs_item_runs(xs, v) =~= Seq::<Seq<PairView>>::empty());
    }
}

proof fn lemma_ucs_shaped(xs: Seq<NamedModel>, v: AcadVersion)
    requires
        forall|i: int| 0 <= i < xs.len() ==> { let x = #[trigger] xs[i]; version_at_least(v, AcadVersion::R14) ==> groups_clean(x.groups) },
    ensures
        forall|t: int| 0 <= t < xs.len() ==> item_shaped(#[trigger] ucs_item_runs(xs, v)[t], TableKind::Ucs),
{
    assert forall|t: int| 0 <= t < xs.len() implies item_shaped(#[trigger] ucs_item_runs(xs, v)[t], TableKind::Ucs) by {
        let x = xs[t];
        let tail = header_tail(x.handle, x.groups, x.name, ucs_subclass(), v);
        let body = Seq::<PairView>::empty();
        lemma_item_header(ucs_type_word(), ucs_subclass(), x.handle, x.groups, x.name, v);
        lemma_header_codes(x.handle, x.groups, x.name, ucs_subclass(), v);
        assert(no_zero_code(body));
        lemma_no_zero_append(tail, body);
        assert(crate::writer::ucs_item_pairs(x, v) =~= seq![str_pair(0, item_word(TableKind::Ucs))] + (tail + body));
        lemma_item_shaped(TableKind::Ucs, tail + body);
    }
}

proof fn lemma_ucs_fold(d: DrawingModel, xs: Seq<NamedModel>, v: AcadVersion)
    requires
        forall|i: int| 0 <= i < xs.len() ==> { let x = #[trigger] xs[i]; version_at_least(v, AcadVersion::R14) ==> groups_clean(x.groups) },
    ensures
        fold_bodies(d, TableKind::Ucs, ucs_item_runs(xs, v)) == Ok::<DrawingModel, DxfError>(
            DrawingModel { ucss: d.ucss + xs.map_values(|x: NamedModel| ucs_read_back(x, v)), ..d },
        ),
    decreases xs.len(),
{
    if xs.len() == 0 {
        assert(d.ucss + xs.map_values(|x: NamedModel| ucs_read_back(x, v)) =~= d.ucss);
        assert(ucs_item_runs(xs, v) =~= Seq::<Seq<PairView>>::empty());
        assert(DrawingModel { ucss: d.ucss + xs.map_values(|x: NamedModel| ucs_read_back(x, v)), ..d } =~= d);
    } else {
        lemma_ucs_fold(d, xs.drop_last(), v);
        assert(ucs_item_runs(xs, v).drop_last() =~= ucs_item_runs(xs.drop_last(), v));
        let x = xs.last();
        assert({ let x = xs[xs.len() - 1]; version_at_least(v, AcadVersion::R14) ==> groups_clean(x.groups) });
        lemma_clean_is_plain(x.groups);
        ucs_write_read_law(x, v);
        let body = crate::writer::ucs_item_pairs(x, v).drop_first();
        assert(body.subrange(0, body.len() as int) =~= body);
        assert(ucs_item_runs(xs, v).last() == crate::writer::ucs_item_pairs(x, v));
        assert((d.ucss + xs.drop_last().map_values(|x: NamedModel| ucs_read_back(x, v))).push(ucs_read_back(x, v)) =~= d.ucss + xs.map_values(|x: NamedModel| ucs_read_back(x, v)));
    }
}

/// Reading the ucs table written for the items `xs` adds them.
proof fn lemma_ucs_table(ps: Seq<PairView>, xs: Seq<NamedModel>, v: AcadVersion, o: int, st: ReadState)
    requires
        st.phase == Phase::Tables,
        holds_at(ps, o, table_pairs(ucs_type_word(), xs.len() as int, crate::writer::ucs_items_pairs(xs, v), v)),
        forall|i: int| 0 <= i < xs.len() ==> { let x = #[trigger] xs[i]; version_at_least(v, AcadVersion::R14) ==> groups_clean(x.groups) },
    ensures
        run_until(ps, o, o + table_pairs(ucs_type_word(), xs.len() as int, crate::writer::ucs_items_pairs(xs, v), v).len(), st)
            == Ok::<ReadState, DxfError>(ReadState {
            phase: Phase::Tables,
            drawing: DrawingModel { ucss: st.drawing.ucss + xs.map_values(|x: NamedModel| ucs_read_back(x, v)), ..st.drawing },
            pending: None,
        }),
{
    lemma_ucs_joined(xs, v);
    lemma_ucs_shaped(xs, v);
    lemma_ucs_fold(st.drawing, xs, v);
    lemma_table_kinds();
    lemma_table_run(ps, ucs_type_word(), xs.len() as int, ucs_item_runs(xs, v), v, o, st);
}

/// The runs of pairs written for some app id items, one per item.
pub open spec fn app_id_item_runs(xs: Seq<NamedModel>, v: AcadVersion) -> Seq<Seq<PairView>> {
    xs.map_values(|x: NamedModel| crate::writer::app_id_item_pairs(x, v))
}

proof fn lemma_app_id_joined(xs: Seq<NamedModel>, v: AcadVersion)
    ensures
        joined(app_id_item_runs(xs, v)) == crate::writer::app_id_items_pairs(xs, v),
    decreases xs.len(),
{
    if xs.len() > 0 {
        lemma_app_id_joined(xs.drop_last(), v);
        assert(app_id_item_runs(xs, v).drop_last() =~= app_id_item_runs(xs.drop_last(), v));
    } else {
        assert(app_id_item_runs(xs, v) =~= Seq::<Seq<PairView>>::empty());
    }
}

proof fn lemma_app_id_shaped(xs: Seq<NamedModel>, v: AcadVersion)
    requires
        forall|i: int| 0 <= i < xs.len() ==> { let x = #[trigger] xs[i]; version_at_least(v, AcadVersion::R14) ==> groups_clean(x.groups) },
    ensures
        forall|t: int| 0 <= t < xs.len() ==> item_shaped(#[trigger] app_id_item_runs(xs, v)[t], TableKind::AppId),
{
    assert forall|t: int| 0 <= t < xs.len() implies item_shaped(#[trigger] app_id_item_runs(xs, v)[t], TableKind::AppId) by {
        let x = xs[t];
        let tail = header_tail(x.handle, x.groups, x.name, app_id_subclass(), v);
        let body = Seq::<PairView>::empty();
        lemma_item_header(app_id_type_word(), app_id_subclass(), x.handle, x.groups, x.name, v);
        lemma_header_codes(x.handle, x.groups, x.name, app_id_subclass(), v);
        assert(no_zero_code(body));
        lemma_no_zero_append(tail, body);
        assert(crate::writer::app_id_item_pairs(x, v) =~= seq![str_pair(0, item_word(TableKind::AppId))] + (tail + body));
        lemma_item_shaped(TableKind::AppId, tail + body);
    }
}

proof fn lemma_app_id_fold(d: DrawingModel, xs: Seq<NamedModel>, v: AcadVersion)
    requires
        forall|i: int| 0 <= i < xs.len() ==> { let x = #[trigger] xs[i]; version_at_least(v, AcadVersion::R14) ==> groups_clean(x.groups) },
    ensures
        fold_bodies(d, TableKind::AppId, app_id_item_runs(xs, v)) == Ok::<DrawingModel, DxfError>(
            DrawingModel { app_ids: d.app_ids + xs.map_values(|x: NamedModel| app_id_read_back(x, v)), ..d },
        ),
    decreases xs.len(),
{
    if xs.len() == 0 {
        assert(d.app_ids + xs.map_values(|x: NamedModel| app_id_read_back(x, v)) =~= d.app_ids);
        assert(app_id_item_runs(xs, v) =~= Seq::<Seq<PairView>>::empty());
        assert(DrawingModel { app_ids: d.app_ids + xs.map_values(|x: NamedModel| app_id_read_back(x, v)), ..d } =~= d);
    } else {
        lemma_app_id_fold(d, xs.drop_last(), v);
        assert(app_id_item_runs(xs, v).drop_last() =~= app_id_item_runs(xs.drop_last(), v));
        let x = xs.last();
        assert({ let x = xs[xs.len() - 1]; version_at_least(v, AcadVersion::R14) ==> groups_clean(x.groups) });
        lemma_clean_is_plain(x.groups);
        app_id_write_read_law(x, v);
        let body = crate::writer::app_id_item_pairs(x, v).drop_first();
        assert(body.subrange(0, body.len() as int) =~= body);
        assert(app_id_item_runs(xs, v).last() == crate::writer::app_id_item_pairs(x, v));
        assert((d.app_ids + xs.drop_last().map_values(|x: NamedModel| app_id_read_back(x, v))).push(app_id_read_back(x, v)) =~= d.app_ids + xs.map_values(|x: NamedModel| app_id_read_back(x, v)));
    }
}

/// Reading the app id table written for the items `xs` adds them.
proof fn lemma_app_id_table(ps: Seq<PairView>, xs: Seq<NamedModel>, v: AcadVersion, o: int, st: ReadState)
    requires
        st.phase == Phase::Tables,
        holds_at(ps, o, table_pairs(app_id_type_word(), xs.len() as int, crate::writer::app_id_items_pairs(xs, v), v)),
        forall|i: int| 0 <= i < xs.len() ==> { let x = #[trigger] xs[i]; version_at_least(v, AcadVersion::R14) ==> groups_clean(x.groups) },
    ensures
        run_until(ps, o, o + table_pairs(app_id_type_word(), xs.len() as int, crate::writer::app_id_items_pairs(xs, v), v).len(), st)
            == Ok::<ReadState, DxfError>(ReadState {
            phase: Phase::Tables,
            drawing: DrawingModel { app_ids: st.drawing.app_ids + xs.map_values(|x: NamedModel| app_id_read_back(x, v)), ..st.drawing },
            pending: None,
        }),
{
    lemma_app_id_joined(xs, v);
    lemma_app_id_shaped(xs, v);
    lemma_app_id_fold(st.drawing, xs, v);
    lemma_table_kinds();
    lemma_table_run(ps, app_id_type_word(), xs.len() as int, app_id_item_runs(xs, v), v, o, st);
}

/// The runs of pairs written for some block record items, one per item.
pub open spec fn block_record_item_runs(xs: Seq<NamedModel>, v: AcadVersion) -> Seq<Seq<PairView>> {
    xs.map_values(|x: NamedModel| crate::writer::block_record_item_pairs(x, v))
}

proof fn lemma_block_record_joined(xs: Seq<NamedModel>, v: AcadVersion)
    ensures
        joined(block_record_item_runs(xs, v)) == crate::writer::block_record_items_pairs(xs, v),
    decreases xs.len(),
{
    if xs.len() > 0 {
        lemma_block_record_joined(xs.drop_last(), v);
        assert(block_record_item_runs(xs, v).drop_last() =~= block_record_item_runs(xs.drop_last(), v));
    } else {
        assert(block_record_item_runs(xs, v) =~= Seq::<Seq<PairView>>::empty());
    }
}

proof fn lemma_block_record_shaped(xs: Seq<NamedModel>, v: AcadVersion)
    requires
        forall|i: int| 0 <= i < xs.len() ==> { let x = #[trigger] xs[i]; version_at_least(v, AcadVersion::R14) ==> groups_clean(x.groups) },
    ensures
        forall|t: int| 0 <= t < xs.len() ==> item_shaped(#[trigger] block_record_item_runs(xs, v)[t], TableKind::BlockRecord),
{
    assert forall|t: int| 0 <= t < xs.len() implies item_shaped(#[trigger] block_record_item_runs(xs, v)[t], TableKind::BlockRecord) by {
        let x = xs[t];
        let tail = header_tail(x.handle, x.groups, x.name, block_record_subclass(), v);
        let body = Seq::<PairView>::empty();
        lemma_item_header(block_record_type_word(), block_record_subclass(), x.handle, x.groups, x.name, v);
        lemma_header_codes(x.handle, x.groups, x.name, block_record_subclass(), v);
        assert(no_zero_code(body));
        lemma_no_zero_append(tail, body);
        assert(crate::writer::block_record_item_pairs(x, v) =~= seq![str_pair(0, item_word(TableKind::BlockRecord))] + (tail + body));
        lemma_item_shaped(TableKind::BlockRecord, tail + body);
    }
}

proof fn lemma_block_record_fold(d: DrawingModel, xs: Seq<NamedModel>, v: AcadVersion)
    requires
        forall|i: int| 0 <= i < xs.len() ==> { let x = #[trigger] xs[i]; version_at_least(v, AcadVersion::R14) ==> groups_clean(x.groups) },
    ensures
        fold_bodies(d, TableKind::BlockRecord, block_record_item_runs(xs, v)) == Ok::<DrawingModel, DxfError>(
            DrawingModel { block_records: d.block_records + xs.map_values(|x: NamedModel| block_record_read_back(x, v)), ..d },
        ),
    decreases xs.len(),
{
    if xs.len() == 0 {
        assert(d.block_records + xs.map_values(|x: NamedModel| block_record_read_back(x, v)) =~= d.block_records);
        assert(block_record_item_runs(xs, v) =~= Seq::<Seq<PairView>>::empty());
        assert(DrawingModel { block_records: d.block_records + xs.map_values(|x: NamedModel| block_record_read_back(x, v)), ..d } =~= d);
    } else {
        lemma_block_record_fold(d, xs.drop_last(), v);
        assert(block_record_item_runs(xs, v).drop_last() =~= block_record_item_runs(xs.drop_last(), v));
        let x = xs.last();
        assert({ let x = xs[xs.len() - 1]; version_at_least(v, AcadVersion::R14) ==> groups_clean(x.groups) });
        lemma_clean_is_plain(x.groups);
        block_record_write_read_law(x, v);
        let body = crate::writer::block_record_item_pairs(x, v).drop_first();
        assert(body.subrange(0, body.len() as int) =~= body);
        assert(block_record_item_runs(xs, v).last() == crate::writer::block_record_item_pairs(x, v));
        assert((d.block_records + xs.drop_last().map_values(|x: NamedModel| block_record_read_back(x, v))).push(block_record_read_back(x, v)) =~= d.block_records + xs.map_values(|x: NamedModel| block_record_read_back(x, v)));
    }
}

/// Reading the block record table written for the items `xs` adds them.
proof fn lemma_block_record_table(ps: Seq<PairView>, xs: Seq<NamedModel>, v: AcadVersion, o: int, st: ReadState)
    requires
        st.phase == Phase::Tables,
        holds_at(ps, o, table_pairs(block_record_type_word(), xs.len() as int, crate::writer::block_record_items_pairs(xs, v), v)),
        forall|i: int| 0 <= i < xs.len() ==> { let x = #[trigger] xs[i]; version_at_least(v, AcadVersion::R14) ==> groups_clean(x.groups) },
    ensures
        run_until(ps, o, o + table_pairs(block_record_type_word(), xs.len() as int, crate::writer::block_record_items_pairs(xs, v), v).len(), st)
            == Ok::<ReadState, DxfError>(ReadState {
            phase: Phase::Tables,
            drawing: DrawingModel { block_records: st.drawing.block_records + xs.map_values(|x: NamedModel| block_record_read_back(x, v)), ..st.drawing },
            pending: None,
        }),
{
    lemma_block_record_joined(xs, v);
    lemma_block_record_shaped(xs, v);
    lemma_block_record_fold(st.drawing, xs, v);
    lemma_table_kinds();
    lemma_table_run(ps, block_record_type_word(), xs.len() as int, block_record_item_runs(xs, v), v, o, st);
}

/// Each table's name gives its kind.
proof fn lemma_table_kinds()
    ensures
        table_kind(view_port_type_word()) == TableKind::ViewPort,
        table_kind(line_type_type_word()) == TableKind::LineType,
        table_kind(layer_type_word()) == TableKind::Layer,
        table_kind(style_type_word()) == TableKind::Style,
        table_kind(view_type_word()) == TableKind::View,
        table_kind(ucs_type_word()) == TableKind::Ucs,
        table_kind(app_id_type_word()) == TableKind::AppId,
        table_kind(block_record_type_word()) == TableKind::BlockRecord,
{
    assert(line_type_type_word()[0] != view_port_type_word()[0]);
    assert(layer_type_word()[0] != view_port_type_word()[0]);
    assert(layer_type_word()[1] != line_type_type_word()[1]);
    assert(style_type_word()[0] != view_port_type_word()[0]);
    assert(style_type_word()[0] != line_type_type_word()[0]);
    assert(style_type_word()[0] != layer_type_word()[0]);
    assert(view_type_word().len() != view_port_type_word().len());
    assert(view_type_word().len() != line_type_type_word().len());
    assert(view_type_word().len() != layer_type_word().len());
    assert(view_type_word().len() != style_type_word().len());
    assert(ucs_type_word().len() != view_port_type_word().len());
    assert(ucs_type_word().len() != line_type_type_word().len());
    assert(ucs_type_word().len() != layer_type_word().len());
    assert(ucs_type_word().len() != style_type_word().len());
    assert(ucs_type_word().len() != view_type_word().len());
    assert(app_id_type_word()[0] != view_port_type_word()[0]);
    assert(app_id_type_word()[0] != line_type_type_word()[0]);
    assert(app_id_type_word()[0] != layer_type_word()[0]);
    assert(app_id_type_word()[0] != style_type_word()[0]);
    assert(app_id_type_word().len() != view_type_word().len());
    assert(app_id_type_word().len() != ucs_type_word().len());
    assert(block_record_type_word().len() != view_port_type_word().len());
    assert(block_record_type_word().len() != line_type_type_word().len());
    assert(block_record_type_word().len() != layer_type_word().len());
    assert(block_record_type_word().len() != style_type_word().len());
    assert(block_record_type_word().len() != view_type_word().len());
    assert(block_record_type_word().len() != ucs_type_word().len());
    assert(block_record_type_word().len() != app_id_type_word().len());
}

/// Clean groups are plain.
proof fn lemma_clean_is_plain(gs: Seq<GroupModel>)
    ensures
        groups_clean(gs) ==> groups_plain(gs),
{
}

proof fn lemma_no_zero_append(a: Seq<PairView>, b: Seq<PairView>)
    requires
        no_zero_code(a),
        no_zero_code(b),
    ensures
        no_zero_code(a + b),
{
    assert forall|m: int| 0 <= m < (a + b).len() implies (#[trigger] (a + b)[m]).code != 0 by {
        if m < a.len() {
            assert((a + b)[m] == a[m]);
        } else {
            assert((a + b)[m] == b[m - a.len()]);
        }
    }
}

/// An item header has no pair of code 0 after its type pair, where its
/// extension data has none.
proof fn lemma_header_codes(h: u64, groups: Seq<GroupModel>, name: Seq<char>, subclass: Seq<char>, v: AcadVersion)
    requires
        version_at_least(v, AcadVersion::R14) ==> forall|i: int| 0 <= i < groups.len() ==> no_zero_code(#[trigger] groups[i].items),
    ensures
        no_zero_code(header_tail(h, groups, name, subclass, v)),
{
    let a = seq![str_pair(5, hex_upper(h as nat))];
    let g = if version_at_least(v, AcadVersion::R14) {
        groups_pairs(groups)
    } else {
        Seq::empty()
    };
    let b = if version_at_least(v, AcadVersion::R13) {
        seq![str_pair(100, symbol_table_record()), str_pair(100, subclass)]
    } else {
        Seq::empty()
    };
    let c = seq![str_pair(2, name), short_pair(70, 0)];
    assert(no_zero_code(a));
    if version_at_least(v, AcadVersion::R14) {
        lemma_groups_codes(groups);
    }
    assert(no_zero_code(g));
    assert(no_zero_code(b));
    assert(no_zero_code(c));
    lemma_no_zero_append(a, g);
    lemma_no_zero_append(a + g, b);
    lemma_no_zero_append(a + g + b, c);
}

/// A run that starts with an item's type pair and has no other pair of code 0
/// is shaped as an item.
proof fn lemma_item_shaped(k: TableKind, rest: Seq<PairView>)
    requires
        no_zero_code(rest),
    ensures
        item_shaped(seq![str_pair(0, item_word(k))] + rest, k),
{
    let w = seq![str_pair(0, item_word(k))] + rest;
    assert forall|m: int| 1 <= m < w.len() implies (#[trigger] w[m]).code != 0 by {
        assert(w[m] == rest[m - 1]);
    }
}

/// The pairs written for a layer's extension data have no pair of code 0 where
/// the groups' items have none.
proof fn lemma_groups_codes(gs: Seq<GroupModel>)
    requires
        forall|i: int| 0 <= i < gs.len() ==> no_zero_code(#[trigger] gs[i].items),
    ensures
        no_zero_code(groups_pairs(gs)),
    decreases gs.len(),
{
    if gs.len() > 0 {
        lemma_groups_codes(gs.drop_last());
        let g = gs.last();
        assert(no_zero_code(gs[gs.len() - 1].items));
        let a = seq![str_pair(102, seq!['{'] + g.application_name)];
        let c = seq![str_pair(102, seq!['}'])];
        assert(no_zero_code(a));
        assert(no_zero_code(c));
        lemma_no_zero_append(a, g.items);
        lemma_no_zero_append(a + g.items, c);
        assert(group_pairs(g) == a + g.items + c);
        lemma_no_zero_append(groups_pairs(gs.drop_last()), group_pairs(g));
    }
}

/// The pairs written for line type elements have no pair of code 0.
proof fn lemma_elements_codes(es: Seq<ElementModel>, v: AcadVersion)
    ensures
        no_zero_code(elements_pairs(es, v)),
    decreases es.len(),
{
    if es.len() > 0 {
        lemma_elements_codes(es.drop_last(), v);
        let e = es.last();
        let a = seq![real_pair(49, e.dash_dot_space_length)];
        assert(no_zero_code(a));
        if version_at_least(v, AcadVersion::R13) {
            let parts = seq![short_pair(74, e.complex_line_type_element_type)] + shape_pairs(e) + style_handle_pairs(e)
                + opt_real_pair(46, e.scale_value) + opt_real_pair(50, e.rotation_angle)
                + opt_real_pair(44, e.x_offset) + opt_real_pair(45, e.y_offset) + text_pairs(e);
            assert(no_zero_code(seq![short_pair(74, e.complex_line_type_element_type)]));
            assert(no_zero_code(shape_pairs(e)));
            assert(no_zero_code(style_handle_pairs(e)));
            assert(no_zero_code(opt_real_pair(46, e.scale_value)));
            assert(no_zero_code(opt_real_pair(50, e.rotation_angle)));
            assert(no_zero_code(opt_real_pair(44, e.x_offset)));
            assert(no_zero_code(opt_real_pair(45, e.y_offset)));
            assert(no_zero_code(text_pairs(e)));
            lemma_no_zero_append(seq![short_pair(74, e.complex_line_type_element_type)], shape_pairs(e));
            lemma_no_zero_append(seq![short_pair(74, e.complex_line_type_element_type)] + shape_pairs(e), style_handle_pairs(e));
            lemma_no_zero_append(seq![short_pair(74, e.complex_line_type_element_type)] + shape_pairs(e) + style_handle_pairs(e), opt_real_pair(46, e.scale_value));
            lemma_no_zero_append(seq![short_pair(74, e.complex_line_type_element_type)] + shape_pairs(e) + style_handle_pairs(e)
                + opt_real_pair(46, e.scale_value), opt_real_pair(50, e.rotation_angle));
            lemma_no_zero_append(seq![short_pair(74, e.complex_line_type_element_type)] + shape_pairs(e) + style_handle_pairs(e)
                + opt_real_pair(46, e.scale_value) + opt_real_pair(50, e.rotation_angle), opt_real_pair(44, e.x_offset));
            lemma_no_zero_append(seq![short_pair(74, e.complex_line_type_element_type)] + shape_pairs(e) + style_handle_pairs(e)
                + opt_real_pair(46, e.scale_value) + opt_real_pair(50, e.rotation_angle)
                + opt_real_pair(44, e.x_offset), opt_real_pair(45, e.y_offset));
            lemma_no_zero_append(seq![short_pair(74, e.complex_line_type_element_type)] + shape_pairs(e) + style_handle_pairs(e)
                + opt_real_pair(46, e.scale_value) + opt_real_pair(50, e.rotation_angle)
                + opt_real_pair(44, e.x_offset) + opt_real_pair(45, e.y_offset), text_pairs(e));
            assert(element_extra_pairs(e) == parts);
            lemma_no_zero_append(a, parts);
            assert(element_pairs(e, v) == a + parts);
        } else {
            assert(element_pairs(e, v) =~= a);
        }
        lemma_no_zero_append(elements_pairs(es.drop_last(), v), element_pairs(e, v));
    }
}

/// The pairs that start a table: its type, its name, from R13 on its subclass
/// marker, and its item count.
pub open spec fn table_head(name: Seq<char>, count: int, v: AcadVersion) -> Seq<PairView> {
    seq![str_pair(0, table_word()), str_pair(2, name)] + (if version_at_least(v, AcadVersion::R13) {
        seq![str_pair(100, symbol_table())]
    } else {
        Seq::empty()
    }) + seq![short_pair(70, count as i16)]
}

/// A table is its head, its items and its end.
proof fn lemma_table_parts(name: Seq<char>, count: int, items: Seq<PairView>, v: AcadVersion)
    ensures
        table_pairs(name, count, items, v) == table_head(name, count, v) + items + seq![str_pair(0, endtab_word())],
{
    assert(table_pairs(name, count, items, v) =~= table_head(name, count, v) + items + seq![str_pair(0, endtab_word())]);
}

/// Where `ps` holds `t` from position `o` on.
pub open spec fn holds_at(ps: Seq<PairView>, o: int, t: Seq<PairView>) -> bool {
    0 <= o && o + t.len() <= ps.len() && ps.subrange(o, o + t.len()) == t
}

/// Of a run held at `o`, its first part is held at `o` and its second part
/// right after.
proof fn lemma_holds_split(ps: Seq<PairView>, o: int, a: Seq<PairView>, b: Seq<PairView>)
    requires
        holds_at(ps, o, a + b),
    ensures
        holds_at(ps, o, a),
        holds_at(ps, o + a.len(), b),
{
    assert(ps.subrange(o, o + a.len()) =~= a) by {
        assert forall|m: int| 0 <= m < a.len() implies ps.subrange(o, o + a.len())[m] == a[m] by {
            assert(ps.subrange(o, o + (a + b).len())[m] == (a + b)[m]);
        }
    }
    assert(ps.subrange(o + a.len(), o + a.len() + b.len()) =~= b) by {
        assert forall|m: int| 0 <= m < b.len() implies ps.subrange(o + a.len(), o + a.len() + b.len())[m]
            == b[m] by {
            assert(ps.subrange(o, o + (a + b).len())[a.len() + m] == (a + b)[a.len() + m]);
        }
    }
}

/// A run held at `o` gives the pairs there.
proof fn lemma_holds_index(ps: Seq<PairView>, o: int, t: Seq<PairView>, m: int)
    requires
        holds_at(ps, o, t),
        0 <= m < t.len(),
    ensures
        ps[o + m] == t[m],
{
    assert(ps.subrange(o, o + t.len())[m] == t[m]);
}

/// Reading the head of a table enters it, with no item pending.
proof fn lemma_table_head_run(ps: Seq<PairView>, name: Seq<char>, count: int, v: AcadVersion, o: int, st: ReadState)
    requires
        st.phase == Phase::Tables,
        holds_at(ps, o, table_head(name, count, v)),
    ensures
        run_until(ps, o, o + table_head(name, count, v).len(), st) == Ok::<ReadState, DxfError>(
            ReadState { phase: Phase::Table(table_kind(name)), pending: None, ..st },
        ),
{
    let head = table_head(name, count, v);
    let hl = head.len() as int;
    lemma_holds_index(ps, o, head, 0);
    lemma_holds_index(ps, o, head, 1);
    let st1 = ReadState { phase: Phase::TableName, ..st };
    let st2 = ReadState { phase: Phase::Table(table_kind(name)), pending: None, ..st };
    assert(read_step(ps, o, st) == Ok::<ReadState, DxfError>(st1));
    assert(read_step(ps, o + 1, st1) == Ok::<ReadState, DxfError>(st2));
    assert(run_until(ps, o, o + 2, st) == Ok::<ReadState, DxfError>(st2)) by {
        assert(run_until(ps, o + 2, o + 2, st2) == Ok::<ReadState, DxfError>(st2));
        assert(run_until(ps, o + 1, o + 2, st1) == Ok::<ReadState, DxfError>(st2));
    }
    assert forall|m: int| o + 2 <= m < o + hl implies (#[trigger] ps[m]).code != 0 by {
        lemma_holds_index(ps, o, head, m - o);
    }
    lemma_run_quiet(ps, o + 2, o + hl, st2);
    lemma_run_compose(ps, o, o + 2, o + hl, st);
}

/// At the end of a table the pending item is added and the reading is between
/// tables again.
proof fn lemma_table_end_step(ps: Seq<PairView>, k: TableKind, d: DrawingModel, s1: int, e: int, body: Seq<PairView>)
    requires
        k != TableKind::Other,
        0 <= e < ps.len(),
        ps[e] == str_pair(0, endtab_word()),
        ps.subrange(s1, e) == body,
    ensures
        read_step(ps, e, ReadState { phase: Phase::Table(k), drawing: d, pending: Some(s1) }) == match finish_body(
            d,
            k,
            body,
        ) {
            Ok(d3) => Ok(ReadState { phase: Phase::Tables, drawing: d3, pending: None }),
            Err(x) => Err(x),
        },
{
    lemma_finish_item_body(d, k, s1, ps, e);
}

/// Reading a whole table written with the items `w`: afterwards the items
/// have been added and the reading is between tables again.
proof fn lemma_table_run(
    ps: Seq<PairView>,
    name: Seq<char>,
    count: int,
    w: Seq<Seq<PairView>>,
    v: AcadVersion,
    o: int,
    st: ReadState,
)
    requires
        table_kind(name) != TableKind::Other,
        st.phase == Phase::Tables,
        holds_at(ps, o, table_pairs(name, count, joined(w), v)),
        forall|t: int| 0 <= t < w.len() ==> item_shaped(#[trigger] w[t], table_kind(name)),
    ensures
        run_until(ps, o, o + table_pairs(name, count, joined(w), v).len(), st) == match fold_bodies(
            st.drawing,
            table_kind(name),
            w,
        ) {
            Ok(d2) => Ok(ReadState { phase: Phase::Tables, drawing: d2, pending: None }),
            Err(e) => Err(e),
        },
{
    let k = table_kind(name);
    let head = table_head(name, count, v);
    let j = joined(w);
    let close = seq![str_pair(0, endtab_word())];
    let hl = head.len() as int;
    let jl = j.len() as int;
    let e = o + hl + jl;
    lemma_table_parts(name, count, j, v);
    lemma_holds_split(ps, o, head + j, close);
    lemma_holds_split(ps, o, head, j);
    lemma_holds_index(ps, e, close, 0);
    lemma_table_head_run(ps, name, count, v, o, st);
    let st2 = ReadState { phase: Phase::Table(k), pending: None, ..st };
    lemma_items_run(ps, k, w, o + hl, st2);
    lemma_run_compose(ps, o, o + hl, e, st);
    lemma_run_compose(ps, o, e, e + 1, st);
    if w.len() == 0 {
        assert(w =~= Seq::<Seq<PairView>>::empty());
        assert(fold_bodies(st.drawing, k, w) == Ok::<DrawingModel, DxfError>(st.drawing));
        lemma_item_word_not_endtab(k);
        let st3 = ReadState { phase: Phase::Tables, drawing: st.drawing, pending: None };
        assert(read_step(ps, e, st2) == Ok::<ReadState, DxfError>(st3));
        assert(run_until(ps, e, e + 1, st2) == Ok::<ReadState, DxfError>(st3)) by {
            assert(run_until(ps, e + 1, e + 1, st3) == Ok::<ReadState, DxfError>(st3));
        }
    } else {
        let w1 = w.drop_last();
        let s1 = o + hl + joined(w1).len() + 1;
        assert(j == joined(w1) + w.last());
        lemma_holds_split(ps, o + hl, joined(w1), w.last());
        assert(ps.subrange(s1, e) =~= w.last().drop_first()) by {
            assert forall|m: int| 0 <= m < w.last().len() - 1 implies ps.subrange(s1, e)[m]
                == w.last().drop_first()[m] by {
                lemma_holds_index(ps, o + hl + joined(w1).len(), w.last(), m + 1);
            }
        }
        match fold_bodies(st.drawing, k, w1) {
            Ok(d2) => {
                let s2 = ReadState { phase: Phase::Table(k), drawing: d2, pending: Some(s1) };
                lemma_table_end_step(ps, k, d2, s1, e, w.last().drop_first());
                match finish_body(d2, k, w.last().drop_first()) {
                    Ok(d3) => {
                        let st3 = ReadState { phase: Phase::Tables, drawing: d3, pending: None };
                        assert(run_until(ps, e, e + 1, s2) == Ok::<ReadState, DxfError>(st3)) by {
                            assert(run_until(ps, e + 1, e + 1, st3) == Ok::<ReadState, DxfError>(st3));
                        }
                    },
                    Err(x) => {},
                }
            },
            Err(x) => {},
        }
    }
}

//------------------------------------------------------------------------------
//                                                        reading a whole drawing
//------------------------------------------------------------------------------

/// The reading from position `i` up to position `j`, step by step.
pub open spec fn run_until(ps: Seq<PairView>, i: int, j: int, st: ReadState) -> Result<ReadState, DxfError>
    decreases j - i,
{
    if i >= j {
        Ok(st)
    } else {
        match read_step(ps, i, st) {
            Ok(s2) => run_until(ps, i + 1, j, s2),
            Err(e) => Err(e),
        }
    }
}

/// Reading from `i` to the end is reading from `i` to `j`, then from `j` on.
proof fn lemma_run_split(ps: Seq<PairView>, i: int, j: int, st: ReadState)
    requires
        0 <= i <= j <= ps.len(),
    ensures
        read_run(ps, i, st) == match run_until(ps, i, j, st) {
            Ok(s) => read_run(ps, j, s),
            Err(e) => Err(e),
        },
    decreases j - i,
{
    if i < j {
        match read_step(ps, i, st) {
            Ok(s2) => lemma_run_split(ps, i + 1, j, s2),
            Err(e) => {},
        }
    }
}

/// Reading from `i` to `k` is reading from `i` to `j`, then from `j` to `k`.
proof fn lemma_run_compose(ps: Seq<PairView>, i: int, j: int, k: int, st: ReadState)
    requires
        i <= j <= k,
    ensures
        run_until(ps, i, k, st) == match run_until(ps, i, j, st) {
            Ok(s) => run_until(ps, j, k, s),
            Err(e) => Err(e),
        },
    decreases j - i,
{
    if i < j {
        match read_step(ps, i, st) {
            Ok(s2) => lemma_run_compose(ps, i + 1, j, k, s2),
            Err(e) => {},
        }
    }
}

/// Inside a table, pairs of a code other than 0 change nothing.
proof fn lemma_run_quiet(ps: Seq<PairView>, i: int, j: int, st: ReadState)
    requires
        st.phase is Table,
        forall|m: int| i <= m < j ==> (#[trigger] ps[m]).code != 0,
    ensures
        run_until(ps, i, j, st) == Ok::<ReadState, DxfError>(st),
    decreases j - i,
{
    if i < j {
        lemma_run_quiet(ps, i + 1, j, st);
    }
}

/// The drawing with the item that `body` describes added to the table of kind
/// `k`; an item that cannot be read is an error.
pub open spec fn finish_body(d: DrawingModel, k: TableKind, body: Seq<PairView>) -> Result<DrawingModel, DxfError> {
    finish_item(d, k, Some(0), body, body.len() as int)
}

/// The drawing after adding the items that the bodies `w[t].drop_first()`
/// describe, in order.
pub open spec fn fold_bodies(d: DrawingModel, k: TableKind, w: Seq<Seq<PairView>>) -> Result<DrawingModel, DxfError>
    decreases w.len(),
{
    if w.len() == 0 {
        Ok(d)
    } else {
        match fold_bodies(d, k, w.drop_last()) {
            Ok(d2) => finish_body(d2, k, w.last().drop_first()),
            Err(e) => Err(e),
        }
    }
}

/// Some runs of pairs, one after the other.
pub open spec fn joined(w: Seq<Seq<PairView>>) -> Seq<PairView>
    decreases w.len(),
{
    if w.len() == 0 {
        Seq::empty()
    } else {
        joined(w.drop_last()) + w.last()
    }
}

/// Whether `w` is written as an item of a table of kind `k`: its type pair, then
/// pairs of codes other than 0.
pub open spec fn item_shaped(w: Seq<PairView>, k: TableKind) -> bool {
    &&& w.len() > 0
    &&& w[0] == str_pair(0, item_word(k))
    &&& forall|m: int| 1 <= m < w.len() ==> (#[trigger] w[m]).code != 0
}

/// No item type is `ENDTAB`.
proof fn lemma_item_word_not_endtab(k: TableKind)
    requires
        k != TableKind::Other,
    ensures
        item_word(k) != endtab_word(),
{
    assert(item_word(k).len() != endtab_word().len());
}

/// Finishing an item reads the pairs between its type pair and the next pair
/// of code 0.
proof fn lemma_finish_item_body(d: DrawingModel, k: TableKind, s: int, ps: Seq<PairView>, i: int)
    ensures
        finish_item(d, k, Some(s), ps, i) == finish_body(d, k, ps.subrange(s, i)),
{
    let body = ps.subrange(s, i);
    assert(body.subrange(0, body.len() as int) =~= body);
}

/// Reading the items of a table: after the items `w`, the last one is pending
/// and the others have been added.
proof fn lemma_items_run(ps: Seq<PairView>, k: TableKind, w: Seq<Seq<PairView>>, o: int, st: ReadState)
    requires
        k != TableKind::Other,
        st.phase == Phase::Table(k),
        st.pending is None,
        0 <= o,
        o + joined(w).len() <= ps.len(),
        ps.subrange(o, o + joined(w).len()) == joined(w),
        forall|t: int| 0 <= t < w.len() ==> item_shaped(#[trigger] w[t], k),
    ensures
        w.len() == 0 ==> run_until(ps, o, o + joined(w).len(), st) == Ok::<ReadState, DxfError>(st),
        w.len() > 0 ==> run_until(ps, o, o + joined(w).len(), st) == match fold_bodies(
            st.drawing,
            k,
            w.drop_last(),
        ) {
            Ok(d2) => Ok(ReadState {
                phase: Phase::Table(k),
                drawing: d2,
                pending: Some(o + joined(w.drop_last()).len() + 1),
            }),
            Err(e) => Err(e),
        },
    decreases w.len(),
{
    if w.len() > 0 {
        let w1 = w.drop_last();
        let l1 = joined(w1).len() as int;
        let x = w.last();
        let l = joined(w).len() as int;
        assert(joined(w) == joined(w1) + x);
        assert(ps.subrange(o, o + l1) =~= joined(w1)) by {
            assert forall|m: int| 0 <= m < l1 implies ps.subrange(o, o + l1)[m] == joined(w1)[m] by {
                assert(ps.subrange(o, o + l)[m] == joined(w)[m]);
            }
        }
        assert forall|t: int| 0 <= t < w1.len() implies item_shaped(#[trigger] w1[t], k) by {
            assert(w1[t] == w[t]);
        }
        lemma_items_run(ps, k, w1, o, st);
        lemma_run_compose(ps, o, o + l1, o + l, st);
        assert(item_shaped(w[w.len() - 1], k));
        assert forall|m: int| 0 <= m < x.len() implies ps[o + l1 + m] == #[trigger] x[m] by {
            assert(ps.subrange(o, o + l)[l1 + m] == joined(w)[l1 + m]);
        }
        assert(ps[o + l1] == str_pair(0, item_word(k)));
        assert forall|m: int| o + l1 + 1 <= m < o + l implies (#[trigger] ps[m]).code != 0 by {
            assert(ps[o + l1 + (m - o - l1)] == x[m - o - l1]);
        }
        lemma_item_word_not_endtab(k);
        let after = ReadState { phase: Phase::Table(k), drawing: st.drawing, pending: Some(o + l1 + 1) };
        if w1.len() == 0 {
            assert(w1 =~= Seq::<Seq<PairView>>::empty());
            assert(fold_bodies(st.drawing, k, w1) == Ok::<DrawingModel, DxfError>(st.drawing));
            assert(read_step(ps, o + l1, st) == Ok::<ReadState, DxfError>(after));
            lemma_run_quiet(ps, o + l1 + 1, o + l, after);
            assert(run_until(ps, o + l1, o + l, st) == run_until(ps, o + l1 + 1, o + l, after));
        } else {
            let w2 = w1.drop_last();
            let s1 = o + joined(w2).len() + 1;
            assert(joined(w1) == joined(w2) + w1.last());
            assert(ps.subrange(s1, o + l1) =~= w1.last().drop_first()) by {
                assert forall|m: int| 0 <= m < w1.last().len() - 1 implies ps.subrange(s1, o + l1)[m]
                    == w1.last().drop_first()[m] by {
                    assert(ps.subrange(o, o + l)[joined(w2).len() + 1 + m] == joined(w)[joined(w2).len() + 1 + m]);
                    assert(joined(w)[joined(w2).len() + 1 + m] == joined(w1)[joined(w2).len() + 1 + m]);
                }
            }
            match fold_bodies(st.drawing, k, w2) {
                Ok(d2) => {
                    let s2 = ReadState { phase: Phase::Table(k), drawing: d2, pending: Some(s1) };
                    lemma_finish_item_body(d2, k, s1, ps, o + l1);
                    match finish_body(d2, k, w1.last().drop_first()) {
                        Ok(d3) => {
                            let s3 = ReadState { phase: Phase::Table(k), drawing: d3, pending: Some(o + l1 + 1) };
                            assert(read_step(ps, o + l1, s2) == Ok::<ReadState, DxfError>(s3));
                            lemma_run_quiet(ps, o + l1 + 1, o + l, s3);
                            assert(run_until(ps, o + l1, o + l, s2) == run_until(ps, o + l1 + 1, o + l, s3));
                        },
                        Err(e) => {
                            assert(read_step(ps, o + l1, s2) == Err::<ReadState, DxfError>(e));
                        },
                    }
                },
                Err(e) => {},
            }
        }
    }
}

/// The line type with other elements.
pub open spec fn with_elements(lt: LineTypeModel, es: Seq<ElementModel>) -> LineTypeModel {
    LineTypeModel { line_elements: es, ..lt }
}

/// Whether reading back the pairs written for a line type element can give it
/// back: it has no text style handle and no rotation angle (neither of which
/// is read), and before R13, where only its length is written, nothing but a
/// length.
pub open spec fn element_plain(e: ElementModel, v: AcadVersion) -> bool {
    &&& e.styles_handle is None
    &&& e.rotation_angle is None
    &&& !version_at_least(v, AcadVersion::R13) ==> e == ElementModel {
        dash_dot_space_length: e.dash_dot_space_length,
        ..default_element()
    }
}

/// Reading an optional pair of code 46 sets that part of the last element.
proof fn lemma_element_scale(lt: LineTypeModel, pre: Seq<ElementModel>, cur: ElementModel, s: Option<Real>)
    requires
        lt.line_elements == pre.push(cur),
        cur.scale_value is None,
    ensures
        line_type_continue(Ok((lt, None)), opt_real_pair(46, s)) == Ok::<(LineTypeModel, Option<GroupModel>), DxfError>(
            (with_elements(lt, pre.push(ElementModel { scale_value: s, ..cur })), None),
        ),
{
    match s {
        None => {
            assert(ElementModel { scale_value: s, ..cur } == cur);
            assert(with_elements(lt, pre.push(cur)) == lt);
        },
        Some(r) => {
            let p = real_pair(46, r);
            assert(opt_real_pair(46, s) =~= Seq::<PairView>::empty().push(p));
            lemma_line_type_push(Ok((lt, None)), Seq::<PairView>::empty(), p);
            assert(lt.line_elements.last() == cur);
            assert(lt.line_elements.update(lt.line_elements.len() - 1, ElementModel { scale_value: s, ..cur })
                =~= pre.push(ElementModel { scale_value: s, ..cur }));
        },
    }
}

/// Reading an optional pair of code 44 sets that part of the last element.
proof fn lemma_element_x_offset(lt: LineTypeModel, pre: Seq<ElementModel>, cur: ElementModel, s: Option<Real>)
    requires
        lt.line_elements == pre.push(cur),
        cur.x_offset is None,
    ensures
        line_type_continue(Ok((lt, None)), opt_real_pair(44, s)) == Ok::<(LineTypeModel, Option<GroupModel>), DxfError>(
            (with_elements(lt, pre.push(ElementModel { x_offset: s, ..cur })), None),
        ),
{
    match s {
        None => {
            assert(ElementModel { x_offset: s, ..cur } == cur);
            assert(with_elements(lt, pre.push(cur)) == lt);
        },
        Some(r) => {
            let p = real_pair(44, r);
            assert(opt_real_pair(44, s) =~= Seq::<PairView>::empty().push(p));
            lemma_line_type_push(Ok((lt, None)), Seq::<PairView>::empty(), p);
            assert(lt.line_elements.last() == cur);
            assert(lt.line_elements.update(lt.line_elements.len() - 1, ElementModel { x_offset: s, ..cur })
                =~= pre.push(ElementModel { x_offset: s, ..cur }));
        },
    }
}

/// Reading an optional pair of code 45 sets that part of the last element.
proof fn lemma_element_y_offset(lt: LineTypeModel, pre: Seq<ElementModel>, cur: ElementModel, s: Option<Real>)
    requires
        lt.line_elements == pre.push(cur),
        cur.y_offset is None,
    ensures
        line_type_continue(Ok((lt, None)), opt_real_pair(45, s)) == Ok::<(LineTypeModel, Option<GroupModel>), DxfError>(
            (with_elements(lt, pre.push(ElementModel { y_offset: s, ..cur })), None),
        ),
{
    match s {
        None => {
            assert(ElementModel { y_offset: s, ..cur } == cur);
            assert(with_elements(lt, pre.push(cur)) == lt);
        },
        Some(r) => {
            let p = real_pair(45, r);
            assert(opt_real_pair(45, s) =~= Seq::<PairView>::empty().push(p));
            lemma_line_type_push(Ok((lt, None)), Seq::<PairView>::empty(), p);
            assert(lt.line_elements.last() == cur);
            assert(lt.line_elements.update(lt.line_elements.len() - 1, ElementModel { y_offset: s, ..cur })
                =~= pre.push(ElementModel { y_offset: s, ..cur }));
        },
    }
}

/// Reading the optional shape number pair sets the last element's shape number.
proof fn lemma_element_shape(lt: LineTypeModel, pre: Seq<ElementModel>, cur: ElementModel, e: ElementModel)
    requires
        lt.line_elements == pre.push(cur),
        cur.shape_number is None,
    ensures
        line_type_continue(Ok((lt, None)), shape_pairs(e)) == Ok::<(LineTypeModel, Option<GroupModel>), DxfError>(
            (with_elements(lt, pre.push(ElementModel { shape_number: e.shape_number, ..cur })), None),
        ),
{
    match e.shape_number {
        None => {
            assert(ElementModel { shape_number: e.shape_number, ..cur } == cur);
            assert(with_elements(lt, pre.push(cur)) == lt);
        },
        Some(n) => {
            let p = short_pair(75, n);
            assert(shape_pairs(e) =~= Seq::<PairView>::empty().push(p));
            lemma_line_type_push(Ok((lt, None)), Seq::<PairView>::empty(), p);
            assert(lt.line_elements.last() == cur);
            assert(lt.line_elements.update(lt.line_elements.len() - 1, ElementModel { shape_number: e.shape_number, ..cur })
                =~= pre.push(ElementModel { shape_number: e.shape_number, ..cur }));
        },
    }
}

/// Reading the optional text pair sets the last element's text.
proof fn lemma_element_text(lt: LineTypeModel, pre: Seq<ElementModel>, cur: ElementModel, e: ElementModel)
    requires
        lt.line_elements == pre.push(cur),
        cur.text_string is None,
    ensures
        line_type_continue(Ok((lt, None)), text_pairs(e)) == Ok::<(LineTypeModel, Option<GroupModel>), DxfError>(
            (with_elements(lt, pre.push(ElementModel { text_string: e.text_string, ..cur })), None),
        ),
{
    match e.text_string {
        None => {
            assert(ElementModel { text_string: e.text_string, ..cur } == cur);
            assert(with_elements(lt, pre.push(cur)) == lt);
        },
        Some(t) => {
            let p = str_pair(9, t);
            assert(text_pairs(e) =~= Seq::<PairView>::empty().push(p));
            lemma_line_type_push(Ok((lt, None)), Seq::<PairView>::empty(), p);
            assert(lt.line_elements.last() == cur);
            assert(lt.line_elements.update(lt.line_elements.len() - 1, ElementModel { text_string: e.text_string, ..cur })
                =~= pre.push(ElementModel { text_string: e.text_string, ..cur }));
        },
    }
}

/// Reading back the pairs written for one element appends it.
proof fn lemma_element_read(lt: LineTypeModel, e: ElementModel, v: AcadVersion)
    requires
        element_plain(e, v),
    ensures
        line_type_continue(Ok((lt, None)), element_pairs(e, v)) == Ok::<(LineTypeModel, Option<GroupModel>), DxfError>(
            (with_elements(lt, lt.line_elements.push(e)), None),
        ),
{
    let pre = lt.line_elements;
    let r = Ok::<(LineTypeModel, Option<GroupModel>), DxfError>((lt, None));
    let p49 = real_pair(49, e.dash_dot_space_length);
    let e0 = ElementModel { dash_dot_space_length: e.dash_dot_space_length, ..default_element() };
    let none = Seq::<PairView>::empty();
    lemma_line_type_push(r, none, p49);
    let lt1 = with_elements(lt, pre.push(e0));
    assert(line_type_continue(r, none.push(p49)) == Ok::<(LineTypeModel, Option<GroupModel>), DxfError>((lt1, None)));
    if version_at_least(v, AcadVersion::R13) {
        let p74 = short_pair(74, e.complex_line_type_element_type);
        let e1 = ElementModel { complex_line_type_element_type: e.complex_line_type_element_type, ..e0 };
        let lt2 = with_elements(lt, pre.push(e1));
        lemma_line_type_push(Ok((lt1, None)), none, p74);
        assert(lt1.line_elements.update(lt1.line_elements.len() - 1, e1) =~= pre.push(e1));
        assert(line_type_continue(Ok((lt1, None)), none.push(p74)) == Ok::<(LineTypeModel, Option<GroupModel>), DxfError>((lt2, None)));
        lemma_element_shape(lt2, pre, e1, e);
        let e2 = ElementModel { shape_number: e.shape_number, ..e1 };
        let lt3 = with_elements(lt, pre.push(e2));
        lemma_element_scale(lt3, pre, e2, e.scale_value);
        let e3 = ElementModel { scale_value: e.scale_value, ..e2 };
        let lt4 = with_elements(lt, pre.push(e3));
        lemma_element_x_offset(lt4, pre, e3, e.x_offset);
        let e4 = ElementModel { x_offset: e.x_offset, ..e3 };
        let lt5 = with_elements(lt, pre.push(e4));
        lemma_element_y_offset(lt5, pre, e4, e.y_offset);
        let e5 = ElementModel { y_offset: e.y_offset, ..e4 };
        let lt6 = with_elements(lt, pre.push(e5));
        lemma_element_text(lt6, pre, e5, e);
        let e6 = ElementModel { text_string: e.text_string, ..e5 };
        assert(e6 == e);
        let a = none.push(p49);
        let b = none.push(p74);
        let c = shape_pairs(e);
        let d = opt_real_pair(46, e.scale_value);
        let f = opt_real_pair(44, e.x_offset);
        let g = opt_real_pair(45, e.y_offset);
        let h = text_pairs(e);
        assert(style_handle_pairs(e) =~= none);
        assert(opt_real_pair(50, e.rotation_angle) =~= none);
        assert(element_pairs(e, v) =~= a + b + c + d + f + g + h);
        lemma_line_type_continue_append(r, a, b);
        lemma_line_type_continue_append(r, a + b, c);
        lemma_line_type_continue_append(r, a + b + c, d);
        lemma_line_type_continue_append(r, a + b + c + d, f);
        lemma_line_type_continue_append(r, a + b + c + d + f, g);
        lemma_line_type_continue_append(r, a + b + c + d + f + g, h);
    } else {
        assert(element_pairs(e, v) =~= none.push(p49));
        assert(e0 == e);
    }
}

/// Reading back the pairs written for some elements appends them in order.
proof fn lemma_elements_read(lt: LineTypeModel, es: Seq<ElementModel>, v: AcadVersion)
    requires
        forall|i: int| 0 <= i < es.len() ==> element_plain(#[trigger] es[i], v),
    ensures
        line_type_continue(Ok((lt, None)), elements_pairs(es, v)) == Ok::<(LineTypeModel, Option<GroupModel>), DxfError>(
            (with_elements(lt, lt.line_elements + es), None),
        ),
    decreases es.len(),
{
    if es.len() == 0 {
        assert(lt.line_elements + es =~= lt.line_elements);
        assert(with_elements(lt, lt.line_elements) == lt);
    } else {
        lemma_elements_read(lt, es.drop_last(), v);
        let y = with_elements(lt, lt.line_elements + es.drop_last());
        assert(element_plain(es[es.len() - 1], v));
        lemma_element_read(y, es.last(), v);
        lemma_line_type_continue_append(
            Ok((lt, None)),
            elements_pairs(es.drop_last(), v),
            element_pairs(es.last(), v),
        );
        assert((lt.line_elements + es.drop_last()).push(es.last()) =~= lt.line_elements + es);
    }
}

/// Reading back the pairs written for a line type item, after its type pair,
/// gives the line type back, with its extension data only from R14 on,
/// wherever its alignment code and element count fit in the 16 bits they are
/// written in and every element is `element_plain`; from R14 on, no
/// extension data item may be a group's closing pair.
pub proof fn line_type_write_read_law(x: LineTypeModel, v: AcadVersion)
    requires
        version_at_least(v, AcadVersion::R14) ==> groups_plain(x.groups),
        i16::MIN <= x.alignment_code <= i16::MAX,
        i16::MIN <= x.element_count <= i16::MAX,
        forall|i: int| 0 <= i < x.line_elements.len() ==> element_plain(#[trigger] x.line_elements[i], v),
    ensures
        line_type_of(line_type_item_pairs(x, v).drop_first()) == Ok::<LineTypeModel, DxfError>(line_type_read_back(x, v)),
{
    let tail = header_tail(x.handle, x.groups, x.name, line_type_subclass(), v);
    let p3 = str_pair(3, x.description);
    let p72 = short_pair(72, x.alignment_code as i16);
    let p73 = short_pair(73, x.element_count as i16);
    let p40 = real_pair(40, x.total_pattern_length);
    let e = Seq::<PairView>::empty();
    let fixed = e.push(p3).push(p72).push(p73).push(p40);
    let ep = elements_pairs(x.line_elements, v);
    lemma_item_header(line_type_type_word(), line_type_subclass(), x.handle, x.groups, x.name, v);
    assert(line_type_item_pairs(x, v).drop_first() =~= tail + fixed + ep);
    let r0 = Ok::<(LineTypeModel, Option<GroupModel>), DxfError>((default_line_type(), None));
    lemma_line_type_continue_append(r0, tail, fixed);
    lemma_line_type_continue_append(r0, tail + fixed, ep);
    lemma_line_type_header(default_line_type(), x.handle, x.groups, x.name, v);
    assert(default_line_type().groups + written_groups(x.groups, v) =~= written_groups(x.groups, v));
    let r1 = line_type_continue(r0, tail);
    lemma_line_type_push(r1, e, p3);
    lemma_line_type_push(r1, e.push(p3), p72);
    lemma_line_type_push(r1, e.push(p3).push(p72), p73);
    lemma_line_type_push(r1, e.push(p3).push(p72).push(p73), p40);
    let y = with_elements(line_type_read_back(x, v), Seq::empty());
    assert(line_type_continue(r1, fixed) == Ok::<(LineTypeModel, Option<GroupModel>), DxfError>((y, None)));
    lemma_elements_read(y, x.line_elements, v);
    assert(Seq::<ElementModel>::empty() + x.line_elements =~= x.line_elements);
}

/// Whether reading back the pairs written for a drawing gives its tables
/// back: every view port, line type and layer round trips (see
/// `view_port_round_trips`, `line_type_round_trips` and `layer_round_trips`),
/// and from R14 on no extension data item of a text style, view, user
/// coordinate system, registered application or block record is a group's
/// closing pair or has code 0.
pub open spec fn drawing_round_trips(d: DrawingModel) -> bool {
    let v = d.version;
    let r14 = version_at_least(v, AcadVersion::R14);
    &&& forall|i: int| 0 <= i < d.view_ports.len() ==> view_port_round_trips(#[trigger] d.view_ports[i], v)
    &&& forall|i: int| 0 <= i < d.line_types.len() ==> line_type_round_trips(#[trigger] d.line_types[i], v)
    &&& forall|i: int| 0 <= i < d.layers.len() ==> layer_round_trips(#[trigger] d.layers[i], v)
    &&& forall|i: int| 0 <= i < d.styles.len() ==> (r14 ==> groups_clean(#[trigger] d.styles[i].groups))
    &&& forall|i: int| 0 <= i < d.views.len() ==> (r14 ==> groups_clean(#[trigger] d.views[i].groups))
    &&& forall|i: int| 0 <= i < d.ucss.len() ==> (r14 ==> groups_clean(#[trigger] d.ucss[i].groups))
    &&& forall|i: int| 0 <= i < d.app_ids.len() ==> (r14 ==> groups_clean(#[trigger] d.app_ids[i].groups))
    &&& forall|i: int| 0 <= i < d.block_records.len() ==> (r14 ==> groups_clean(#[trigger] d.block_records[i].groups))
}

/// What reading back the pairs written for a drawing gives: the default header,
/// no handle handed out, and the drawing's table items, with their extension
/// data only from R14 on, and the block records only from R13 on.
pub open spec fn drawing_read_back(d: DrawingModel) -> DrawingModel {
    let v = d.version;
    DrawingModel {
        view_ports: d.view_ports.map_values(|x: ViewPortModel| view_port_read_back(x, v)),
        line_types: d.line_types.map_values(|x: LineTypeModel| line_type_read_back(x, v)),
        layers: d.layers.map_values(|x: LayerModel| layer_read_back(x, v)),
        styles: d.styles.map_values(|x: StyleModel| style_read_back(x, v)),
        views: d.views.map_values(|x: ViewModel| view_read_back(x, v)),
        ucss: d.ucss.map_values(|x: NamedModel| ucs_read_back(x, v)),
        app_ids: d.app_ids.map_values(|x: NamedModel| app_id_read_back(x, v)),
        block_records: if version_at_least(v, AcadVersion::R13) {
            d.block_records.map_values(|x: NamedModel| block_record_read_back(x, v))
        } else {
            Seq::empty()
        },
        ..empty_drawing(default_version(), seq!['0'], Seq::empty(), 0)
    }
}

/// The tables written for a drawing, one after the other.
pub open spec fn drawing_tables(d: DrawingModel) -> Seq<PairView> {
    let v = d.version;
    table_pairs(view_port_type_word(), d.view_ports.len() as int, view_port_items_pairs(d.view_ports, v), v)
        + table_pairs(line_type_type_word(), d.line_types.len() as int, line_type_items_pairs(d.line_types, v), v)
        + table_pairs(layer_type_word(), d.layers.len() as int, layer_items_pairs(d.layers, v), v)
        + table_pairs(style_type_word(), d.styles.len() as int, style_items_pairs(d.styles, v), v)
        + table_pairs(view_type_word(), d.views.len() as int, view_items_pairs(d.views, v), v)
        + table_pairs(ucs_type_word(), d.ucss.len() as int, ucs_items_pairs(d.ucss, v), v)
        + table_pairs(app_id_type_word(), d.app_ids.len() as int, app_id_items_pairs(d.app_ids, v), v)
        + (if version_at_least(v, AcadVersion::R13) {
        table_pairs(block_record_type_word(), d.block_records.len() as int, block_record_items_pairs(d.block_records, v), v)
    } else {
        Seq::empty()
    })
}

/// Reading the tables written for a drawing adds all their items.
#[verifier::rlimit(40)]
proof fn lemma_drawing_tables(ps: Seq<PairView>, d: DrawingModel, o: int, st: ReadState)
    requires
        drawing_round_trips(d),
        st.phase == Phase::Tables,
        holds_at(ps, o, drawing_tables(d)),
    ensures
        run_until(ps, o, o + drawing_tables(d).len(), st) == Ok::<ReadState, DxfError>(ReadState {
            phase: Phase::Tables,
            drawing: DrawingModel {
                view_ports: st.drawing.view_ports + d.view_ports.map_values(|x: ViewPortModel| view_port_read_back(x, d.version)),
                line_types: st.drawing.line_types + d.line_types.map_values(|x: LineTypeModel| line_type_read_back(x, d.version)),
                layers: st.drawing.layers + d.layers.map_values(|x: LayerModel| layer_read_back(x, d.version)),
                styles: st.drawing.styles + d.styles.map_values(|x: StyleModel| style_read_back(x, d.version)),
                views: st.drawing.views + d.views.map_values(|x: ViewModel| view_read_back(x, d.version)),
                ucss: st.drawing.ucss + d.ucss.map_values(|x: NamedModel| ucs_read_back(x, d.version)),
                app_ids: st.drawing.app_ids + d.app_ids.map_values(|x: NamedModel| app_id_read_back(x, d.version)),
                block_records: if version_at_least(d.version, AcadVersion::R13) {
                    st.drawing.block_records + d.block_records.map_values(|x: NamedModel| block_record_read_back(x, d.version))
                } else {
                    st.drawing.block_records
                },
                ..st.drawing
            },
            pending: None,
        }),
{
    let v = d.version;
    let t1 = table_pairs(view_port_type_word(), d.view_ports.len() as int, view_port_items_pairs(d.view_ports, v), v);
    let t2 = table_pairs(line_type_type_word(), d.line_types.len() as int, line_type_items_pairs(d.line_types, v), v);
    let t3 = table_pairs(layer_type_word(), d.layers.len() as int, layer_items_pairs(d.layers, v), v);
    let t4 = table_pairs(style_type_word(), d.styles.len() as int, style_items_pairs(d.styles, v), v);
    let t5 = table_pairs(view_type_word(), d.views.len() as int, view_items_pairs(d.views, v), v);
    let t6 = table_pairs(ucs_type_word(), d.ucss.len() as int, ucs_items_pairs(d.ucss, v), v);
    let t7 = table_pairs(app_id_type_word(), d.app_ids.len() as int, app_id_items_pairs(d.app_ids, v), v);
    let t8 = if version_at_least(v, AcadVersion::R13) {
        table_pairs(block_record_type_word(), d.block_records.len() as int, block_record_items_pairs(d.block_records, v), v)
    } else {
        Seq::<PairView>::empty()
    };
    let x1 = t1;
    let x2 = x1 + t2;
    let x3 = x2 + t3;
    let x4 = x3 + t4;
    let x5 = x4 + t5;
    let x6 = x5 + t6;
    let x7 = x6 + t7;
    assert(drawing_tables(d) == x7 + t8);
    lemma_holds_split(ps, o, x7, t8);
    lemma_holds_split(ps, o, x6, t7);
    lemma_holds_split(ps, o, x5, t6);
    lemma_holds_split(ps, o, x4, t5);
    lemma_holds_split(ps, o, x3, t4);
    lemma_holds_split(ps, o, x2, t3);
    lemma_holds_split(ps, o, x1, t2);
    let d0 = st.drawing;
    lemma_view_port_table(ps, d.view_ports, v, o, st);
    let s1 = ReadState { phase: Phase::Tables, drawing: DrawingModel { view_ports: d0.view_ports + d.view_ports.map_values(|x: ViewPortModel| view_port_read_back(x, v)), ..d0 }, pending: None };
    lemma_line_type_table(ps, d.line_types, v, o + x1.len(), s1);
    let s2 = ReadState { phase: Phase::Tables, drawing: DrawingModel { line_types: d0.line_types + d.line_types.map_values(|x: LineTypeModel| line_type_read_back(x, v)), ..s1.drawing }, pending: None };
    lemma_run_compose(ps, o, o + x1.len(), o + x2.len(), st);
    lemma_layer_table(ps, d.layers, v, o + x2.len(), s2);
    let s3 = ReadState { phase: Phase::Tables, drawing: DrawingModel { layers: d0.layers + d.layers.map_values(|x: LayerModel| layer_read_back(x, v)), ..s2.drawing }, pending: None };
    lemma_run_compose(ps, o, o + x2.len(), o + x3.len(), st);
    lemma_style_table(ps, d.styles, v, o + x3.len(), s3);
    let s4 = ReadState { phase: Phase::Tables, drawing: DrawingModel { styles: d0.styles + d.styles.map_values(|x: StyleModel| style_read_back(x, v)), ..s3.drawing }, pending: None };
    lemma_run_compose(ps, o, o + x3.len(), o + x4.len(), st);
    lemma_view_table(ps, d.views, v, o + x4.len(), s4);
    let s5 = ReadState { phase: Phase::Tables, drawing: DrawingModel { views: d0.views + d.views.map_values(|x: ViewModel| view_read_back(x, v)), ..s4.drawing }, pending: None };
    lemma_run_compose(ps, o, o + x4.len(), o + x5.len(), st);
    lemma_ucs_table(ps, d.ucss, v, o + x5.len(), s5);
    let s6 = ReadState { phase: Phase::Tables, drawing: DrawingModel { ucss: d0.ucss + d.ucss.map_values(|x: NamedModel| ucs_read_back(x, v)), ..s5.drawing }, pending: None };
    lemma_run_compose(ps, o, o + x5.len(), o + x6.len(), st);
    lemma_app_id_table(ps, d.app_ids, v, o + x6.len(), s6);
    let s7 = ReadState { phase: Phase::Tables, drawing: DrawingModel { app_ids: d0.app_ids + d.app_ids.map_values(|x: NamedModel| app_id_read_back(x, v)), ..s6.drawing }, pending: None };
    lemma_run_compose(ps, o, o + x6.len(), o + x7.len(), st);
    if version_at_least(v, AcadVersion::R13) {
        lemma_block_record_table(ps, d.block_records, v, o + x7.len(), s7);
    }
    lemma_run_compose(ps, o, o + x7.len(), o + x7.len() + t8.len(), st);
}

/// A drawing is written as the start of its tables section, its tables, and the
/// end of the section and of the file.
proof fn lemma_drawing_parts(d: DrawingModel)
    ensures
        drawing_pairs(d) == seq![str_pair(0, section_word()), str_pair(2, tables_word())] + drawing_tables(d)
            + seq![str_pair(0, endsec_word()), str_pair(0, eof_word())],
{
    assert(drawing_pairs(d) =~= seq![str_pair(0, section_word()), str_pair(2, tables_word())] + drawing_tables(d)
        + seq![str_pair(0, endsec_word()), str_pair(0, eof_word())]);
}

/// The start of the tables section enters it.
proof fn lemma_section_start(ps: Seq<PairView>, st: ReadState)
    requires
        st.phase == Phase::Top,
        holds_at(ps, 0, seq![str_pair(0, section_word()), str_pair(2, tables_word())]),
    ensures
        run_until(ps, 0, 2, st) == Ok::<ReadState, DxfError>(ReadState { phase: Phase::Tables, ..st }),
{
    let a = seq![str_pair(0, section_word()), str_pair(2, tables_word())];
    let st1 = ReadState { phase: Phase::SectionName, ..st };
    let st2 = ReadState { phase: Phase::Tables, ..st };
    lemma_holds_index(ps, 0, a, 0);
    lemma_holds_index(ps, 0, a, 1);
    assert(read_step(ps, 0, st) == Ok::<ReadState, DxfError>(st1));
    assert(read_step(ps, 1, st1) == Ok::<ReadState, DxfError>(st2));
    assert(run_until(ps, 2, 2, st2) == Ok::<ReadState, DxfError>(st2));
    assert(run_until(ps, 1, 2, st1) == Ok::<ReadState, DxfError>(st2));
}

/// The end of the section and of the file ends the reading.
proof fn lemma_section_end(ps: Seq<PairView>, m: int, st: ReadState)
    requires
        st.phase == Phase::Tables,
        holds_at(ps, m, seq![str_pair(0, endsec_word()), str_pair(0, eof_word())]),
    ensures
        run_until(ps, m, m + 2, st) == Ok::<ReadState, DxfError>(ReadState { phase: Phase::Done, ..st }),
{
    let z = seq![str_pair(0, endsec_word()), str_pair(0, eof_word())];
    let s9 = ReadState { phase: Phase::Top, ..st };
    let s10 = ReadState { phase: Phase::Done, ..st };
    lemma_holds_index(ps, m, z, 0);
    lemma_holds_index(ps, m, z, 1);
    assert(endsec_word() != table_word());
    assert(read_step(ps, m, st) == Ok::<ReadState, DxfError>(s9));
    assert(read_step(ps, m + 1, s9) == Ok::<ReadState, DxfError>(s10));
    assert(run_until(ps, m + 2, m + 2, s10) == Ok::<ReadState, DxfError>(s10));
    assert(run_until(ps, m + 1, m + 2, s9) == Ok::<ReadState, DxfError>(s10));
}

/// Adding a drawing's tables to the empty drawing gives `drawing_read_back`.
proof fn lemma_read_back_tables(d: DrawingModel)
    ensures
        ({
            let e = empty_drawing(default_version(), seq!['0'], Seq::empty(), 0);
            drawing_read_back(d) == DrawingModel {
                view_ports: e.view_ports + d.view_ports.map_values(|x: ViewPortModel| view_port_read_back(x, d.version)),
                line_types: e.line_types + d.line_types.map_values(|x: LineTypeModel| line_type_read_back(x, d.version)),
                layers: e.layers + d.layers.map_values(|x: LayerModel| layer_read_back(x, d.version)),
                styles: e.styles + d.styles.map_values(|x: StyleModel| style_read_back(x, d.version)),
                views: e.views + d.views.map_values(|x: ViewModel| view_read_back(x, d.version)),
                ucss: e.ucss + d.ucss.map_values(|x: NamedModel| ucs_read_back(x, d.version)),
                app_ids: e.app_ids + d.app_ids.map_values(|x: NamedModel| app_id_read_back(x, d.version)),
                block_records: if version_at_least(d.version, AcadVersion::R13) {
                    e.block_records + d.block_records.map_values(|x: NamedModel| block_record_read_back(x, d.version))
                } else {
                    e.block_records
                },
                ..e
            }
        }),
{
    let e = empty_drawing(default_version(), seq!['0'], Seq::empty(), 0);
    assert(e.view_ports + d.view_ports.map_values(|x: ViewPortModel| view_port_read_back(x, d.version)) =~= d.view_ports.map_values(|x: ViewPortModel| view_port_read_back(x, d.version)));
    assert(e.line_types + d.line_types.map_values(|x: LineTypeModel| line_type_read_back(x, d.version)) =~= d.line_types.map_values(|x: LineTypeModel| line_type_read_back(x, d.version)));
    assert(e.layers + d.layers.map_values(|x: LayerModel| layer_read_back(x, d.version)) =~= d.layers.map_values(
        |x: LayerModel| layer_read_back(x, d.version),
    ));
    assert(e.styles + d.styles.map_values(|x: StyleModel| style_read_back(x, d.version)) =~= d.styles.map_values(|x: StyleModel| style_read_back(x, d.version)));
    assert(e.views + d.views.map_values(|x: ViewModel| view_read_back(x, d.version)) =~= d.views.map_values(|x: ViewModel| view_read_back(x, d.version)));
    assert(e.ucss + d.ucss.map_values(|x: NamedModel| ucs_read_back(x, d.version)) =~= d.ucss.map_values(|x: NamedModel| ucs_read_back(x, d.version)));
    assert(e.app_ids + d.app_ids.map_values(|x: NamedModel| app_id_read_back(x, d.version)) =~= d.app_ids.map_values(|x: NamedModel| app_id_read_back(x, d.version)));
    assert(e.block_records + d.block_records.map_values(|x: NamedModel| block_record_read_back(x, d.version)) =~= d.block_records.map_values(|x: NamedModel| block_record_read_back(x, d.version)));
}

/// Reading back the pairs written for a drawing gives back its tables: a
/// drawing with the default header and no handle handed out, holding the same
/// view ports, line types, layers, text styles, views, user coordinate systems
/// and registered applications, and from R13 on the same block records, each
/// with its extension data from R14 on, wherever the drawing round trips (see
/// `drawing_round_trips`).
pub proof fn write_read_law(d: DrawingModel)
    requires
        drawing_round_trips(d),
    ensures
        read_pairs(drawing_pairs(d)) == Ok::<DrawingModel, DxfError>(drawing_read_back(d)),
{
    let ps = drawing_pairs(d);
    let a = seq![str_pair(0, section_word()), str_pair(2, tables_word())];
    let t = drawing_tables(d);
    let z = seq![str_pair(0, endsec_word()), str_pair(0, eof_word())];
    lemma_drawing_parts(d);
    assert(holds_at(ps, 0, ps)) by {
        assert(ps.subrange(0, ps.len() as int) =~= ps);
    }
    lemma_holds_split(ps, 0, a + t, z);
    lemma_holds_split(ps, 0, a, t);
    let e = empty_drawing(default_version(), seq!['0'], Seq::empty(), 0);
    let st0 = ReadState { phase: Phase::Top, drawing: e, pending: None };
    let st2 = ReadState { phase: Phase::Tables, drawing: e, pending: None };
    lemma_section_start(ps, st0);
    lemma_drawing_tables(ps, d, 2, st2);
    lemma_read_back_tables(d);
    let m: int = 2 + t.len() as int;
    let s8 = ReadState { phase: Phase::Tables, drawing: drawing_read_back(d), pending: None };
    lemma_run_compose(ps, 0, 2, m, st0);
    lemma_section_end(ps, m, s8);
    lemma_run_compose(ps, 0, m, m + 2, st0);
    lemma_run_split(ps, 0, ps.len() as int, st0);
}

} // verus!
