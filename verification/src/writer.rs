//! Writing a drawing's tables as code pairs.

use vstd::prelude::*;
use vstd::view::View as _;

use crate::code_pair::{
    int_pair, pairs_view, push_pair, real_pair, short_pair, str_pair, CodePair, PairView, ValueView,
};
use crate::drawing::{Drawing, DrawingModel};
use crate::enums::{version_at_least, AcadVersion};
use crate::handle::{hex_upper, Handle};
use crate::linetype::{
    custom_line_type_add_code_pairs, lemma_add_assoc, line_type_pattern_pairs, LineType,
    LineTypeModel,
};
use crate::tables::{
    groups_view, AppId, BlockRecord, ExtensionGroup, ExtensionGroupItem, GroupModel, Layer, LayerModel,
    NamedModel, Style, StyleModel, Ucs, View, ViewModel, ViewPort, ViewPortModel,
};
use crate::text::string_push;

verus! {

/// The 16-bit color value written for a layer: its color, negated where the
/// layer is off (the color `i16::MIN`, whose negation does not fit, is written
/// as it is).
pub open spec fn layer_color_value(color: i16, on: bool) -> i16 {
    if on || color == i16::MIN {
        color
    } else {
        (-color) as i16
    }
}

/// The pairs that write one extension data group: its opener `{` and
/// application name, its pairs, and the closer `}`.
pub open spec fn group_pairs(g: GroupModel) -> Seq<PairView> {
    seq![str_pair(102, seq!['{'] + g.application_name)] + g.items + seq![str_pair(102, seq!['}'])]
}

/// The pairs that write some extension data groups, in order.
pub open spec fn groups_pairs(gs: Seq<GroupModel>) -> Seq<PairView>
    decreases gs.len(),
{
    if gs.len() == 0 {
        Seq::empty()
    } else {
        groups_pairs(gs.drop_last()) + group_pairs(gs.last())
    }
}

/// The pairs that start a table item: its type, handle, from R14 on its
/// extension data groups, from R13 on its subclass markers, its name and its
/// flags.
pub open spec fn item_header(
    kind_word: Seq<char>,
    subclass: Seq<char>,
    handle: u64,
    groups: Seq<GroupModel>,
    name: Seq<char>,
    v: AcadVersion,
) -> Seq<PairView> {
    seq![str_pair(0, kind_word), str_pair(5, hex_upper(handle as nat))] + (if version_at_least(
        v,
        AcadVersion::R14,
    ) {
        groups_pairs(groups)
    } else {
        Seq::empty()
    }) + (if version_at_least(
        v,
        AcadVersion::R13,
    ) {
        seq![str_pair(100, symbol_table_record()), str_pair(100, subclass)]
    } else {
        Seq::empty()
    }) + seq![str_pair(2, name), short_pair(70, 0)]
}

/// The pairs that write a table: its header, its items and its end.
pub open spec fn table_pairs(name: Seq<char>, count: int, items: Seq<PairView>, v: AcadVersion) -> Seq<PairView> {
    seq![str_pair(0, table_word()), str_pair(2, name)] + (if version_at_least(v, AcadVersion::R13) {
        seq![str_pair(100, symbol_table())]
    } else {
        Seq::empty()
    }) + seq![short_pair(70, count as i16)] + items + seq![str_pair(0, endtab_word())]
}

/// The text `AcDbSymbolTableRecord`.
pub open spec fn symbol_table_record() -> Seq<char> {
    seq!['A', 'c', 'D', 'b', 'S', 'y', 'm', 'b', 'o', 'l', 'T', 'a', 'b', 'l', 'e', 'R', 'e', 'c', 'o', 'r', 'd']
}

/// The text `AcDbSymbolTable`.
pub open spec fn symbol_table() -> Seq<char> {
    seq!['A', 'c', 'D', 'b', 'S', 'y', 'm', 'b', 'o', 'l', 'T', 'a', 'b', 'l', 'e']
}

/// The text `TABLE`.
pub open spec fn table_word() -> Seq<char> {
    seq!['T', 'A', 'B', 'L', 'E']
}

/// The text `ENDTAB`.
pub open spec fn endtab_word() -> Seq<char> {
    seq!['E', 'N', 'D', 'T', 'A', 'B']
}

/// The text `SECTION`.
pub open spec fn section_word() -> Seq<char> {
    seq!['S', 'E', 'C', 'T', 'I', 'O', 'N']
}

/// The text `TABLES`.
pub open spec fn tables_word() -> Seq<char> {
    seq!['T', 'A', 'B', 'L', 'E', 'S']
}

/// The text `ENDSEC`.
pub open spec fn endsec_word() -> Seq<char> {
    seq!['E', 'N', 'D', 'S', 'E', 'C']
}

/// The text `EOF`.
pub open spec fn eof_word() -> Seq<char> {
    seq!['E', 'O', 'F']
}

/// The text `VPORT`.
pub open spec fn view_port_type_word() -> Seq<char> {
    seq!['V', 'P', 'O', 'R', 'T']
}

/// The text `AcDbViewportTableRecord`.
pub open spec fn view_port_subclass() -> Seq<char> {
    seq!['A', 'c', 'D', 'b', 'V', 'i', 'e', 'w', 'p', 'o', 'r', 't', 'T', 'a', 'b', 'l', 'e', 'R', 'e', 'c', 'o', 'r', 'd']
}

/// The text `LTYPE`.
pub open spec fn line_type_type_word() -> Seq<char> {
    seq!['L', 'T', 'Y', 'P', 'E']
}

/// The text `AcDbLinetypeTableRecord`.
pub open spec fn line_type_subclass() -> Seq<char> {
    seq!['A', 'c', 'D', 'b', 'L', 'i', 'n', 'e', 't', 'y', 'p', 'e', 'T', 'a', 'b', 'l', 'e', 'R', 'e', 'c', 'o', 'r', 'd']
}

/// The text `LAYER`.
pub open spec fn layer_type_word() -> Seq<char> {
    seq!['L', 'A', 'Y', 'E', 'R']
}

/// The text `AcDbLayerTableRecord`.
pub open spec fn layer_subclass() -> Seq<char> {
    seq!['A', 'c', 'D', 'b', 'L', 'a', 'y', 'e', 'r', 'T', 'a', 'b', 'l', 'e', 'R', 'e', 'c', 'o', 'r', 'd']
}

/// The text `STYLE`.
pub open spec fn style_type_word() -> Seq<char> {
    seq!['S', 'T', 'Y', 'L', 'E']
}

/// The text `AcDbTextStyleTableRecord`.
pub open spec fn style_subclass() -> Seq<char> {
    seq!['A', 'c', 'D', 'b', 'T', 'e', 'x', 't', 'S', 't', 'y', 'l', 'e', 'T', 'a', 'b', 'l', 'e', 'R', 'e', 'c', 'o', 'r', 'd']
}

/// The text `VIEW`.
pub open spec fn view_type_word() -> Seq<char> {
    seq!['V', 'I', 'E', 'W']
}

/// The text `AcDbViewTableRecord`.
pub open spec fn view_subclass() -> Seq<char> {
    seq!['A', 'c', 'D', 'b', 'V', 'i', 'e', 'w', 'T', 'a', 'b', 'l', 'e', 'R', 'e', 'c', 'o', 'r', 'd']
}

/// The text `UCS`.
pub open spec fn ucs_type_word() -> Seq<char> {
    seq!['U', 'C', 'S']
}

/// The text `AcDbUCSTableRecord`.
pub open spec fn ucs_subclass() -> Seq<char> {
    seq!['A', 'c', 'D', 'b', 'U', 'C', 'S', 'T', 'a', 'b', 'l', 'e', 'R', 'e', 'c', 'o', 'r', 'd']
}

/// The text `APPID`.
pub open spec fn app_id_type_word() -> Seq<char> {
    seq!['A', 'P', 'P', 'I', 'D']
}

/// The text `AcDbRegAppTableRecord`.
pub open spec fn app_id_subclass() -> Seq<char> {
    seq!['A', 'c', 'D', 'b', 'R', 'e', 'g', 'A', 'p', 'p', 'T', 'a', 'b', 'l', 'e', 'R', 'e', 'c', 'o', 'r', 'd']
}

/// The text `BLOCK_RECORD`.
pub open spec fn block_record_type_word() -> Seq<char> {
    seq!['B', 'L', 'O', 'C', 'K', '_', 'R', 'E', 'C', 'O', 'R', 'D']
}

/// The text `AcDbBlockTableRecord`.
pub open spec fn block_record_subclass() -> Seq<char> {
    seq!['A', 'c', 'D', 'b', 'B', 'l', 'o', 'c', 'k', 'T', 'a', 'b', 'l', 'e', 'R', 'e', 'c', 'o', 'r', 'd']
}

/// The pairs that write one view port item.
pub open spec fn view_port_item_pairs(x: ViewPortModel, v: AcadVersion) -> Seq<PairView> {
    item_header(view_port_type_word(), view_port_subclass(), x.handle, x.groups, x.name, v) + seq![real_pair(14, x.snap_spacing.x), real_pair(24, x.snap_spacing.y), real_pair(15, x.grid_spacing.x), real_pair(25, x.grid_spacing.y), real_pair(40, x.view_height), real_pair(41, x.view_port_aspect_ratio), real_pair(42, x.lens_length), short_pair(74, x.ucs_icon), int_pair(72, x.circle_sides)]
}

/// The pairs that write some view port items, in order.
pub open spec fn view_port_items_pairs(xs: Seq<ViewPortModel>, v: AcadVersion) -> Seq<PairView>
    decreases xs.len(),
{
    if xs.len() == 0 {
        Seq::empty()
    } else {
        view_port_items_pairs(xs.drop_last(), v) + view_port_item_pairs(xs.last(), v)
    }
}

/// The pairs that write one line type item.
pub open spec fn line_type_item_pairs(x: LineTypeModel, v: AcadVersion) -> Seq<PairView> {
    item_header(line_type_type_word(), line_type_subclass(), x.handle, x.groups, x.name, v) + line_type_pattern_pairs(x, v)
}

/// The pairs that write some line type items, in order.
pub open spec fn line_type_items_pairs(xs: Seq<LineTypeModel>, v: AcadVersion) -> Seq<PairView>
    decreases xs.len(),
{
    if xs.len() == 0 {
        Seq::empty()
    } else {
        line_type_items_pairs(xs.drop_last(), v) + line_type_item_pairs(xs.last(), v)
    }
}

/// The pairs that write one layer item.
pub open spec fn layer_item_pairs(x: LayerModel, v: AcadVersion) -> Seq<PairView> {
    item_header(layer_type_word(), layer_subclass(), x.handle, x.groups, x.name, v) + seq![short_pair(62, layer_color_value(x.color, x.is_layer_on)), str_pair(6, x.line_type_name)]
}

/// The pairs that write some layer items, in order.
pub open spec fn layer_items_pairs(xs: Seq<LayerModel>, v: AcadVersion) -> Seq<PairView>
    decreases xs.len(),
{
    if xs.len() == 0 {
        Seq::empty()
    } else {
        layer_items_pairs(xs.drop_last(), v) + layer_item_pairs(xs.last(), v)
    }
}

/// The pairs that write one style item.
pub open spec fn style_item_pairs(x: StyleModel, v: AcadVersion) -> Seq<PairView> {
    item_header(style_type_word(), style_subclass(), x.handle, x.groups, x.name, v) + seq![real_pair(40, x.text_height), real_pair(41, x.width_factor)]
}

/// The pairs that write some style items, in order.
pub open spec fn style_items_pairs(xs: Seq<StyleModel>, v: AcadVersion) -> Seq<PairView>
    decreases xs.len(),
{
    if xs.len() == 0 {
        Seq::empty()
    } else {
        style_items_pairs(xs.drop_last(), v) + style_item_pairs(xs.last(), v)
    }
}

/// The pairs that write one view item.
pub open spec fn view_item_pairs(x: ViewModel, v: AcadVersion) -> Seq<PairView> {
    item_header(view_type_word(), view_subclass(), x.handle, x.groups, x.name, v) + seq![real_pair(40, x.view_height), real_pair(41, x.view_width), real_pair(42, x.lens_length)]
}

/// The pairs that write some view items, in order.
pub open spec fn view_items_pairs(xs: Seq<ViewModel>, v: AcadVersion) -> Seq<PairView>
    decreases xs.len(),
{
    if xs.len() == 0 {
        Seq::empty()
    } else {
        view_items_pairs(xs.drop_last(), v) + view_item_pairs(xs.last(), v)
    }
}

/// The pairs that write one ucs item.
pub open spec fn ucs_item_pairs(x: NamedModel, v: AcadVersion) -> Seq<PairView> {
    item_header(ucs_type_word(), ucs_subclass(), x.handle, x.groups, x.name, v) + Seq::<PairView>::empty()
}

/// The pairs that write some ucs items, in order.
pub open spec fn ucs_items_pairs(xs: Seq<NamedModel>, v: AcadVersion) -> Seq<PairView>
    decreases xs.len(),
{
    if xs.len() == 0 {
        Seq::empty()
    } else {
        ucs_items_pairs(xs.drop_last(), v) + ucs_item_pairs(xs.last(), v)
    }
}

/// The pairs that write one app id item.
pub open spec fn app_id_item_pairs(x: NamedModel, v: AcadVersion) -> Seq<PairView> {
    item_header(app_id_type_word(), app_id_subclass(), x.handle, x.groups, x.name, v) + Seq::<PairView>::empty()
}

/// The pairs that write some app id items, in order.
pub open spec fn app_id_items_pairs(xs: Seq<NamedModel>, v: AcadVersion) -> Seq<PairView>
    decreases xs.len(),
{
    if xs.len() == 0 {
        Seq::empty()
    } else {
        app_id_items_pairs(xs.drop_last(), v) + app_id_item_pairs(xs.last(), v)
    }
}

/// The pairs that write one block record item.
pub open spec fn block_record_item_pairs(x: NamedModel, v: AcadVersion) -> Seq<PairView> {
    item_header(block_record_type_word(), block_record_subclass(), x.handle, x.groups, x.name, v) + Seq::<PairView>::empty()
}

/// The pairs that write some block record items, in order.
pub open spec fn block_record_items_pairs(xs: Seq<NamedModel>, v: AcadVersion) -> Seq<PairView>
    decreases xs.len(),
{
    if xs.len() == 0 {
        Seq::empty()
    } else {
        block_record_items_pairs(xs.drop_last(), v) + block_record_item_pairs(xs.last(), v)
    }
}

/// The pairs that write a drawing: its tables section, with the view port,
/// line type, layer, text style, view, user coordinate system and registered
/// application tables and, from R13 on, the block record table, then the end
/// of the file.
pub open spec fn drawing_pairs(d: DrawingModel) -> Seq<PairView> {
    let v = d.version;
    seq![str_pair(0, section_word()), str_pair(2, tables_word())]
        + table_pairs(view_port_type_word(), d.view_ports.len() as int, view_port_items_pairs(d.view_ports, v), v)
        + table_pairs(line_type_type_word(), d.line_types.len() as int, line_type_items_pairs(d.line_types, v), v)
        + table_pairs(layer_type_word(), d.layers.len() as int, layer_items_pairs(d.layers, v), v)
        + table_pairs(style_type_word(), d.styles.len() as int, style_items_pairs(d.styles, v), v)
        + table_pairs(view_type_word(), d.views.len() as int, view_items_pairs(d.views, v), v)
        + table_pairs(ucs_type_word(), d.ucss.len() as int, ucs_items_pairs(d.ucss, v), v)
        + table_pairs(app_id_type_word(), d.app_ids.len() as int, app_id_items_pairs(d.app_ids, v), v)
        + (if version_at_least(v, AcadVersion::R13) {
        table_pairs(block_record_type_word(), d.block_records.len() as int, block_record_items_pairs(d.block_records, v), v)
    } else {
        Seq::empty()
    }) + seq![str_pair(0, endsec_word()), str_pair(0, eof_word())]
}

/// A text made of the given characters.
fn text_of(chars: &[char]) -> (s: String)
    ensures
        s@ == chars@,
{
    let mut s = String::new();
    let mut i: usize = 0;
    while i < chars.len()
        invariant
            i <= chars@.len(),
            s@ == chars@.subrange(0, i as int),
        decreases chars.len() - i,
    {
        string_push(&mut s, chars[i]);
        i = i + 1;
        proof {
            assert(s@ =~= chars@.subrange(0, i as int));
        }
    }
    proof {
        assert(chars@.subrange(0, i as int) =~= chars@);
    }
    s
}

/// Appends the pairs that start a table item.
fn push_item_header(
    pairs: &mut Vec<CodePair>,
    kind_word: &[char],
    subclass: &[char],
    handle: Handle,
    groups: &Vec<ExtensionGroup>,
    name: &String,
    v: AcadVersion,
)
    ensures
        pairs_view(final(pairs)@) == pairs_view(old(pairs)@) + item_header(
            kind_word@,
            subclass@,
            handle.0,
            groups_view(groups@),
            name@,
            v,
        ),
{
    let ghost s0 = pairs_view(pairs@);
    push_pair(pairs, CodePair::new_string(0, &text_of(kind_word)));
    push_pair(pairs, CodePair::new_string(5, &handle.as_string()));
    if v.at_least(AcadVersion::R14) {
        push_groups(pairs, groups);
    }
    let ghost s1 = pairs_view(pairs@);
    if v.at_least(AcadVersion::R13) {
        push_pair(pairs, CodePair::new_string(100, &text_of(&['A', 'c', 'D', 'b', 'S', 'y', 'm', 'b', 'o', 'l', 'T', 'a', 'b', 'l', 'e', 'R', 'e', 'c', 'o', 'r', 'd'])));
        push_pair(pairs, CodePair::new_string(100, &text_of(subclass)));
    }
    let ghost s2 = pairs_view(pairs@);
    push_pair(pairs, CodePair::new_string(2, name));
    push_pair(pairs, CodePair::new_i16(70, 0));
    proof {
        assert(pairs_view(pairs@) =~= s0 + item_header(kind_word@, subclass@, handle.0, groups_view(groups@), name@, v));
    }
}

/// Appends the pairs of some extension data groups.
fn push_groups(pairs: &mut Vec<CodePair>, groups: &Vec<ExtensionGroup>)
    ensures
        pairs_view(final(pairs)@) == pairs_view(old(pairs)@) + groups_pairs(
            groups@.map_values(|g: ExtensionGroup| g@),
        ),
{
    let ghost s0 = pairs_view(pairs@);
    let ghost gv = groups@.map_values(|g: ExtensionGroup| g@);
    let mut i: usize = 0;
    proof {
        assert(gv.take(0) =~= Seq::<GroupModel>::empty());
        assert(s0 =~= s0 + groups_pairs(gv.take(0)));
    }
    while i < groups.len()
        invariant
            i <= groups@.len(),
            gv == groups@.map_values(|g: ExtensionGroup| g@),
            pairs_view(pairs@) == s0 + groups_pairs(gv.take(i as int)),
        decreases groups.len() - i,
    {
        let g = &groups[i];
        let ghost before = pairs_view(pairs@);
        let mut open = vec!['{'];
        let name = crate::text::chars_of(g.application_name.as_str());
        let mut k: usize = 0;
        while k < name.len()
            invariant
                k <= name@.len(),
                open@ == seq!['{'] + name@.subrange(0, k as int),
            decreases name.len() - k,
        {
            open.push(name[k]);
            k = k + 1;
            proof {
                assert(open@ =~= seq!['{'] + name@.subrange(0, k as int));
            }
        }
        proof {
            assert(name@.subrange(0, k as int) =~= name@);
        }
        push_pair(pairs, CodePair::new_string(102, &text_of(open.as_slice())));
        let ghost mid = pairs_view(pairs@);
        proof {
            assert(name@ == g@.application_name);
            assert(mid == before.push(str_pair(102, seq!['{'] + g@.application_name)));
        }
        let mut j: usize = 0;
        proof {
            assert(g@.items.take(0) =~= Seq::<PairView>::empty());
            assert(mid =~= mid + g@.items.take(0));
        }
        while j < g.items.len()
            invariant
                j <= g.items@.len(),
                pairs_view(pairs@) == mid + g@.items.take(j as int),
            decreases g.items.len() - j,
        {
            let ExtensionGroupItem::CodePair(p) = &g.items[j];
            push_pair(pairs, p.duplicate());
            proof {
                assert(g@.items[j as int] == g.items@[j as int]@);
                assert(g@.items.take(j + 1) =~= g@.items.take(j as int).push(g@.items[j as int]));
            }
            j = j + 1;
        }
        let close: Vec<char> = vec!['}'];
        let ghost last_mid = pairs_view(pairs@);
        push_pair(pairs, CodePair::new_string(102, &text_of(close.as_slice())));
        proof {
            assert(close@ =~= seq!['}']);
            assert(pairs_view(pairs@) == last_mid.push(str_pair(102, seq!['}'])));
            assert(g@.items.take(j as int) =~= g@.items);
            assert(gv[i as int] == g@);
            assert(pairs_view(pairs@) =~= before + group_pairs(gv[i as int]));
            assert(gv.take(i + 1).drop_last() =~= gv.take(i as int));
            lemma_add_assoc(s0, groups_pairs(gv.take(i as int)), group_pairs(gv[i as int]));
        }
        i = i + 1;
    }
    proof {
        assert(gv.take(i as int) =~= gv);
    }
}

/// Appends the pairs of one view port item.
fn push_view_port_item(pairs: &mut Vec<CodePair>, x: &ViewPort, v: AcadVersion, drawing: &Drawing)
    requires
        drawing@.version == v,
    ensures
        pairs_view(final(pairs)@) == pairs_view(old(pairs)@) + view_port_item_pairs(x@, v),
{
    let ghost s0 = pairs_view(pairs@);
    proof {
        let tw: Seq<char> = seq!['V', 'P', 'O', 'R', 'T'];
    }
    push_item_header(pairs, &['V', 'P', 'O', 'R', 'T'], &['A', 'c', 'D', 'b', 'V', 'i', 'e', 'w', 'p', 'o', 'r', 't', 'T', 'a', 'b', 'l', 'e', 'R', 'e', 'c', 'o', 'r', 'd'], x.handle, &x.extension_data_groups, &x.name, v);
    let ghost s1 = pairs_view(pairs@);
        push_pair(pairs, CodePair::new_real(14, x.snap_spacing.x));
        push_pair(pairs, CodePair::new_real(24, x.snap_spacing.y));
        push_pair(pairs, CodePair::new_real(15, x.grid_spacing.x));
        push_pair(pairs, CodePair::new_real(25, x.grid_spacing.y));
        push_pair(pairs, CodePair::new_real(40, x.view_height));
        push_pair(pairs, CodePair::new_real(41, x.view_port_aspect_ratio));
        push_pair(pairs, CodePair::new_real(42, x.lens_length));
        push_pair(pairs, CodePair::new_i16(74, x.ucs_icon));
        push_pair(pairs, CodePair::new_i32(72, x.circle_sides));
    proof {
        assert(pairs_view(pairs@) =~= s1 + (seq![real_pair(14, x@.snap_spacing.x), real_pair(24, x@.snap_spacing.y), real_pair(15, x@.grid_spacing.x), real_pair(25, x@.grid_spacing.y), real_pair(40, x@.view_height), real_pair(41, x@.view_port_aspect_ratio), real_pair(42, x@.lens_length), short_pair(74, x@.ucs_icon), int_pair(72, x@.circle_sides)]));
        lemma_add_assoc(s0, item_header(view_port_type_word(), view_port_subclass(), x@.handle, x@.groups, x@.name, v), seq![real_pair(14, x@.snap_spacing.x), real_pair(24, x@.snap_spacing.y), real_pair(15, x@.grid_spacing.x), real_pair(25, x@.grid_spacing.y), real_pair(40, x@.view_height), real_pair(41, x@.view_port_aspect_ratio), real_pair(42, x@.lens_length), short_pair(74, x@.ucs_icon), int_pair(72, x@.circle_sides)]);
    }
}

/// Appends the pairs of the view port table.
fn push_view_port_table(pairs: &mut Vec<CodePair>, drawing: &Drawing)
    ensures
        pairs_view(final(pairs)@) == pairs_view(old(pairs)@) + table_pairs(
            view_port_type_word(),
            drawing@.view_ports.len() as int,
            view_port_items_pairs(drawing@.view_ports, drawing@.version),
            drawing@.version,
        ),
{
    let v = drawing.version();
    let items = drawing.view_ports();
    let ghost s0 = pairs_view(pairs@);
    let ghost xs = drawing@.view_ports;
    push_table_header(pairs, &['V', 'P', 'O', 'R', 'T'], items.len(), v);
    let ghost s1 = pairs_view(pairs@);
    let mut i: usize = 0;
    proof {
        assert(xs.take(0) =~= Seq::<ViewPortModel>::empty());
        assert(s1 =~= s1 + view_port_items_pairs(xs.take(0), v));
    }
    while i < items.len()
        invariant
            i <= items@.len(),
            items@.map_values(|x: ViewPort| x@) == xs,
            xs == drawing@.view_ports,
            v == drawing@.version,
            pairs_view(pairs@) == s1 + view_port_items_pairs(xs.take(i as int), v),
        decreases items.len() - i,
    {
        proof {
            assert(xs[i as int] == items@[i as int]@);
            assert(xs.take(i + 1).drop_last() =~= xs.take(i as int));
        }
        push_view_port_item(pairs, &items[i], v, drawing);
        proof {
            lemma_add_assoc(s1, view_port_items_pairs(xs.take(i as int), v), view_port_item_pairs(xs[i as int], v));
        }
        i = i + 1;
    }
    proof {
        assert(xs.take(i as int) =~= xs);
    }
    push_pair(pairs, CodePair::new_string(0, &text_of(&['E', 'N', 'D', 'T', 'A', 'B'])));
    proof {
        assert(pairs_view(pairs@) =~= s0 + table_pairs(view_port_type_word(), xs.len() as int, view_port_items_pairs(xs, v), v));
    }
}

/// Appends the pairs of one line type item.
fn push_line_type_item(pairs: &mut Vec<CodePair>, x: &LineType, v: AcadVersion, drawing: &Drawing)
    requires
        drawing@.version == v,
    ensures
        pairs_view(final(pairs)@) == pairs_view(old(pairs)@) + line_type_item_pairs(x@, v),
{
    let ghost s0 = pairs_view(pairs@);
    proof {
        let tw: Seq<char> = seq!['L', 'T', 'Y', 'P', 'E'];
    }
    push_item_header(pairs, &['L', 'T', 'Y', 'P', 'E'], &['A', 'c', 'D', 'b', 'L', 'i', 'n', 'e', 't', 'y', 'p', 'e', 'T', 'a', 'b', 'l', 'e', 'R', 'e', 'c', 'o', 'r', 'd'], x.handle, &x.extension_data_groups, &x.name, v);
    let ghost s1 = pairs_view(pairs@);
        custom_line_type_add_code_pairs(x, pairs, drawing);
    proof {
        assert(pairs_view(pairs@) =~= s1 + (line_type_pattern_pairs(x@, v)));
        lemma_add_assoc(s0, item_header(line_type_type_word(), line_type_subclass(), x@.handle, x@.groups, x@.name, v), line_type_pattern_pairs(x@, v));
    }
}

/// Appends the pairs of the line type table.
fn push_line_type_table(pairs: &mut Vec<CodePair>, drawing: &Drawing)
    ensures
        pairs_view(final(pairs)@) == pairs_view(old(pairs)@) + table_pairs(
            line_type_type_word(),
            drawing@.line_types.len() as int,
            line_type_items_pairs(drawing@.line_types, drawing@.version),
            drawing@.version,
        ),
{
    let v = drawing.version();
    let items = drawing.line_types();
    let ghost s0 = pairs_view(pairs@);
    let ghost xs = drawing@.line_types;
    push_table_header(pairs, &['L', 'T', 'Y', 'P', 'E'], items.len(), v);
    let ghost s1 = pairs_view(pairs@);
    let mut i: usize = 0;
    proof {
        assert(xs.take(0) =~= Seq::<LineTypeModel>::empty());
        assert(s1 =~= s1 + line_type_items_pairs(xs.take(0), v));
    }
    while i < items.len()
        invariant
            i <= items@.len(),
            items@.map_values(|x: LineType| x@) == xs,
            xs == drawing@.line_types,
            v == drawing@.version,
            pairs_view(pairs@) == s1 + line_type_items_pairs(xs.take(i as int), v),
        decreases items.len() - i,
    {
        proof {
            assert(xs[i as int] == items@[i as int]@);
            assert(xs.take(i + 1).drop_last() =~= xs.take(i as int));
        }
        push_line_type_item(pairs, &items[i], v, drawing);
        proof {
            lemma_add_assoc(s1, line_type_items_pairs(xs.take(i as int), v), line_type_item_pairs(xs[i as int], v));
        }
        i = i + 1;
    }
    proof {
        assert(xs.take(i as int) =~= xs);
    }
    push_pair(pairs, CodePair::new_string(0, &text_of(&['E', 'N', 'D', 'T', 'A', 'B'])));
    proof {
        assert(pairs_view(pairs@) =~= s0 + table_pairs(line_type_type_word(), xs.len() as int, line_type_items_pairs(xs, v), v));
    }
}

/// Appends the pairs of one layer item.
fn push_layer_item(pairs: &mut Vec<CodePair>, x: &Layer, v: AcadVersion, drawing: &Drawing)
    requires
        drawing@.version == v,
    ensures
        pairs_view(final(pairs)@) == pairs_view(old(pairs)@) + layer_item_pairs(x@, v),
{
    let ghost s0 = pairs_view(pairs@);
    proof {
        let tw: Seq<char> = seq!['L', 'A', 'Y', 'E', 'R'];
    }
    push_item_header(pairs, &['L', 'A', 'Y', 'E', 'R'], &['A', 'c', 'D', 'b', 'L', 'a', 'y', 'e', 'r', 'T', 'a', 'b', 'l', 'e', 'R', 'e', 'c', 'o', 'r', 'd'], x.handle, &x.extension_data_groups, &x.name, v);
    let ghost s1 = pairs_view(pairs@);
        let color = x.color.raw_value();
        let value = if x.is_layer_on || color == i16::MIN {
            color
        } else {
            -color
        };
        push_pair(pairs, CodePair::new_i16(62, value));
        push_pair(pairs, CodePair::new_string(6, &x.line_type_name));
    proof {
        assert(pairs_view(pairs@) =~= s1 + (seq![short_pair(62, layer_color_value(x@.color, x@.is_layer_on)), str_pair(6, x@.line_type_name)]));
        lemma_add_assoc(s0, item_header(layer_type_word(), layer_subclass(), x@.handle, x@.groups, x@.name, v), seq![short_pair(62, layer_color_value(x@.color, x@.is_layer_on)), str_pair(6, x@.line_type_name)]);
    }
}

/// Appends the pairs of the layer table.
fn push_layer_table(pairs: &mut Vec<CodePair>, drawing: &Drawing)
    ensures
        pairs_view(final(pairs)@) == pairs_view(old(pairs)@) + table_pairs(
            layer_type_word(),
            drawing@.layers.len() as int,
            layer_items_pairs(drawing@.layers, drawing@.version),
            drawing@.version,
        ),
{
    let v = drawing.version();
    let items = drawing.layers();
    let ghost s0 = pairs_view(pairs@);
    let ghost xs = drawing@.layers;
    push_table_header(pairs, &['L', 'A', 'Y', 'E', 'R'], items.len(), v);
    let ghost s1 = pairs_view(pairs@);
    let mut i: usize = 0;
    proof {
        assert(xs.take(0) =~= Seq::<LayerModel>::empty());
        assert(s1 =~= s1 + layer_items_pairs(xs.take(0), v));
    }
    while i < items.len()
        invariant
            i <= items@.len(),
            items@.map_values(|x: Layer| x@) == xs,
            xs == drawing@.layers,
            v == drawing@.version,
            pairs_view(pairs@) == s1 + layer_items_pairs(xs.take(i as int), v),
        decreases items.len() - i,
    {
        proof {
            assert(xs[i as int] == items@[i as int]@);
            assert(xs.take(i + 1).drop_last() =~= xs.take(i as int));
        }
        push_layer_item(pairs, &items[i], v, drawing);
        proof {
            lemma_add_assoc(s1, layer_items_pairs(xs.take(i as int), v), layer_item_pairs(xs[i as int], v));
        }
        i = i + 1;
    }
    proof {
        assert(xs.take(i as int) =~= xs);
    }
    push_pair(pairs, CodePair::new_string(0, &text_of(&['E', 'N', 'D', 'T', 'A', 'B'])));
    proof {
        assert(pairs_view(pairs@) =~= s0 + table_pairs(layer_type_word(), xs.len() as int, layer_items_pairs(xs, v), v));
    }
}

/// Appends the pairs of one style item.
fn push_style_item(pairs: &mut Vec<CodePair>, x: &Style, v: AcadVersion, drawing: &Drawing)
    requires
        drawing@.version == v,
    ensures
        pairs_view(final(pairs)@) == pairs_view(old(pairs)@) + style_item_pairs(x@, v),
{
    let ghost s0 = pairs_view(pairs@);
    proof {
        let tw: Seq<char> = seq!['S', 'T', 'Y', 'L', 'E'];
    }
    push_item_header(pairs, &['S', 'T', 'Y', 'L', 'E'], &['A', 'c', 'D', 'b', 'T', 'e', 'x', 't', 'S', 't', 'y', 'l', 'e', 'T', 'a', 'b', 'l', 'e', 'R', 'e', 'c', 'o', 'r', 'd'], x.handle, &x.extension_data_groups, &x.name, v);
    let ghost s1 = pairs_view(pairs@);
        push_pair(pairs, CodePair::new_real(40, x.text_height));
        push_pair(pairs, CodePair::new_real(41, x.width_factor));
    proof {
        assert(pairs_view(pairs@) =~= s1 + (seq![real_pair(40, x@.text_height), real_pair(41, x@.width_factor)]));
        lemma_add_assoc(s0, item_header(style_type_word(), style_subclass(), x@.handle, x@.groups, x@.name, v), seq![real_pair(40, x@.text_height), real_pair(41, x@.width_factor)]);
    }
}

/// Appends the pairs of the style table.
fn push_style_table(pairs: &mut Vec<CodePair>, drawing: &Drawing)
    ensures
        pairs_view(final(pairs)@) == pairs_view(old(pairs)@) + table_pairs(
            style_type_word(),
            drawing@.styles.len() as int,
            style_items_pairs(drawing@.styles, drawing@.version),
            drawing@.version,
        ),
{
    let v = drawing.version();
    let items = drawing.styles();
    let ghost s0 = pairs_view(pairs@);
    let ghost xs = drawing@.styles;
    push_table_header(pairs, &['S', 'T', 'Y', 'L', 'E'], items.len(), v);
    let ghost s1 = pairs_view(pairs@);
    let mut i: usize = 0;
    proof {
        assert(xs.take(0) =~= Seq::<StyleModel>::empty());
        assert(s1 =~= s1 + style_items_pairs(xs.take(0), v));
    }
    while i < items.len()
        invariant
            i <= items@.len(),
            items@.map_values(|x: Style| x@) == xs,
            xs == drawing@.styles,
            v == drawing@.version,
            pairs_view(pairs@) == s1 + style_items_pairs(xs.take(i as int), v),
        decreases items.len() - i,
    {
        proof {
            assert(xs[i as int] == items@[i as int]@);
            assert(xs.take(i + 1).drop_last() =~= xs.take(i as int));
        }
        push_style_item(pairs, &items[i], v, drawing);
        proof {
            lemma_add_assoc(s1, style_items_pairs(xs.take(i as int), v), style_item_pairs(xs[i as int], v));
        }
        i = i + 1;
    }
    proof {
        assert(xs.take(i as int) =~= xs);
    }
    push_pair(pairs, CodePair::new_string(0, &text_of(&['E', 'N', 'D', 'T', 'A', 'B'])));
    proof {
        assert(pairs_view(pairs@) =~= s0 + table_pairs(style_type_word(), xs.len() as int, style_items_pairs(xs, v), v));
    }
}

/// Appends the pairs of one view item.
fn push_view_item(pairs: &mut Vec<CodePair>, x: &View, v: AcadVersion, drawing: &Drawing)
    requires
        drawing@.version == v,
    ensures
        pairs_view(final(pairs)@) == pairs_view(old(pairs)@) + view_item_pairs(x@, v),
{
    let ghost s0 = pairs_view(pairs@);
    proof {
        let tw: Seq<char> = seq!['V', 'I', 'E', 'W'];
    }
    push_item_header(pairs, &['V', 'I', 'E', 'W'], &['A', 'c', 'D', 'b', 'V', 'i', 'e', 'w', 'T', 'a', 'b', 'l', 'e', 'R', 'e', 'c', 'o', 'r', 'd'], x.handle, &x.extension_data_groups, &x.name, v);
    let ghost s1 = pairs_view(pairs@);
        push_pair(pairs, CodePair::new_real(40, x.view_height));
        push_pair(pairs, CodePair::new_real(41, x.view_width));
        push_pair(pairs, CodePair::new_real(42, x.lens_length));
    proof {
        assert(pairs_view(pairs@) =~= s1 + (seq![real_pair(40, x@.view_height), real_pair(41, x@.view_width), real_pair(42, x@.lens_length)]));
        lemma_add_assoc(s0, item_header(view_type_word(), view_subclass(), x@.handle, x@.groups, x@.name, v), seq![real_pair(40, x@.view_height), real_pair(41, x@.view_width), real_pair(42, x@.lens_length)]);
    }
}

/// Appends the pairs of the view table.
fn push_view_table(pairs: &mut Vec<CodePair>, drawing: &Drawing)
    ensures
        pairs_view(final(pairs)@) == pairs_view(old(pairs)@) + table_pairs(
            view_type_word(),
            drawing@.views.len() as int,
            view_items_pairs(drawing@.views, drawing@.version),
            drawing@.version,
        ),
{
    let v = drawing.version();
    let items = drawing.views();
    let ghost s0 = pairs_view(pairs@);
    let ghost xs = drawing@.views;
    push_table_header(pairs, &['V', 'I', 'E', 'W'], items.len(), v);
    let ghost s1 = pairs_view(pairs@);
    let mut i: usize = 0;
    proof {
        assert(xs.take(0) =~= Seq::<ViewModel>::empty());
        assert(s1 =~= s1 + view_items_pairs(xs.take(0), v));
    }
    while i < items.len()
        invariant
            i <= items@.len(),
            items@.map_values(|x: View| x@) == xs,
            xs == drawing@.views,
            v == drawing@.version,
            pairs_view(pairs@) == s1 + view_items_pairs(xs.take(i as int), v),
        decreases items.len() - i,
    {
        proof {
            assert(xs[i as int] == items@[i as int]@);
            assert(xs.take(i + 1).drop_last() =~= xs.take(i as int));
        }
        push_view_item(pairs, &items[i], v, drawing);
        proof {
            lemma_add_assoc(s1, view_items_pairs(xs.take(i as int), v), view_item_pairs(xs[i as int], v));
        }
        i = i + 1;
    }
    proof {
        assert(xs.take(i as int) =~= xs);
    }
    push_pair(pairs, CodePair::new_string(0, &text_of(&['E', 'N', 'D', 'T', 'A', 'B'])));
    proof {
        assert(pairs_view(pairs@) =~= s0 + table_pairs(view_type_word(), xs.len() as int, view_items_pairs(xs, v), v));
    }
}

/// Appends the pairs of one ucs item.
fn push_ucs_item(pairs: &mut Vec<CodePair>, x: &Ucs, v: AcadVersion, drawing: &Drawing)
    requires
        drawing@.version == v,
    ensures
        pairs_view(final(pairs)@) == pairs_view(old(pairs)@) + ucs_item_pairs(x@, v),
{
    let ghost s0 = pairs_view(pairs@);
    proof {
        let tw: Seq<char> = seq!['U', 'C', 'S'];
    }
    push_item_header(pairs, &['U', 'C', 'S'], &['A', 'c', 'D', 'b', 'U', 'C', 'S', 'T', 'a', 'b', 'l', 'e', 'R', 'e', 'c', 'o', 'r', 'd'], x.handle, &x.extension_data_groups, &x.name, v);
    let ghost s1 = pairs_view(pairs@);
    proof {
        assert(pairs_view(pairs@) =~= s1 + (Seq::<PairView>::empty()));
        lemma_add_assoc(s0, item_header(ucs_type_word(), ucs_subclass(), x@.handle, x@.groups, x@.name, v), Seq::<PairView>::empty());
    }
}

/// Appends the pairs of the ucs table.
fn push_ucs_table(pairs: &mut Vec<CodePair>, drawing: &Drawing)
    ensures
        pairs_view(final(pairs)@) == pairs_view(old(pairs)@) + table_pairs(
            ucs_type_word(),
            drawing@.ucss.len() as int,
            ucs_items_pairs(drawing@.ucss, drawing@.version),
            drawing@.version,
        ),
{
    let v = drawing.version();
    let items = drawing.ucss();
    let ghost s0 = pairs_view(pairs@);
    let ghost xs = drawing@.ucss;
    push_table_header(pairs, &['U', 'C', 'S'], items.len(), v);
    let ghost s1 = pairs_view(pairs@);
    let mut i: usize = 0;
    proof {
        assert(xs.take(0) =~= Seq::<NamedModel>::empty());
        assert(s1 =~= s1 + ucs_items_pairs(xs.take(0), v));
    }
    while i < items.len()
        invariant
            i <= items@.len(),
            items@.map_values(|x: Ucs| x@) == xs,
            xs == drawing@.ucss,
            v == drawing@.version,
            pairs_view(pairs@) == s1 + ucs_items_pairs(xs.take(i as int), v),
        decreases items.len() - i,
    {
        proof {
            assert(xs[i as int] == items@[i as int]@);
            assert(xs.take(i + 1).drop_last() =~= xs.take(i as int));
        }
        push_ucs_item(pairs, &items[i], v, drawing);
        proof {
            lemma_add_assoc(s1, ucs_items_pairs(xs.take(i as int), v), ucs_item_pairs(xs[i as int], v));
        }
        i = i + 1;
    }
    proof {
        assert(xs.take(i as int) =~= xs);
    }
    push_pair(pairs, CodePair::new_string(0, &text_of(&['E', 'N', 'D', 'T', 'A', 'B'])));
    proof {
        assert(pairs_view(pairs@) =~= s0 + table_pairs(ucs_type_word(), xs.len() as int, ucs_items_pairs(xs, v), v));
    }
}

/// Appends the pairs of one app id item.
fn push_app_id_item(pairs: &mut Vec<CodePair>, x: &AppId, v: AcadVersion, drawing: &Drawing)
    requires
        drawing@.version == v,
    ensures
        pairs_view(final(pairs)@) == pairs_view(old(pairs)@) + app_id_item_pairs(x@, v),
{
    let ghost s0 = pairs_view(pairs@);
    proof {
        let tw: Seq<char> = seq!['A', 'P', 'P', 'I', 'D'];
    }
    push_item_header(pairs, &['A', 'P', 'P', 'I', 'D'], &['A', 'c', 'D', 'b', 'R', 'e', 'g', 'A', 'p', 'p', 'T', 'a', 'b', 'l', 'e', 'R', 'e', 'c', 'o', 'r', 'd'], x.handle, &x.extension_data_groups, &x.name, v);
    let ghost s1 = pairs_view(pairs@);
    proof {
        assert(pairs_view(pairs@) =~= s1 + (Seq::<PairView>::empty()));
        lemma_add_assoc(s0, item_header(app_id_type_word(), app_id_subclass(), x@.handle, x@.groups, x@.name, v), Seq::<PairView>::empty());
    }
}

/// Appends the pairs of the app id table.
fn push_app_id_table(pairs: &mut Vec<CodePair>, drawing: &Drawing)
    ensures
        pairs_view(final(pairs)@) == pairs_view(old(pairs)@) + table_pairs(
            app_id_type_word(),
            drawing@.app_ids.len() as int,
            app_id_items_pairs(drawing@.app_ids, drawing@.version),
            drawing@.version,
        ),
{
    let v = drawing.version();
    let items = drawing.app_ids();
    let ghost s0 = pairs_view(pairs@);
    let ghost xs = drawing@.app_ids;
    push_table_header(pairs, &['A', 'P', 'P', 'I', 'D'], items.len(), v);
    let ghost s1 = pairs_view(pairs@);
    let mut i: usize = 0;
    proof {
        assert(xs.take(0) =~= Seq::<NamedModel>::empty());
        assert(s1 =~= s1 + app_id_items_pairs(xs.take(0), v));
    }
    while i < items.len()
        invariant
            i <= items@.len(),
            items@.map_values(|x: AppId| x@) == xs,
            xs == drawing@.app_ids,
            v == drawing@.version,
            pairs_view(pairs@) == s1 + app_id_items_pairs(xs.take(i as int), v),
        decreases items.len() - i,
    {
        proof {
            assert(xs[i as int] == items@[i as int]@);
            assert(xs.take(i + 1).drop_last() =~= xs.take(i as int));
        }
        push_app_id_item(pairs, &items[i], v, drawing);
        proof {
            lemma_add_assoc(s1, app_id_items_pairs(xs.take(i as int), v), app_id_item_pairs(xs[i as int], v));
        }
        i = i + 1;
    }
    proof {
        assert(xs.take(i as int) =~= xs);
    }
    push_pair(pairs, CodePair::new_string(0, &text_of(&['E', 'N', 'D', 'T', 'A', 'B'])));
    proof {
        assert(pairs_view(pairs@) =~= s0 + table_pairs(app_id_type_word(), xs.len() as int, app_id_items_pairs(xs, v), v));
    }
}

/// Appends the pairs of one block record item.
fn push_block_record_item(pairs: &mut Vec<CodePair>, x: &BlockRecord, v: AcadVersion, drawing: &Drawing)
    requires
        drawing@.version == v,
    ensures
        pairs_view(final(pairs)@) == pairs_view(old(pairs)@) + block_record_item_pairs(x@, v),
{
    let ghost s0 = pairs_view(pairs@);
    proof {
        let tw: Seq<char> = seq!['B', 'L', 'O', 'C', 'K', '_', 'R', 'E', 'C', 'O', 'R', 'D'];
    }
    push_item_header(pairs, &['B', 'L', 'O', 'C', 'K', '_', 'R', 'E', 'C', 'O', 'R', 'D'], &['A', 'c', 'D', 'b', 'B', 'l', 'o', 'c', 'k', 'T', 'a', 'b', 'l', 'e', 'R', 'e', 'c', 'o', 'r', 'd'], x.handle, &x.extension_data_groups, &x.name, v);
    let ghost s1 = pairs_view(pairs@);
    proof {
        assert(pairs_view(pairs@) =~= s1 + (Seq::<PairView>::empty()));
        lemma_add_assoc(s0, item_header(block_record_type_word(), block_record_subclass(), x@.handle, x@.groups, x@.name, v), Seq::<PairView>::empty());
    }
}

/// Appends the pairs of the block record table.
fn push_block_record_table(pairs: &mut Vec<CodePair>, drawing: &Drawing)
    ensures
        pairs_view(final(pairs)@) == pairs_view(old(pairs)@) + table_pairs(
            block_record_type_word(),
            drawing@.block_records.len() as int,
            block_record_items_pairs(drawing@.block_records, drawing@.version),
            drawing@.version,
        ),
{
    let v = drawing.version();
    let items = drawing.block_records();
    let ghost s0 = pairs_view(pairs@);
    let ghost xs = drawing@.block_records;
    push_table_header(pairs, &['B', 'L', 'O', 'C', 'K', '_', 'R', 'E', 'C', 'O', 'R', 'D'], items.len(), v);
    let ghost s1 = pairs_view(pairs@);
    let mut i: usize = 0;
    proof {
        assert(xs.take(0) =~= Seq::<NamedModel>::empty());
        assert(s1 =~= s1 + block_record_items_pairs(xs.take(0), v));
    }
    while i < items.len()
        invariant
            i <= items@.len(),
            items@.map_values(|x: BlockRecord| x@) == xs,
            xs == drawing@.block_records,
            v == drawing@.version,
            pairs_view(pairs@) == s1 + block_record_items_pairs(xs.take(i as int), v),
        decreases items.len() - i,
    {
        proof {
            assert(xs[i as int] == items@[i as int]@);
            assert(xs.take(i + 1).drop_last() =~= xs.take(i as int));
        }
        push_block_record_item(pairs, &items[i], v, drawing);
        proof {
            lemma_add_assoc(s1, block_record_items_pairs(xs.take(i as int), v), block_record_item_pairs(xs[i as int], v));
        }
        i = i + 1;
    }
    proof {
        assert(xs.take(i as int) =~= xs);
    }
    push_pair(pairs, CodePair::new_string(0, &text_of(&['E', 'N', 'D', 'T', 'A', 'B'])));
    proof {
        assert(pairs_view(pairs@) =~= s0 + table_pairs(block_record_type_word(), xs.len() as int, block_record_items_pairs(xs, v), v));
    }
}

/// Appends the pairs that start a table.
fn push_table_header(pairs: &mut Vec<CodePair>, name: &[char], count: usize, v: AcadVersion)
    ensures
        pairs_view(final(pairs)@) == pairs_view(old(pairs)@) + (seq![str_pair(0, table_word()), str_pair(2, name@)] + (if version_at_least(v, AcadVersion::R13) {
            seq![str_pair(100, symbol_table())]
        } else {
            Seq::empty()
        }) + seq![short_pair(70, count as i16)]),
{
    let ghost s0 = pairs_view(pairs@);
    push_pair(pairs, CodePair::new_string(0, &text_of(&['T', 'A', 'B', 'L', 'E'])));
    push_pair(pairs, CodePair::new_string(2, &text_of(name)));
    if v.at_least(AcadVersion::R13) {
        push_pair(pairs, CodePair::new_string(100, &text_of(&['A', 'c', 'D', 'b', 'S', 'y', 'm', 'b', 'o', 'l', 'T', 'a', 'b', 'l', 'e'])));
    }
    push_pair(pairs, CodePair::new_i16(70, count as i16));
    proof {
        assert(pairs_view(pairs@) =~= s0 + (seq![str_pair(0, table_word()), str_pair(2, name@)] + (if version_at_least(v, AcadVersion::R13) {
            seq![str_pair(100, symbol_table())]
        } else {
            Seq::empty()
        }) + seq![short_pair(70, count as i16)]));
    }
}

impl Drawing {
    /// The code pairs that write the drawing, as `drawing_pairs` describes.
    pub fn code_pairs(&self) -> (r: Vec<CodePair>)
        ensures
            pairs_view(r@) == drawing_pairs(self@),
    {
        let mut pairs: Vec<CodePair> = Vec::new();
        let ghost d = self@;
        push_pair(&mut pairs, CodePair::new_string(0, &text_of(&['S', 'E', 'C', 'T', 'I', 'O', 'N'])));
        push_pair(&mut pairs, CodePair::new_string(2, &text_of(&['T', 'A', 'B', 'L', 'E', 'S'])));
        let ghost p0 = pairs_view(pairs@);
        push_view_port_table(&mut pairs, self);
        let ghost p1 = pairs_view(pairs@);
        push_line_type_table(&mut pairs, self);
        let ghost p2 = pairs_view(pairs@);
        push_layer_table(&mut pairs, self);
        let ghost p3 = pairs_view(pairs@);
        push_style_table(&mut pairs, self);
        let ghost p4 = pairs_view(pairs@);
        push_view_table(&mut pairs, self);
        let ghost p5 = pairs_view(pairs@);
        push_ucs_table(&mut pairs, self);
        let ghost p6 = pairs_view(pairs@);
        push_app_id_table(&mut pairs, self);
        let ghost p7 = pairs_view(pairs@);
        if self.version().at_least(AcadVersion::R13) {
            push_block_record_table(&mut pairs, self);
        }
        let ghost p8 = pairs_view(pairs@);
        push_pair(&mut pairs, CodePair::new_string(0, &text_of(&['E', 'N', 'D', 'S', 'E', 'C'])));
        push_pair(&mut pairs, CodePair::new_string(0, &text_of(&['E', 'O', 'F'])));
        proof {
            assert(pairs_view(pairs@) =~= drawing_pairs(d));
        }
        pairs
    }
}

/// The pairs of a table item begin with its type `(0, ..)` and its handle
/// `(5, ..)` in upper-case hexadecimal, and end, before the item's own values,
/// with its name `(2, ..)` and flags `(70, 0)`, preceded from R13 on by the
/// markers `(100, "AcDbSymbolTableRecord")` and `(100, subclass)`.
pub proof fn item_header_law(
    kind_word: Seq<char>,
    subclass: Seq<char>,
    handle: u64,
    groups: Seq<GroupModel>,
    name: Seq<char>,
    v: AcadVersion,
)
    ensures
        ({
            let h = item_header(kind_word, subclass, handle, groups, name, v);
            let n = h.len();
            &&& n >= 4
            &&& h[0] == (PairView { code: 0, value: ValueView::Str(kind_word) })
            &&& h[1] == (PairView { code: 5, value: ValueView::Str(hex_upper(handle as nat)) })
            &&& h[n - 2] == (PairView { code: 2, value: ValueView::Str(name) })
            &&& h[n - 1] == (PairView { code: 70, value: ValueView::Short(0) })
            &&& version_at_least(v, AcadVersion::R13) ==> {
                &&& n >= 6
                &&& h[n - 4] == (PairView {
                    code: 100,
                    value: ValueView::Str(
                        seq!['A', 'c', 'D', 'b', 'S', 'y', 'm', 'b', 'o', 'l', 'T', 'a', 'b', 'l', 'e', 'R', 'e', 'c', 'o', 'r', 'd'],
                    ),
                })
                &&& h[n - 3] == (PairView { code: 100, value: ValueView::Str(subclass) })
            }
        }),
{
    let a = seq![str_pair(0, kind_word), str_pair(5, hex_upper(handle as nat))];
    let g = if version_at_least(v, AcadVersion::R14) { groups_pairs(groups) } else { Seq::empty() };
    let m = if version_at_least(v, AcadVersion::R13) {
        seq![str_pair(100, symbol_table_record()), str_pair(100, subclass)]
    } else {
        Seq::empty()
    };
    let t = seq![str_pair(2, name), short_pair(70, 0)];
    let h = item_header(kind_word, subclass, handle, groups, name, v);
    assert(h == a + g + m + t);
    let n = h.len() as int;
    assert(h[n - 2] == t[0]);
    assert(h[n - 1] == t[1]);
    assert(h[0] == a[0]);
    assert(h[1] == a[1]);
    if version_at_least(v, AcadVersion::R13) {
        assert(h[n - 4] == m[0]);
        assert(h[n - 3] == m[1]);
    }
}

/// A layer item is its item header followed by its color `(62, ..)`, negated
/// where the layer is off, and its line type name `(6, ..)`; a style item by
/// its text height `(40, ..)` and width factor `(41, ..)`; a named view by its
/// height `(40, ..)`, width `(41, ..)` and lens length `(42, ..)`.
pub proof fn item_values_law(l: LayerModel, s: StyleModel, w: ViewModel, v: AcadVersion)
    ensures
        layer_item_pairs(l, v) == item_header(layer_type_word(), layer_subclass(), l.handle, l.groups, l.name, v)
            + seq![
            (PairView {
                code: 62,
                value: ValueView::Short(
                    if l.is_layer_on || l.color == i16::MIN { l.color } else { (-l.color) as i16 },
                ),
            }),
            (PairView { code: 6, value: ValueView::Str(l.line_type_name) }),
        ],
        style_item_pairs(s, v) == item_header(style_type_word(), style_subclass(), s.handle, s.groups, s.name, v)
            + seq![
            (PairView { code: 40, value: ValueView::Double(s.text_height) }),
            (PairView { code: 41, value: ValueView::Double(s.width_factor) }),
        ],
        view_item_pairs(w, v) == item_header(view_type_word(), view_subclass(), w.handle, w.groups, w.name, v)
            + seq![
            (PairView { code: 40, value: ValueView::Double(w.view_height) }),
            (PairView { code: 41, value: ValueView::Double(w.view_width) }),
            (PairView { code: 42, value: ValueView::Double(w.lens_length) }),
        ],
{
}

} // verus!
