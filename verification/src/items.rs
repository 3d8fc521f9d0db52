//! Reading one table item from the code pairs after its type pair.

use vstd::prelude::*;
use vstd::view::View as _;

use crate::code_pair::{CodePair, CodePairValue, PairView, ValueView};
use crate::drawing::{empty_drawing, Drawing, DrawingModel};
use crate::enums::default_version;
use crate::error::{DxfError, DxfResult};
use crate::handle::{handle_from_hex, hex_value, Handle};
use crate::linetype::{
    changes_last_element, custom_read_line_type_code_pairs, default_line_type, read_line_type_pair,
    LineType, LineTypeModel,
};
use crate::point::Vector;
use crate::tables::{
    default_layer, default_style, default_view, default_view_port, named_default, AppId, BlockRecord,
    ExtensionGroup, ExtensionGroupItem, GroupModel, Layer, LayerModel, NamedModel, Style,
    StyleModel, Ucs, View, ViewModel, ViewPort, ViewPortModel,
};
use crate::text::chars_of;

verus! {

/// The handle that a text denotes: a non-empty hexadecimal numeral whose value
/// fits in 64 bits.
pub open spec fn handle_value(s: Seq<char>) -> Option<u64> {
    if s.len() > 0 && hex_value(s) is Some && hex_value(s).unwrap() <= u64::MAX {
        Some(hex_value(s).unwrap() as u64)
    } else {
        None
    }
}

/// The application name that a pair opens an extension data group with: a
/// 102 pair whose text starts with `{`.
pub open spec fn group_open(p: PairView) -> Option<Seq<char>> {
    match p.value {
        ValueView::Str(s) => if p.code == 102 && s.len() > 0 && s[0] == '{' {
            Some(s.drop_first())
        } else {
            None
        },
        _ => None,
    }
}

/// Whether a pair closes an extension data group: a 102 pair with text `}`.
pub open spec fn is_group_close(p: PairView) -> bool {
    p.code == 102 && p.value == ValueView::Str(seq!['}'])
}

/// Reads the handle of a handle pair.
fn read_handle(p: &CodePair) -> (r: DxfResult<Handle>)
    ensures
        match p.value@ {
            ValueView::Str(s) => match handle_value(s) {
                Some(h) => r == Ok::<Handle, DxfError>(Handle(h)),
                None => r == Err::<Handle, DxfError>(DxfError::ParseHandleError),
            },
            _ => r == Err::<Handle, DxfError>(DxfError::WrongValueType(p.code)),
        },
{
    match &p.value {
        CodePairValue::Str(s) => {
            let chars = chars_of(s.as_str());
            match handle_from_hex(&chars) {
                Some(h) => Ok(h),
                None => Err(DxfError::ParseHandleError),
            }
        },
        _ => Err(DxfError::WrongValueType(p.code)),
    }
}

/// Whether a pair opens an extension data group, and with which name.
fn read_group_open(p: &CodePair) -> (r: Option<String>)
    ensures
        match group_open(p@) {
            Some(n) => r matches Some(s) && s@ == n,
            None => r is None,
        },
{
    if p.code != 102 {
        return None;
    }
    match &p.value {
        CodePairValue::Str(s) => {
            let chars = chars_of(s.as_str());
            if chars.len() > 0 && chars[0] == '{' {
                let rest = crate::text::tail_from(chars.as_slice(), 1);
                Some(crate::text::string_of(rest.as_slice()))
            } else {
                None
            }
        },
        _ => None,
    }
}

/// Whether a pair closes an extension data group.
fn read_group_close(p: &CodePair) -> (r: bool)
    ensures
        r == is_group_close(p@),
{
    if p.code != 102 {
        return false;
    }
    match &p.value {
        CodePairValue::Str(s) => {
            let chars = chars_of(s.as_str());
            let r = chars.len() == 1 && chars[0] == '}';
            proof {
                if r {
                    assert(chars@ =~= seq!['}']);
                }
            }
            r
        },
        _ => false,
    }
}

/// The layer after reading one of its pairs: its name (2), its handle (5), its line type (6) and its color (62), where a negative color means the layer is off; a value of the wrong type for its code, or a handle that is not a hexadecimal numeral, is an error, and other pairs change nothing.
pub open spec fn layer_apply(x: LayerModel, p: PairView) -> Result<LayerModel, DxfError> {
    if p.code == 2 {
        match p.value {
            ValueView::Str(s) => Ok(LayerModel { name: s, ..x }),
            _ => Err(DxfError::WrongValueType(p.code)),
        }
    } else if p.code == 5 {
        match p.value {
            ValueView::Str(s) => match handle_value(s) {
                Some(h) => Ok(LayerModel { handle: h, ..x }),
                None => Err(DxfError::ParseHandleError),
            },
            _ => Err(DxfError::WrongValueType(p.code)),
        }
    } else if p.code == 6 {
        match p.value {
            ValueView::Str(s) => Ok(LayerModel { line_type_name: s, ..x }),
            _ => Err(DxfError::WrongValueType(p.code)),
        }
    } else if p.code == 62 {
        match p.value {
            ValueView::Short(c) => Ok(LayerModel {
                color: if c >= 0 || c == i16::MIN {
                    c
                } else {
                    (-c) as i16
                },
                is_layer_on: c >= 0,
                ..x
            }),
            _ => Err(DxfError::WrongValueType(p.code)),
        }
    } else {
        Ok(x)
    }
}

/// Reads one pair into a layer, as `layer_apply` describes.
fn apply_layer_pair(x: &mut Layer, p: &CodePair) -> (r: DxfResult<()>)
    ensures
        match layer_apply(old(x)@, p@) {
            Ok(m) => r is Ok && final(x)@ == m,
            Err(e) => r == Err::<(), DxfError>(e),
        },
{
    if p.code == 2 {
        match &p.value {
            CodePairValue::Str(s) => {
                x.name = s.clone();
                Ok(())
            },
            _ => Err(DxfError::WrongValueType(p.code)),
        }
    } else if p.code == 5 {
        let h = read_handle(p)?;
        x.handle = h;
        Ok(())
    } else if p.code == 6 {
        match &p.value {
            CodePairValue::Str(s) => {
                x.line_type_name = s.clone();
                Ok(())
            },
            _ => Err(DxfError::WrongValueType(p.code)),
        }
    } else if p.code == 62 {
        match &p.value {
            CodePairValue::Short(c) => {
                let c = *c;
                x.color = crate::color::Color::from_raw_value(if c >= 0 || c == i16::MIN {
                    c
                } else {
                    -c
                });
                x.is_layer_on = c >= 0;
                Ok(())
            },
            _ => Err(DxfError::WrongValueType(p.code)),
        }
    } else {
        Ok(())
    }
}

/// One step of reading a layer item's pairs: inside an extension data
/// group the pair is added to the group, or closes it; outside one, a pair
/// either opens a group or is read into the item; an error stays.
pub open spec fn layer_step(r: Result<(LayerModel, Option<GroupModel>), DxfError>, p: PairView) -> Result<(LayerModel, Option<GroupModel>), DxfError> {
    match r {
        Err(e) => Err(e),
        Ok(st) => {
            let x = st.0;
            match st.1 {
                Some(g) => if is_group_close(p) {
                    Ok((LayerModel { groups: x.groups.push(g), ..x }, None))
                } else {
                    Ok((x, Some(GroupModel { items: g.items.push(p), ..g })))
                },
                None => match group_open(p) {
                    Some(n) => Ok((x, Some(GroupModel { application_name: n, items: Seq::empty() }))),
                    None => match layer_apply(x, p) {
                        Ok(x2) => Ok((x2, None)),
                        Err(e) => Err(e),
                    },
                },
            }
        },
    }
}

/// The reading of the pairs `ps` in turn, from the state `r`.
pub open spec fn layer_continue(r: Result<(LayerModel, Option<GroupModel>), DxfError>, ps: Seq<PairView>) -> Result<(LayerModel, Option<GroupModel>), DxfError>
    decreases ps.len(),
{
    if ps.len() == 0 {
        r
    } else {
        layer_step(layer_continue(r, ps.drop_last()), ps.last())
    }
}

/// The reading of a layer item's pairs so far: the item, and the extension data group
/// that is open, if one is.
pub open spec fn layer_read(ps: Seq<PairView>) -> Result<(LayerModel, Option<GroupModel>), DxfError> {
    layer_continue(Ok((default_layer(), None)), ps)
}

/// Reading two runs of pairs one after the other is reading them joined.
pub proof fn lemma_layer_continue_append(r: Result<(LayerModel, Option<GroupModel>), DxfError>, a: Seq<PairView>, b: Seq<PairView>)
    ensures
        layer_continue(r, a + b) == layer_continue(layer_continue(r, a), b),
    decreases b.len(),
{
    if b.len() == 0 {
        assert(a + b =~= a);
    } else {
        lemma_layer_continue_append(r, a, b.drop_last());
        assert((a + b).drop_last() =~= a + b.drop_last());
    }
}

/// The layer that the pairs of one item (those after its type pair) describe:
/// its pairs read in order; extension data groups are kept in the item, one left open
/// at the end being closed there.
pub open spec fn layer_of(ps: Seq<PairView>) -> Result<LayerModel, DxfError> {
    match layer_read(ps) {
        Err(e) => Err(e),
        Ok(st) => match st.1 {
            Some(g) => Ok(LayerModel { groups: st.0.groups.push(g), ..st.0 }),
            None => Ok(st.0),
        },
    }
}

/// Reads a layer from the pairs `ps[start..end]`, as `layer_of` describes.
pub(crate) fn layer_from_pairs(ps: &Vec<CodePair>, start: usize, end: usize) -> (r: DxfResult<Layer>)
    requires
        start <= end <= ps@.len(),
    ensures
        match layer_of(crate::code_pair::pairs_view(ps@).subrange(start as int, end as int)) {
            Ok(m) => r matches Ok(x) && x@ == m,
            Err(e) => r matches Err(e2) && e2 == e,
        },
{
    let ghost pv = crate::code_pair::pairs_view(ps@);
    let mut x = Layer::default();
    let mut group: Option<ExtensionGroup> = None;
    let mut i: usize = start;
    proof {
        assert(pv.subrange(start as int, start as int) =~= Seq::<PairView>::empty());
    }
    while i < end
        invariant
            start <= i <= end <= ps@.len(),
            pv == crate::code_pair::pairs_view(ps@),
            layer_read(pv.subrange(start as int, i as int)) == Ok::<(LayerModel, Option<GroupModel>), DxfError>((
                x@,
                match group {
                    Some(g) => Some(g@),
                    None => None,
                },
            )),
        decreases end - i,
    {
        let p = &ps[i];
        proof {
            assert(pv.subrange(start as int, i + 1).drop_last() =~= pv.subrange(start as int, i as int));
            assert(pv.subrange(start as int, i + 1).last() == p@);
        }
        match group {
            Some(mut g) => {
                if read_group_close(p) {
                    let ghost before = x@;
                    let ghost gv = g@;
                    x.extension_data_groups.push(g);
                    proof {
                        assert(crate::tables::groups_view(x.extension_data_groups@) =~= before.groups.push(gv));
                    }
                    group = None;
                } else {
                    let ghost gv = g@;
                    g.items.push(ExtensionGroupItem::CodePair(p.duplicate()));
                    proof {
                        assert(g@.items =~= gv.items.push(p@));
                    }
                    group = Some(g);
                }
            },
            None => {
                match read_group_open(p) {
                    Some(n) => {
                        let g = ExtensionGroup { application_name: n, items: Vec::new() };
                        proof {
                            assert(g@.items =~= Seq::<PairView>::empty());
                        }
                        group = Some(g);
                    },
                    None => {
                        let r = apply_layer_pair(&mut x, p);
                        if let Err(e) = r {
                            proof {
                                assert(layer_read(pv.subrange(start as int, i + 1)) is Err);
                                assert(pv.subrange(start as int, end as int).subrange(0, i - start + 1) =~= pv.subrange(start as int, i + 1));
                                lemma_layer_read_error(pv.subrange(start as int, end as int), (i - start + 1) as int);
                            }
                            return Err(e);
                        }
                        group = None;
                    },
                }
            },
        }
        i = i + 1;
    }
    match group {
        Some(g) => {
            let ghost before = x@;
            let ghost gv = g@;
            x.extension_data_groups.push(g);
            proof {
                assert(crate::tables::groups_view(x.extension_data_groups@) =~= before.groups.push(gv));
            }
        },
        None => {},
    }
    Ok(x)
}

proof fn lemma_layer_read_error(ps: Seq<PairView>, k: int)
    requires
        0 < k <= ps.len(),
        layer_read(ps.subrange(0, k)) is Err,
    ensures
        layer_read(ps) == layer_read(ps.subrange(0, k)),
    decreases ps.len(),
{
    if k < ps.len() {
        assert(ps.drop_last().subrange(0, k) =~= ps.subrange(0, k));
        lemma_layer_read_error(ps.drop_last(), k);
        assert(layer_read(ps) == layer_step(layer_read(ps.drop_last()), ps.last()));
    } else {
        assert(ps.subrange(0, k) =~= ps);
    }
}

/// The line type after reading one of its pairs: its name (2), its handle (5), its description (3), alignment code (72), element count (73), total length (40) and its pattern pairs, as `read_line_type_pair` describes; a pattern pair that changes the last element where there is none is an error; a value of the wrong type for its code, or a handle that is not a hexadecimal numeral, is an error, and other pairs change nothing.
pub open spec fn line_type_apply(x: LineTypeModel, p: PairView) -> Result<LineTypeModel, DxfError> {
    if p.code == 2 {
        match p.value {
            ValueView::Str(s) => Ok(LineTypeModel { name: s, ..x }),
            _ => Err(DxfError::WrongValueType(p.code)),
        }
    } else if p.code == 5 {
        match p.value {
            ValueView::Str(s) => match handle_value(s) {
                Some(h) => Ok(LineTypeModel { handle: h, ..x }),
                None => Err(DxfError::ParseHandleError),
            },
            _ => Err(DxfError::WrongValueType(p.code)),
        }
    } else if p.code == 3 {
        match p.value {
            ValueView::Str(s) => Ok(LineTypeModel { description: s, ..x }),
            _ => Err(DxfError::WrongValueType(p.code)),
        }
    } else if p.code == 72 {
        match p.value {
            ValueView::Short(v) => Ok(LineTypeModel { alignment_code: v as i32, ..x }),
            _ => Err(DxfError::WrongValueType(p.code)),
        }
    } else if p.code == 73 {
        match p.value {
            ValueView::Short(v) => Ok(LineTypeModel { element_count: v as i32, ..x }),
            _ => Err(DxfError::WrongValueType(p.code)),
        }
    } else if p.code == 40 {
        match p.value {
            ValueView::Double(d) => Ok(LineTypeModel { total_pattern_length: d, ..x }),
            _ => Err(DxfError::WrongValueType(p.code)),
        }
    } else if changes_last_element(p.code) && x.line_elements.len() == 0 {
        Err(DxfError::UnexpectedCodePair(p.code))
    } else {
        read_line_type_pair(x, p)
    }
}

/// Reads one pair into a line type, as `line_type_apply` describes.
fn apply_line_type_pair(x: &mut LineType, p: &CodePair) -> (r: DxfResult<()>)
    requires
        true,
    ensures
        match line_type_apply(old(x)@, p@) {
            Ok(m) => r is Ok && final(x)@ == m,
            Err(e) => r == Err::<(), DxfError>(e),
        },
{
    if p.code == 2 {
        match &p.value {
            CodePairValue::Str(s) => {
                x.name = s.clone();
                Ok(())
            },
            _ => Err(DxfError::WrongValueType(p.code)),
        }
    } else if p.code == 5 {
        let h = read_handle(p)?;
        x.handle = h;
        Ok(())
    } else if p.code == 3 {
        match &p.value {
            CodePairValue::Str(s) => {
                x.description = s.clone();
                Ok(())
            },
            _ => Err(DxfError::WrongValueType(p.code)),
        }
    } else if p.code == 72 {
        match &p.value {
            CodePairValue::Short(v) => {
                x.alignment_code = *v as i32;
                Ok(())
            },
            _ => Err(DxfError::WrongValueType(p.code)),
        }
    } else if p.code == 73 {
        match &p.value {
            CodePairValue::Short(v) => {
                x.element_count = *v as i32;
                Ok(())
            },
            _ => Err(DxfError::WrongValueType(p.code)),
        }
    } else if p.code == 40 {
        match &p.value {
            CodePairValue::Double(d) => {
                x.total_pattern_length = *d;
                Ok(())
            },
            _ => Err(DxfError::WrongValueType(p.code)),
        }
    } else {
        let code = p.code;
        if (code == 74 || code == 75 || code == 46 || code == 44 || code == 45 || code == 9)
            && x.line_elements.len() == 0 {
            return Err(DxfError::UnexpectedCodePair(p.code));
        }
        custom_read_line_type_code_pairs(p.duplicate(), x)
    }
}

/// One step of reading a line type item's pairs: inside an extension data
/// group the pair is added to the group, or closes it; outside one, a pair
/// either opens a group or is read into the item; an error stays.
pub open spec fn line_type_step(r: Result<(LineTypeModel, Option<GroupModel>), DxfError>, p: PairView) -> Result<(LineTypeModel, Option<GroupModel>), DxfError> {
    match r {
        Err(e) => Err(e),
        Ok(st) => {
            let x = st.0;
            match st.1 {
                Some(g) => if is_group_close(p) {
                    Ok((LineTypeModel { groups: x.groups.push(g), ..x }, None))
                } else {
                    Ok((x, Some(GroupModel { items: g.items.push(p), ..g })))
                },
                None => match group_open(p) {
                    Some(n) => Ok((x, Some(GroupModel { application_name: n, items: Seq::empty() }))),
                    None => match line_type_apply(x, p) {
                        Ok(x2) => Ok((x2, None)),
                        Err(e) => Err(e),
                    },
                },
            }
        },
    }
}

/// The reading of the pairs `ps` in turn, from the state `r`.
pub open spec fn line_type_continue(r: Result<(LineTypeModel, Option<GroupModel>), DxfError>, ps: Seq<PairView>) -> Result<(LineTypeModel, Option<GroupModel>), DxfError>
    decreases ps.len(),
{
    if ps.len() == 0 {
        r
    } else {
        line_type_step(line_type_continue(r, ps.drop_last()), ps.last())
    }
}

/// The reading of a line type item's pairs so far: the item, and the extension data group
/// that is open, if one is.
pub open spec fn line_type_read(ps: Seq<PairView>) -> Result<(LineTypeModel, Option<GroupModel>), DxfError> {
    line_type_continue(Ok((default_line_type(), None)), ps)
}

/// Reading two runs of pairs one after the other is reading them joined.
pub proof fn lemma_line_type_continue_append(r: Result<(LineTypeModel, Option<GroupModel>), DxfError>, a: Seq<PairView>, b: Seq<PairView>)
    ensures
        line_type_continue(r, a + b) == line_type_continue(line_type_continue(r, a), b),
    decreases b.len(),
{
    if b.len() == 0 {
        assert(a + b =~= a);
    } else {
        lemma_line_type_continue_append(r, a, b.drop_last());
        assert((a + b).drop_last() =~= a + b.drop_last());
    }
}

/// The line type that the pairs of one item (those after its type pair) describe:
/// its pairs read in order; extension data groups are kept in the item, one left open
/// at the end being closed there.
pub open spec fn line_type_of(ps: Seq<PairView>) -> Result<LineTypeModel, DxfError> {
    match line_type_read(ps) {
        Err(e) => Err(e),
        Ok(st) => match st.1 {
            Some(g) => Ok(LineTypeModel { groups: st.0.groups.push(g), ..st.0 }),
            None => Ok(st.0),
        },
    }
}

/// Reads a line type from the pairs `ps[start..end]`, as `line_type_of` describes.
pub(crate) fn line_type_from_pairs(ps: &Vec<CodePair>, start: usize, end: usize) -> (r: DxfResult<LineType>)
    requires
        start <= end <= ps@.len(),
    ensures
        match line_type_of(crate::code_pair::pairs_view(ps@).subrange(start as int, end as int)) {
            Ok(m) => r matches Ok(x) && x@ == m,
            Err(e) => r matches Err(e2) && e2 == e,
        },
{
    let ghost pv = crate::code_pair::pairs_view(ps@);
    let mut x = LineType::default();
    let mut group: Option<ExtensionGroup> = None;
    let mut i: usize = start;
    proof {
        assert(pv.subrange(start as int, start as int) =~= Seq::<PairView>::empty());
    }
    while i < end
        invariant
            start <= i <= end <= ps@.len(),
            pv == crate::code_pair::pairs_view(ps@),
            line_type_read(pv.subrange(start as int, i as int)) == Ok::<(LineTypeModel, Option<GroupModel>), DxfError>((
                x@,
                match group {
                    Some(g) => Some(g@),
                    None => None,
                },
            )),
        decreases end - i,
    {
        let p = &ps[i];
        proof {
            assert(pv.subrange(start as int, i + 1).drop_last() =~= pv.subrange(start as int, i as int));
            assert(pv.subrange(start as int, i + 1).last() == p@);
        }
        match group {
            Some(mut g) => {
                if read_group_close(p) {
                    let ghost before = x@;
                    let ghost gv = g@;
                    x.extension_data_groups.push(g);
                    proof {
                        assert(crate::tables::groups_view(x.extension_data_groups@) =~= before.groups.push(gv));
                    }
                    group = None;
                } else {
                    let ghost gv = g@;
                    g.items.push(ExtensionGroupItem::CodePair(p.duplicate()));
                    proof {
                        assert(g@.items =~= gv.items.push(p@));
                    }
                    group = Some(g);
                }
            },
            None => {
                match read_group_open(p) {
                    Some(n) => {
                        let g = ExtensionGroup { application_name: n, items: Vec::new() };
                        proof {
                            assert(g@.items =~= Seq::<PairView>::empty());
                        }
                        group = Some(g);
                    },
                    None => {
                        let r = apply_line_type_pair(&mut x, p);
                        if let Err(e) = r {
                            proof {
                                assert(line_type_read(pv.subrange(start as int, i + 1)) is Err);
                                assert(pv.subrange(start as int, end as int).subrange(0, i - start + 1) =~= pv.subrange(start as int, i + 1));
                                lemma_line_type_read_error(pv.subrange(start as int, end as int), (i - start + 1) as int);
                            }
                            return Err(e);
                        }
                        group = None;
                    },
                }
            },
        }
        i = i + 1;
    }
    match group {
        Some(g) => {
            let ghost before = x@;
            let ghost gv = g@;
            x.extension_data_groups.push(g);
            proof {
                assert(crate::tables::groups_view(x.extension_data_groups@) =~= before.groups.push(gv));
            }
        },
        None => {},
    }
    Ok(x)
}

proof fn lemma_line_type_read_error(ps: Seq<PairView>, k: int)
    requires
        0 < k <= ps.len(),
        line_type_read(ps.subrange(0, k)) is Err,
    ensures
        line_type_read(ps) == line_type_read(ps.subrange(0, k)),
    decreases ps.len(),
{
    if k < ps.len() {
        assert(ps.drop_last().subrange(0, k) =~= ps.subrange(0, k));
        lemma_line_type_read_error(ps.drop_last(), k);
        assert(line_type_read(ps) == line_type_step(line_type_read(ps.drop_last()), ps.last()));
    } else {
        assert(ps.subrange(0, k) =~= ps);
    }
}

/// The style after reading one of its pairs: its name (2), its handle (5), its text height (40) and width factor (41); a value of the wrong type for its code, or a handle that is not a hexadecimal numeral, is an error, and other pairs change nothing.
pub open spec fn style_apply(x: StyleModel, p: PairView) -> Result<StyleModel, DxfError> {
    if p.code == 2 {
        match p.value {
            ValueView::Str(s) => Ok(StyleModel { name: s, ..x }),
            _ => Err(DxfError::WrongValueType(p.code)),
        }
    } else if p.code == 5 {
        match p.value {
            ValueView::Str(s) => match handle_value(s) {
                Some(h) => Ok(StyleModel { handle: h, ..x }),
                None => Err(DxfError::ParseHandleError),
            },
            _ => Err(DxfError::WrongValueType(p.code)),
        }
    } else if p.code == 40 {
        match p.value {
            ValueView::Double(d) => Ok(StyleModel { text_height: d, ..x }),
            _ => Err(DxfError::WrongValueType(p.code)),
        }
    } else if p.code == 41 {
        match p.value {
            ValueView::Double(d) => Ok(StyleModel { width_factor: d, ..x }),
            _ => Err(DxfError::WrongValueType(p.code)),
        }
    } else {
        Ok(x)
    }
}

/// Reads one pair into a style, as `style_apply` describes.
fn apply_style_pair(x: &mut Style, p: &CodePair) -> (r: DxfResult<()>)
    ensures
        match style_apply(old(x)@, p@) {
            Ok(m) => r is Ok && final(x)@ == m,
            Err(e) => r == Err::<(), DxfError>(e),
        },
{
    if p.code == 2 {
        match &p.value {
            CodePairValue::Str(s) => {
                x.name = s.clone();
                Ok(())
            },
            _ => Err(DxfError::WrongValueType(p.code)),
        }
    } else if p.code == 5 {
        let h = read_handle(p)?;
        x.handle = h;
        Ok(())
    } else if p.code == 40 {
        match &p.value {
            CodePairValue::Double(d) => {
                x.text_height = *d;
                Ok(())
            },
            _ => Err(DxfError::WrongValueType(p.code)),
        }
    } else if p.code == 41 {
        match &p.value {
            CodePairValue::Double(d) => {
                x.width_factor = *d;
                Ok(())
            },
            _ => Err(DxfError::WrongValueType(p.code)),
        }
    } else {
        Ok(())
    }
}

/// One step of reading a style item's pairs: inside an extension data
/// group the pair is added to the group, or closes it; outside one, a pair
/// either opens a group or is read into the item; an error stays.
pub open spec fn style_step(r: Result<(StyleModel, Option<GroupModel>), DxfError>, p: PairView) -> Result<(StyleModel, Option<GroupModel>), DxfError> {
    match r {
        Err(e) => Err(e),
        Ok(st) => {
            let x = st.0;
            match st.1 {
                Some(g) => if is_group_close(p) {
                    Ok((StyleModel { groups: x.groups.push(g), ..x }, None))
                } else {
                    Ok((x, Some(GroupModel { items: g.items.push(p), ..g })))
                },
                None => match group_open(p) {
                    Some(n) => Ok((x, Some(GroupModel { application_name: n, items: Seq::empty() }))),
                    None => match style_apply(x, p) {
                        Ok(x2) => Ok((x2, None)),
                        Err(e) => Err(e),
                    },
                },
            }
        },
    }
}

/// The reading of the pairs `ps` in turn, from the state `r`.
pub open spec fn style_continue(r: Result<(StyleModel, Option<GroupModel>), DxfError>, ps: Seq<PairView>) -> Result<(StyleModel, Option<GroupModel>), DxfError>
    decreases ps.len(),
{
    if ps.len() == 0 {
        r
    } else {
        style_step(style_continue(r, ps.drop_last()), ps.last())
    }
}

/// The reading of a style item's pairs so far: the item, and the extension data group
/// that is open, if one is.
pub open spec fn style_read(ps: Seq<PairView>) -> Result<(StyleModel, Option<GroupModel>), DxfError> {
    style_continue(Ok((default_style(), None)), ps)
}

/// Reading two runs of pairs one after the other is reading them joined.
pub proof fn lemma_style_continue_append(r: Result<(StyleModel, Option<GroupModel>), DxfError>, a: Seq<PairView>, b: Seq<PairView>)
    ensures
        style_continue(r, a + b) == style_continue(style_continue(r, a), b),
    decreases b.len(),
{
    if b.len() == 0 {
        assert(a + b =~= a);
    } else {
        lemma_style_continue_append(r, a, b.drop_last());
        assert((a + b).drop_last() =~= a + b.drop_last());
    }
}

/// The style that the pairs of one item (those after its type pair) describe:
/// its pairs read in order; extension data groups are kept in the item, one left open
/// at the end being closed there.
pub open spec fn style_of(ps: Seq<PairView>) -> Result<StyleModel, DxfError> {
    match style_read(ps) {
        Err(e) => Err(e),
        Ok(st) => match st.1 {
            Some(g) => Ok(StyleModel { groups: st.0.groups.push(g), ..st.0 }),
            None => Ok(st.0),
        },
    }
}

/// Reads a style from the pairs `ps[start..end]`, as `style_of` describes.
pub(crate) fn style_from_pairs(ps: &Vec<CodePair>, start: usize, end: usize) -> (r: DxfResult<Style>)
    requires
        start <= end <= ps@.len(),
    ensures
        match style_of(crate::code_pair::pairs_view(ps@).subrange(start as int, end as int)) {
            Ok(m) => r matches Ok(x) && x@ == m,
            Err(e) => r matches Err(e2) && e2 == e,
        },
{
    let ghost pv = crate::code_pair::pairs_view(ps@);
    let mut x = Style::default();
    let mut group: Option<ExtensionGroup> = None;
    let mut i: usize = start;
    proof {
        assert(pv.subrange(start as int, start as int) =~= Seq::<PairView>::empty());
    }
    while i < end
        invariant
            start <= i <= end <= ps@.len(),
            pv == crate::code_pair::pairs_view(ps@),
            style_read(pv.subrange(start as int, i as int)) == Ok::<(StyleModel, Option<GroupModel>), DxfError>((
                x@,
                match group {
                    Some(g) => Some(g@),
                    None => None,
                },
            )),
        decreases end - i,
    {
        let p = &ps[i];
        proof {
            assert(pv.subrange(start as int, i + 1).drop_last() =~= pv.subrange(start as int, i as int));
            assert(pv.subrange(start as int, i + 1).last() == p@);
        }
        match group {
            Some(mut g) => {
                if read_group_close(p) {
                    let ghost before = x@;
                    let ghost gv = g@;
                    x.extension_data_groups.push(g);
                    proof {
                        assert(crate::tables::groups_view(x.extension_data_groups@) =~= before.groups.push(gv));
                    }
                    group = None;
                } else {
                    let ghost gv = g@;
                    g.items.push(ExtensionGroupItem::CodePair(p.duplicate()));
                    proof {
                        assert(g@.items =~= gv.items.push(p@));
                    }
                    group = Some(g);
                }
            },
            None => {
                match read_group_open(p) {
                    Some(n) => {
                        let g = ExtensionGroup { application_name: n, items: Vec::new() };
                        proof {
                            assert(g@.items =~= Seq::<PairView>::empty());
                        }
                        group = Some(g);
                    },
                    None => {
                        let r = apply_style_pair(&mut x, p);
                        if let Err(e) = r {
                            proof {
                                assert(style_read(pv.subrange(start as int, i + 1)) is Err);
                                assert(pv.subrange(start as int, end as int).subrange(0, i - start + 1) =~= pv.subrange(start as int, i + 1));
                                lemma_style_read_error(pv.subrange(start as int, end as int), (i - start + 1) as int);
                            }
                            return Err(e);
                        }
                        group = None;
                    },
                }
            },
        }
        i = i + 1;
    }
    match group {
        Some(g) => {
            let ghost before = x@;
            let ghost gv = g@;
            x.extension_data_groups.push(g);
            proof {
                assert(crate::tables::groups_view(x.extension_data_groups@) =~= before.groups.push(gv));
            }
        },
        None => {},
    }
    Ok(x)
}

proof fn lemma_style_read_error(ps: Seq<PairView>, k: int)
    requires
        0 < k <= ps.len(),
        style_read(ps.subrange(0, k)) is Err,
    ensures
        style_read(ps) == style_read(ps.subrange(0, k)),
    decreases ps.len(),
{
    if k < ps.len() {
        assert(ps.drop_last().subrange(0, k) =~= ps.subrange(0, k));
        lemma_style_read_error(ps.drop_last(), k);
        assert(style_read(ps) == style_step(style_read(ps.drop_last()), ps.last()));
    } else {
        assert(ps.subrange(0, k) =~= ps);
    }
}

/// The view after reading one of its pairs: its name (2), its handle (5), its height (40), width (41) and lens length (42); a value of the wrong type for its code, or a handle that is not a hexadecimal numeral, is an error, and other pairs change nothing.
pub open spec fn view_apply(x: ViewModel, p: PairView) -> Result<ViewModel, DxfError> {
    if p.code == 2 {
        match p.value {
            ValueView::Str(s) => Ok(ViewModel { name: s, ..x }),
            _ => Err(DxfError::WrongValueType(p.code)),
        }
    } else if p.code == 5 {
        match p.value {
            ValueView::Str(s) => match handle_value(s) {
                Some(h) => Ok(ViewModel { handle: h, ..x }),
                None => Err(DxfError::ParseHandleError),
            },
            _ => Err(DxfError::WrongValueType(p.code)),
        }
    } else if p.code == 40 {
        match p.value {
            ValueView::Double(d) => Ok(ViewModel { view_height: d, ..x }),
            _ => Err(DxfError::WrongValueType(p.code)),
        }
    } else if p.code == 41 {
        match p.value {
            ValueView::Double(d) => Ok(ViewModel { view_width: d, ..x }),
            _ => Err(DxfError::WrongValueType(p.code)),
        }
    } else if p.code == 42 {
        match p.value {
            ValueView::Double(d) => Ok(ViewModel { lens_length: d, ..x }),
            _ => Err(DxfError::WrongValueType(p.code)),
        }
    } else {
        Ok(x)
    }
}

/// Reads one pair into a view, as `view_apply` describes.
fn apply_view_pair(x: &mut View, p: &CodePair) -> (r: DxfResult<()>)
    ensures
        match view_apply(old(x)@, p@) {
            Ok(m) => r is Ok && final(x)@ == m,
            Err(e) => r == Err::<(), DxfError>(e),
        },
{
    if p.code == 2 {
        match &p.value {
            CodePairValue::Str(s) => {
                x.name = s.clone();
                Ok(())
            },
            _ => Err(DxfError::WrongValueType(p.code)),
        }
    } else if p.code == 5 {
        let h = read_handle(p)?;
        x.handle = h;
        Ok(())
    } else if p.code == 40 {
        match &p.value {
            CodePairValue::Double(d) => {
                x.view_height = *d;
                Ok(())
            },
            _ => Err(DxfError::WrongValueType(p.code)),
        }
    } else if p.code == 41 {
        match &p.value {
            CodePairValue::Double(d) => {
                x.view_width = *d;
                Ok(())
            },
            _ => Err(DxfError::WrongValueType(p.code)),
        }
    } else if p.code == 42 {
        match &p.value {
            CodePairValue::Double(d) => {
                x.lens_length = *d;
                Ok(())
            },
            _ => Err(DxfError::WrongValueType(p.code)),
        }
    } else {
        Ok(())
    }
}

/// One step of reading a view item's pairs: inside an extension data
/// group the pair is added to the group, or closes it; outside one, a pair
/// either opens a group or is read into the item; an error stays.
pub open spec fn view_step(r: Result<(ViewModel, Option<GroupModel>), DxfError>, p: PairView) -> Result<(ViewModel, Option<GroupModel>), DxfError> {
    match r {
        Err(e) => Err(e),
        Ok(st) => {
            let x = st.0;
            match st.1 {
                Some(g) => if is_group_close(p) {
                    Ok((ViewModel { groups: x.groups.push(g), ..x }, None))
                } else {
                    Ok((x, Some(GroupModel { items: g.items.push(p), ..g })))
                },
                None => match group_open(p) {
                    Some(n) => Ok((x, Some(GroupModel { application_name: n, items: Seq::empty() }))),
                    None => match view_apply(x, p) {
                        Ok(x2) => Ok((x2, None)),
                        Err(e) => Err(e),
                    },
                },
            }
        },
    }
}

/// The reading of the pairs `ps` in turn, from the state `r`.
pub open spec fn view_continue(r: Result<(ViewModel, Option<GroupModel>), DxfError>, ps: Seq<PairView>) -> Result<(ViewModel, Option<GroupModel>), DxfError>
    decreases ps.len(),
{
    if ps.len() == 0 {
        r
    } else {
        view_step(view_continue(r, ps.drop_last()), ps.last())
    }
}

/// The reading of a view item's pairs so far: the item, and the extension data group
/// that is open, if one is.
pub open spec fn view_read(ps: Seq<PairView>) -> Result<(ViewModel, Option<GroupModel>), DxfError> {
    view_continue(Ok((default_view(), None)), ps)
}

/// Reading two runs of pairs one after the other is reading them joined.
pub proof fn lemma_view_continue_append(r: Result<(ViewModel, Option<GroupModel>), DxfError>, a: Seq<PairView>, b: Seq<PairView>)
    ensures
        view_continue(r, a + b) == view_continue(view_continue(r, a), b),
    decreases b.len(),
{
    if b.len() == 0 {
        assert(a + b =~= a);
    } else {
        lemma_view_continue_append(r, a, b.drop_last());
        assert((a + b).drop_last() =~= a + b.drop_last());
    }
}

/// The view that the pairs of one item (those after its type pair) describe:
/// its pairs read in order; extension data groups are kept in the item, one left open
/// at the end being closed there.
pub open spec fn view_of(ps: Seq<PairView>) -> Result<ViewModel, DxfError> {
    match view_read(ps) {
        Err(e) => Err(e),
        Ok(st) => match st.1 {
            Some(g) => Ok(ViewModel { groups: st.0.groups.push(g), ..st.0 }),
            None => Ok(st.0),
        },
    }
}

/// Reads a view from the pairs `ps[start..end]`, as `view_of` describes.
pub(crate) fn view_from_pairs(ps: &Vec<CodePair>, start: usize, end: usize) -> (r: DxfResult<View>)
    requires
        start <= end <= ps@.len(),
    ensures
        match view_of(crate::code_pair::pairs_view(ps@).subrange(start as int, end as int)) {
            Ok(m) => r matches Ok(x) && x@ == m,
            Err(e) => r matches Err(e2) && e2 == e,
        },
{
    let ghost pv = crate::code_pair::pairs_view(ps@);
    let mut x = View::default();
    let mut group: Option<ExtensionGroup> = None;
    let mut i: usize = start;
    proof {
        assert(pv.subrange(start as int, start as int) =~= Seq::<PairView>::empty());
    }
    while i < end
        invariant
            start <= i <= end <= ps@.len(),
            pv == crate::code_pair::pairs_view(ps@),
            view_read(pv.subrange(start as int, i as int)) == Ok::<(ViewModel, Option<GroupModel>), DxfError>((
                x@,
                match group {
                    Some(g) => Some(g@),
                    None => None,
                },
            )),
        decreases end - i,
    {
        let p = &ps[i];
        proof {
            assert(pv.subrange(start as int, i + 1).drop_last() =~= pv.subrange(start as int, i as int));
            assert(pv.subrange(start as int, i + 1).last() == p@);
        }
        match group {
            Some(mut g) => {
                if read_group_close(p) {
                    let ghost before = x@;
                    let ghost gv = g@;
                    x.extension_data_groups.push(g);
                    proof {
                        assert(crate::tables::groups_view(x.extension_data_groups@) =~= before.groups.push(gv));
                    }
                    group = None;
                } else {
                    let ghost gv = g@;
                    g.items.push(ExtensionGroupItem::CodePair(p.duplicate()));
                    proof {
                        assert(g@.items =~= gv.items.push(p@));
                    }
                    group = Some(g);
                }
            },
            None => {
                match read_group_open(p) {
                    Some(n) => {
                        let g = ExtensionGroup { application_name: n, items: Vec::new() };
                        proof {
                            assert(g@.items =~= Seq::<PairView>::empty());
                        }
                        group = Some(g);
                    },
                    None => {
                        let r = apply_view_pair(&mut x, p);
                        if let Err(e) = r {
                            proof {
                                assert(view_read(pv.subrange(start as int, i + 1)) is Err);
                                assert(pv.subrange(start as int, end as int).subrange(0, i - start + 1) =~= pv.subrange(start as int, i + 1));
                                lemma_view_read_error(pv.subrange(start as int, end as int), (i - start + 1) as int);
                            }
                            return Err(e);
                        }
                        group = None;
                    },
                }
            },
        }
        i = i + 1;
    }
    match group {
        Some(g) => {
            let ghost before = x@;
            let ghost gv = g@;
            x.extension_data_groups.push(g);
            proof {
                assert(crate::tables::groups_view(x.extension_data_groups@) =~= before.groups.push(gv));
            }
        },
        None => {},
    }
    Ok(x)
}

proof fn lemma_view_read_error(ps: Seq<PairView>, k: int)
    requires
        0 < k <= ps.len(),
        view_read(ps.subrange(0, k)) is Err,
    ensures
        view_read(ps) == view_read(ps.subrange(0, k)),
    decreases ps.len(),
{
    if k < ps.len() {
        assert(ps.drop_last().subrange(0, k) =~= ps.subrange(0, k));
        lemma_view_read_error(ps.drop_last(), k);
        assert(view_read(ps) == view_step(view_read(ps.drop_last()), ps.last()));
    } else {
        assert(ps.subrange(0, k) =~= ps);
    }
}

/// The view port after reading one of its pairs: its name (2), its handle (5), its snap spacing (14, 24), grid spacing (15, 25), height (40), aspect ratio (41), lens length (42), UCS icon setting (74) and circle sides (72); a value of the wrong type for its code, or a handle that is not a hexadecimal numeral, is an error, and other pairs change nothing.
pub open spec fn view_port_apply(x: ViewPortModel, p: PairView) -> Result<ViewPortModel, DxfError> {
    if p.code == 2 {
        match p.value {
            ValueView::Str(s) => Ok(ViewPortModel { name: s, ..x }),
            _ => Err(DxfError::WrongValueType(p.code)),
        }
    } else if p.code == 5 {
        match p.value {
            ValueView::Str(s) => match handle_value(s) {
                Some(h) => Ok(ViewPortModel { handle: h, ..x }),
                None => Err(DxfError::ParseHandleError),
            },
            _ => Err(DxfError::WrongValueType(p.code)),
        }
    } else if p.code == 14 {
        match p.value {
            ValueView::Double(d) => Ok(ViewPortModel { snap_spacing: Vector { x: d, ..x.snap_spacing }, ..x }),
            _ => Err(DxfError::WrongValueType(p.code)),
        }
    } else if p.code == 24 {
        match p.value {
            ValueView::Double(d) => Ok(ViewPortModel { snap_spacing: Vector { y: d, ..x.snap_spacing }, ..x }),
            _ => Err(DxfError::WrongValueType(p.code)),
        }
    } else if p.code == 15 {
        match p.value {
            ValueView::Double(d) => Ok(ViewPortModel { grid_spacing: Vector { x: d, ..x.grid_spacing }, ..x }),
            _ => Err(DxfError::WrongValueType(p.code)),
        }
    } else if p.code == 25 {
        match p.value {
            ValueView::Double(d) => Ok(ViewPortModel { grid_spacing: Vector { y: d, ..x.grid_spacing }, ..x }),
            _ => Err(DxfError::WrongValueType(p.code)),
        }
    } else if p.code == 40 {
        match p.value {
            ValueView::Double(d) => Ok(ViewPortModel { view_height: d, ..x }),
            _ => Err(DxfError::WrongValueType(p.code)),
        }
    } else if p.code == 41 {
        match p.value {
            ValueView::Double(d) => Ok(ViewPortModel { view_port_aspect_ratio: d, ..x }),
            _ => Err(DxfError::WrongValueType(p.code)),
        }
    } else if p.code == 42 {
        match p.value {
            ValueView::Double(d) => Ok(ViewPortModel { lens_length: d, ..x }),
            _ => Err(DxfError::WrongValueType(p.code)),
        }
    } else if p.code == 74 {
        match p.value {
            ValueView::Short(v) => Ok(ViewPortModel { ucs_icon: v, ..x }),
            _ => Err(DxfError::WrongValueType(p.code)),
        }
    } else if p.code == 72 {
        match p.value {
            ValueView::Integer(v) => Ok(ViewPortModel { circle_sides: v, ..x }),
            _ => Err(DxfError::WrongValueType(p.code)),
        }
    } else {
        Ok(x)
    }
}

/// Reads one pair into a view port, as `view_port_apply` describes.
fn apply_view_port_pair(x: &mut ViewPort, p: &CodePair) -> (r: DxfResult<()>)
    ensures
        match view_port_apply(old(x)@, p@) {
            Ok(m) => r is Ok && final(x)@ == m,
            Err(e) => r == Err::<(), DxfError>(e),
        },
{
    if p.code == 2 {
        match &p.value {
            CodePairValue::Str(s) => {
                x.name = s.clone();
                Ok(())
            },
            _ => Err(DxfError::WrongValueType(p.code)),
        }
    } else if p.code == 5 {
        let h = read_handle(p)?;
        x.handle = h;
        Ok(())
    } else if p.code == 14 {
        match &p.value {
            CodePairValue::Double(d) => {
                x.snap_spacing.x = *d;
                Ok(())
            },
            _ => Err(DxfError::WrongValueType(p.code)),
        }
    } else if p.code == 24 {
        match &p.value {
            CodePairValue::Double(d) => {
                x.snap_spacing.y = *d;
                Ok(())
            },
            _ => Err(DxfError::WrongValueType(p.code)),
        }
    } else if p.code == 15 {
        match &p.value {
            CodePairValue::Double(d) => {
                x.grid_spacing.x = *d;
                Ok(())
            },
            _ => Err(DxfError::WrongValueType(p.code)),
        }
    } else if p.code == 25 {
        match &p.value {
            CodePairValue::Double(d) => {
                x.grid_spacing.y = *d;
                Ok(())
            },
            _ => Err(DxfError::WrongValueType(p.code)),
        }
    } else if p.code == 40 {
        match &p.value {
            CodePairValue::Double(d) => {
                x.view_height = *d;
                Ok(())
            },
            _ => Err(DxfError::WrongValueType(p.code)),
        }
    } else if p.code == 41 {
        match &p.value {
            CodePairValue::Double(d) => {
                x.view_port_aspect_ratio = *d;
                Ok(())
            },
            _ => Err(DxfError::WrongValueType(p.code)),
        }
    } else if p.code == 42 {
        match &p.value {
            CodePairValue::Double(d) => {
                x.lens_length = *d;
                Ok(())
            },
            _ => Err(DxfError::WrongValueType(p.code)),
        }
    } else if p.code == 74 {
        match &p.value {
            CodePairValue::Short(v) => {
                x.ucs_icon = *v;
                Ok(())
            },
            _ => Err(DxfError::WrongValueType(p.code)),
        }
    } else if p.code == 72 {
        match &p.value {
            CodePairValue::Integer(v) => {
                x.circle_sides = *v;
                Ok(())
            },
            _ => Err(DxfError::WrongValueType(p.code)),
        }
    } else {
        Ok(())
    }
}

/// One step of reading a view port item's pairs: inside an extension data
/// group the pair is added to the group, or closes it; outside one, a pair
/// either opens a group or is read into the item; an error stays.
pub open spec fn view_port_step(r: Result<(ViewPortModel, Option<GroupModel>), DxfError>, p: PairView) -> Result<(ViewPortModel, Option<GroupModel>), DxfError> {
    match r {
        Err(e) => Err(e),
        Ok(st) => {
            let x = st.0;
            match st.1 {
                Some(g) => if is_group_close(p) {
                    Ok((ViewPortModel { groups: x.groups.push(g), ..x }, None))
                } else {
                    Ok((x, Some(GroupModel { items: g.items.push(p), ..g })))
                },
                None => match group_open(p) {
                    Some(n) => Ok((x, Some(GroupModel { application_name: n, items: Seq::empty() }))),
                    None => match view_port_apply(x, p) {
                        Ok(x2) => Ok((x2, None)),
                        Err(e) => Err(e),
                    },
                },
            }
        },
    }
}

/// The reading of the pairs `ps` in turn, from the state `r`.
pub open spec fn view_port_continue(r: Result<(ViewPortModel, Option<GroupModel>), DxfError>, ps: Seq<PairView>) -> Result<(ViewPortModel, Option<GroupModel>), DxfError>
    decreases ps.len(),
{
    if ps.len() == 0 {
        r
    } else {
        view_port_step(view_port_continue(r, ps.drop_last()), ps.last())
    }
}

/// The reading of a view port item's pairs so far: the item, and the extension data group
/// that is open, if one is.
pub open spec fn view_port_read(ps: Seq<PairView>) -> Result<(ViewPortModel, Option<GroupModel>), DxfError> {
    view_port_continue(Ok((default_view_port(), None)), ps)
}

/// Reading two runs of pairs one after the other is reading them joined.
pub proof fn lemma_view_port_continue_append(r: Result<(ViewPortModel, Option<GroupModel>), DxfError>, a: Seq<PairView>, b: Seq<PairView>)
    ensures
        view_port_continue(r, a + b) == view_port_continue(view_port_continue(r, a), b),
    decreases b.len(),
{
    if b.len() == 0 {
        assert(a + b =~= a);
    } else {
        lemma_view_port_continue_append(r, a, b.drop_last());
        assert((a + b).drop_last() =~= a + b.drop_last());
    }
}

/// The view port that the pairs of one item (those after its type pair) describe:
/// its pairs read in order; extension data groups are kept in the item, one left open
/// at the end being closed there.
pub open spec fn view_port_of(ps: Seq<PairView>) -> Result<ViewPortModel, DxfError> {
    match view_port_read(ps) {
        Err(e) => Err(e),
        Ok(st) => match st.1 {
            Some(g) => Ok(ViewPortModel { groups: st.0.groups.push(g), ..st.0 }),
            None => Ok(st.0),
        },
    }
}

/// Reads a view port from the pairs `ps[start..end]`, as `view_port_of` describes.
pub(crate) fn view_port_from_pairs(ps: &Vec<CodePair>, start: usize, end: usize) -> (r: DxfResult<ViewPort>)
    requires
        start <= end <= ps@.len(),
    ensures
        match view_port_of(crate::code_pair::pairs_view(ps@).subrange(start as int, end as int)) {
            Ok(m) => r matches Ok(x) && x@ == m,
            Err(e) => r matches Err(e2) && e2 == e,
        },
{
    let ghost pv = crate::code_pair::pairs_view(ps@);
    let mut x = ViewPort::default();
    let mut group: Option<ExtensionGroup> = None;
    let mut i: usize = start;
    proof {
        assert(pv.subrange(start as int, start as int) =~= Seq::<PairView>::empty());
    }
    while i < end
        invariant
            start <= i <= end <= ps@.len(),
            pv == crate::code_pair::pairs_view(ps@),
            view_port_read(pv.subrange(start as int, i as int)) == Ok::<(ViewPortModel, Option<GroupModel>), DxfError>((
                x@,
                match group {
                    Some(g) => Some(g@),
                    None => None,
                },
            )),
        decreases end - i,
    {
        let p = &ps[i];
        proof {
            assert(pv.subrange(start as int, i + 1).drop_last() =~= pv.subrange(start as int, i as int));
            assert(pv.subrange(start as int, i + 1).last() == p@);
        }
        match group {
            Some(mut g) => {
                if read_group_close(p) {
                    let ghost before = x@;
                    let ghost gv = g@;
                    x.extension_data_groups.push(g);
                    proof {
                        assert(crate::tables::groups_view(x.extension_data_groups@) =~= before.groups.push(gv));
                    }
                    group = None;
                } else {
                    let ghost gv = g@;
                    g.items.push(ExtensionGroupItem::CodePair(p.duplicate()));
                    proof {
                        assert(g@.items =~= gv.items.push(p@));
                    }
                    group = Some(g);
                }
            },
            None => {
                match read_group_open(p) {
                    Some(n) => {
                        let g = ExtensionGroup { application_name: n, items: Vec::new() };
                        proof {
                            assert(g@.items =~= Seq::<PairView>::empty());
                        }
                        group = Some(g);
                    },
                    None => {
                        let r = apply_view_port_pair(&mut x, p);
                        if let Err(e) = r {
                            proof {
                                assert(view_port_read(pv.subrange(start as int, i + 1)) is Err);
                                assert(pv.subrange(start as int, end as int).subrange(0, i - start + 1) =~= pv.subrange(start as int, i + 1));
                                lemma_view_port_read_error(pv.subrange(start as int, end as int), (i - start + 1) as int);
                            }
                            return Err(e);
                        }
                        group = None;
                    },
                }
            },
        }
        i = i + 1;
    }
    match group {
        Some(g) => {
            let ghost before = x@;
            let ghost gv = g@;
            x.extension_data_groups.push(g);
            proof {
                assert(crate::tables::groups_view(x.extension_data_groups@) =~= before.groups.push(gv));
            }
        },
        None => {},
    }
    Ok(x)
}

proof fn lemma_view_port_read_error(ps: Seq<PairView>, k: int)
    requires
        0 < k <= ps.len(),
        view_port_read(ps.subrange(0, k)) is Err,
    ensures
        view_port_read(ps) == view_port_read(ps.subrange(0, k)),
    decreases ps.len(),
{
    if k < ps.len() {
        assert(ps.drop_last().subrange(0, k) =~= ps.subrange(0, k));
        lemma_view_port_read_error(ps.drop_last(), k);
        assert(view_port_read(ps) == view_port_step(view_port_read(ps.drop_last()), ps.last()));
    } else {
        assert(ps.subrange(0, k) =~= ps);
    }
}

/// The ucs after reading one of its pairs: its name (2), its handle (5); a value of the wrong type for its code, or a handle that is not a hexadecimal numeral, is an error, and other pairs change nothing.
pub open spec fn ucs_apply(x: NamedModel, p: PairView) -> Result<NamedModel, DxfError> {
    if p.code == 2 {
        match p.value {
            ValueView::Str(s) => Ok(NamedModel { name: s, ..x }),
            _ => Err(DxfError::WrongValueType(p.code)),
        }
    } else if p.code == 5 {
        match p.value {
            ValueView::Str(s) => match handle_value(s) {
                Some(h) => Ok(NamedModel { handle: h, ..x }),
                None => Err(DxfError::ParseHandleError),
            },
            _ => Err(DxfError::WrongValueType(p.code)),
        }
    } else {
        Ok(x)
    }
}

/// Reads one pair into a ucs, as `ucs_apply` describes.
fn apply_ucs_pair(x: &mut Ucs, p: &CodePair) -> (r: DxfResult<()>)
    ensures
        match ucs_apply(old(x)@, p@) {
            Ok(m) => r is Ok && final(x)@ == m,
            Err(e) => r == Err::<(), DxfError>(e),
        },
{
    if p.code == 2 {
        match &p.value {
            CodePairValue::Str(s) => {
                x.name = s.clone();
                Ok(())
            },
            _ => Err(DxfError::WrongValueType(p.code)),
        }
    } else if p.code == 5 {
        let h = read_handle(p)?;
        x.handle = h;
        Ok(())
    } else {
        Ok(())
    }
}

/// One step of reading a ucs item's pairs: inside an extension data
/// group the pair is added to the group, or closes it; outside one, a pair
/// either opens a group or is read into the item; an error stays.
pub open spec fn ucs_step(r: Result<(NamedModel, Option<GroupModel>), DxfError>, p: PairView) -> Result<(NamedModel, Option<GroupModel>), DxfError> {
    match r {
        Err(e) => Err(e),
        Ok(st) => {
            let x = st.0;
            match st.1 {
                Some(g) => if is_group_close(p) {
                    Ok((NamedModel { groups: x.groups.push(g), ..x }, None))
                } else {
                    Ok((x, Some(GroupModel { items: g.items.push(p), ..g })))
                },
                None => match group_open(p) {
                    Some(n) => Ok((x, Some(GroupModel { application_name: n, items: Seq::empty() }))),
                    None => match ucs_apply(x, p) {
                        Ok(x2) => Ok((x2, None)),
                        Err(e) => Err(e),
                    },
                },
            }
        },
    }
}

/// The reading of the pairs `ps` in turn, from the state `r`.
pub open spec fn ucs_continue(r: Result<(NamedModel, Option<GroupModel>), DxfError>, ps: Seq<PairView>) -> Result<(NamedModel, Option<GroupModel>), DxfError>
    decreases ps.len(),
{
    if ps.len() == 0 {
        r
    } else {
        ucs_step(ucs_continue(r, ps.drop_last()), ps.last())
    }
}

/// The reading of a ucs item's pairs so far: the item, and the extension data group
/// that is open, if one is.
pub open spec fn ucs_read(ps: Seq<PairView>) -> Result<(NamedModel, Option<GroupModel>), DxfError> {
    ucs_continue(Ok((named_default(), None)), ps)
}

/// Reading two runs of pairs one after the other is reading them joined.
pub proof fn lemma_ucs_continue_append(r: Result<(NamedModel, Option<GroupModel>), DxfError>, a: Seq<PairView>, b: Seq<PairView>)
    ensures
        ucs_continue(r, a + b) == ucs_continue(ucs_continue(r, a), b),
    decreases b.len(),
{
    if b.len() == 0 {
        assert(a + b =~= a);
    } else {
        lemma_ucs_continue_append(r, a, b.drop_last());
        assert((a + b).drop_last() =~= a + b.drop_last());
    }
}

/// The ucs that the pairs of one item (those after its type pair) describe:
/// its pairs read in order; extension data groups are kept in the item, one left open
/// at the end being closed there.
pub open spec fn ucs_of(ps: Seq<PairView>) -> Result<NamedModel, DxfError> {
    match ucs_read(ps) {
        Err(e) => Err(e),
        Ok(st) => match st.1 {
            Some(g) => Ok(NamedModel { groups: st.0.groups.push(g), ..st.0 }),
            None => Ok(st.0),
        },
    }
}

/// Reads a ucs from the pairs `ps[start..end]`, as `ucs_of` describes.
pub(crate) fn ucs_from_pairs(ps: &Vec<CodePair>, start: usize, end: usize) -> (r: DxfResult<Ucs>)
    requires
        start <= end <= ps@.len(),
    ensures
        match ucs_of(crate::code_pair::pairs_view(ps@).subrange(start as int, end as int)) {
            Ok(m) => r matches Ok(x) && x@ == m,
            Err(e) => r matches Err(e2) && e2 == e,
        },
{
    let ghost pv = crate::code_pair::pairs_view(ps@);
    let mut x = Ucs::default();
    let mut group: Option<ExtensionGroup> = None;
    let mut i: usize = start;
    proof {
        assert(pv.subrange(start as int, start as int) =~= Seq::<PairView>::empty());
    }
    while i < end
        invariant
            start <= i <= end <= ps@.len(),
            pv == crate::code_pair::pairs_view(ps@),
            ucs_read(pv.subrange(start as int, i as int)) == Ok::<(NamedModel, Option<GroupModel>), DxfError>((
                x@,
                match group {
                    Some(g) => Some(g@),
                    None => None,
                },
            )),
        decreases end - i,
    {
        let p = &ps[i];
        proof {
            assert(pv.subrange(start as int, i + 1).drop_last() =~= pv.subrange(start as int, i as int));
            assert(pv.subrange(start as int, i + 1).last() == p@);
        }
        match group {
            Some(mut g) => {
                if read_group_close(p) {
                    let ghost before = x@;
                    let ghost gv = g@;
                    x.extension_data_groups.push(g);
                    proof {
                        assert(crate::tables::groups_view(x.extension_data_groups@) =~= before.groups.push(gv));
                    }
                    group = None;
                } else {
                    let ghost gv = g@;
                    g.items.push(ExtensionGroupItem::CodePair(p.duplicate()));
                    proof {
                        assert(g@.items =~= gv.items.push(p@));
                    }
                    group = Some(g);
                }
            },
            None => {
                match read_group_open(p) {
                    Some(n) => {
                        let g = ExtensionGroup { application_name: n, items: Vec::new() };
                        proof {
                            assert(g@.items =~= Seq::<PairView>::empty());
                        }
                        group = Some(g);
                    },
                    None => {
                        let r = apply_ucs_pair(&mut x, p);
                        if let Err(e) = r {
                            proof {
                                assert(ucs_read(pv.subrange(start as int, i + 1)) is Err);
                                assert(pv.subrange(start as int, end as int).subrange(0, i - start + 1) =~= pv.subrange(start as int, i + 1));
                                lemma_ucs_read_error(pv.subrange(start as int, end as int), (i - start + 1) as int);
                            }
                            return Err(e);
                        }
                        group = None;
                    },
                }
            },
        }
        i = i + 1;
    }
    match group {
        Some(g) => {
            let ghost before = x@;
            let ghost gv = g@;
            x.extension_data_groups.push(g);
            proof {
                assert(crate::tables::groups_view(x.extension_data_groups@) =~= before.groups.push(gv));
            }
        },
        None => {},
    }
    Ok(x)
}

proof fn lemma_ucs_read_error(ps: Seq<PairView>, k: int)
    requires
        0 < k <= ps.len(),
        ucs_read(ps.subrange(0, k)) is Err,
    ensures
        ucs_read(ps) == ucs_read(ps.subrange(0, k)),
    decreases ps.len(),
{
    if k < ps.len() {
        assert(ps.drop_last().subrange(0, k) =~= ps.subrange(0, k));
        lemma_ucs_read_error(ps.drop_last(), k);
        assert(ucs_read(ps) == ucs_step(ucs_read(ps.drop_last()), ps.last()));
    } else {
        assert(ps.subrange(0, k) =~= ps);
    }
}

/// The app id after reading one of its pairs: its name (2), its handle (5); a value of the wrong type for its code, or a handle that is not a hexadecimal numeral, is an error, and other pairs change nothing.
pub open spec fn app_id_apply(x: NamedModel, p: PairView) -> Result<NamedModel, DxfError> {
    if p.code == 2 {
        match p.value {
            ValueView::Str(s) => Ok(NamedModel { name: s, ..x }),
            _ => Err(DxfError::WrongValueType(p.code)),
        }
    } else if p.code == 5 {
        match p.value {
            ValueView::Str(s) => match handle_value(s) {
                Some(h) => Ok(NamedModel { handle: h, ..x }),
                None => Err(DxfError::ParseHandleError),
            },
            _ => Err(DxfError::WrongValueType(p.code)),
        }
    } else {
        Ok(x)
    }
}

/// Reads one pair into a app id, as `app_id_apply` describes.
fn apply_app_id_pair(x: &mut AppId, p: &CodePair) -> (r: DxfResult<()>)
    ensures
        match app_id_apply(old(x)@, p@) {
            Ok(m) => r is Ok && final(x)@ == m,
            Err(e) => r == Err::<(), DxfError>(e),
        },
{
    if p.code == 2 {
        match &p.value {
            CodePairValue::Str(s) => {
                x.name = s.clone();
                Ok(())
            },
            _ => Err(DxfError::WrongValueType(p.code)),
        }
    } else if p.code == 5 {
        let h = read_handle(p)?;
        x.handle = h;
        Ok(())
    } else {
        Ok(())
    }
}

/// One step of reading a app id item's pairs: inside an extension data
/// group the pair is added to the group, or closes it; outside one, a pair
/// either opens a group or is read into the item; an error stays.
pub open spec fn app_id_step(r: Result<(NamedModel, Option<GroupModel>), DxfError>, p: PairView) -> Result<(NamedModel, Option<GroupModel>), DxfError> {
    match r {
        Err(e) => Err(e),
        Ok(st) => {
            let x = st.0;
            match st.1 {
                Some(g) => if is_group_close(p) {
                    Ok((NamedModel { groups: x.groups.push(g), ..x }, None))
                } else {
                    Ok((x, Some(GroupModel { items: g.items.push(p), ..g })))
                },
                None => match group_open(p) {
                    Some(n) => Ok((x, Some(GroupModel { application_name: n, items: Seq::empty() }))),
                    None => match app_id_apply(x, p) {
                        Ok(x2) => Ok((x2, None)),
                        Err(e) => Err(e),
                    },
                },
            }
        },
    }
}

/// The reading of the pairs `ps` in turn, from the state `r`.
pub open spec fn app_id_continue(r: Result<(NamedModel, Option<GroupModel>), DxfError>, ps: Seq<PairView>) -> Result<(NamedModel, Option<GroupModel>), DxfError>
    decreases ps.len(),
{
    if ps.len() == 0 {
        r
    } else {
        app_id_step(app_id_continue(r, ps.drop_last()), ps.last())
    }
}

/// The reading of a app id item's pairs so far: the item, and the extension data group
/// that is open, if one is.
pub open spec fn app_id_read(ps: Seq<PairView>) -> Result<(NamedModel, Option<GroupModel>), DxfError> {
    app_id_continue(Ok((named_default(), None)), ps)
}

/// Reading two runs of pairs one after the other is reading them joined.
pub proof fn lemma_app_id_continue_append(r: Result<(NamedModel, Option<GroupModel>), DxfError>, a: Seq<PairView>, b: Seq<PairView>)
    ensures
        app_id_continue(r, a + b) == app_id_continue(app_id_continue(r, a), b),
    decreases b.len(),
{
    if b.len() == 0 {
        assert(a + b =~= a);
    } else {
        lemma_app_id_continue_append(r, a, b.drop_last());
        assert((a + b).drop_last() =~= a + b.drop_last());
    }
}

/// The app id that the pairs of one item (those after its type pair) describe:
/// its pairs read in order; extension data groups are kept in the item, one left open
/// at the end being closed there.
pub open spec fn app_id_of(ps: Seq<PairView>) -> Result<NamedModel, DxfError> {
    match app_id_read(ps) {
        Err(e) => Err(e),
        Ok(st) => match st.1 {
            Some(g) => Ok(NamedModel { groups: st.0.groups.push(g), ..st.0 }),
            None => Ok(st.0),
        },
    }
}

/// Reads a app id from the pairs `ps[start..end]`, as `app_id_of` describes.
pub(crate) fn app_id_from_pairs(ps: &Vec<CodePair>, start: usize, end: usize) -> (r: DxfResult<AppId>)
    requires
        start <= end <= ps@.len(),
    ensures
        match app_id_of(crate::code_pair::pairs_view(ps@).subrange(start as int, end as int)) {
            Ok(m) => r matches Ok(x) && x@ == m,
            Err(e) => r matches Err(e2) && e2 == e,
        },
{
    let ghost pv = crate::code_pair::pairs_view(ps@);
    let mut x = AppId::default();
    let mut group: Option<ExtensionGroup> = None;
    let mut i: usize = start;
    proof {
        assert(pv.subrange(start as int, start as int) =~= Seq::<PairView>::empty());
    }
    while i < end
        invariant
            start <= i <= end <= ps@.len(),
            pv == crate::code_pair::pairs_view(ps@),
            app_id_read(pv.subrange(start as int, i as int)) == Ok::<(NamedModel, Option<GroupModel>), DxfError>((
                x@,
                match group {
                    Some(g) => Some(g@),
                    None => None,
                },
            )),
        decreases end - i,
    {
        let p = &ps[i];
        proof {
            assert(pv.subrange(start as int, i + 1).drop_last() =~= pv.subrange(start as int, i as int));
            assert(pv.subrange(start as int, i + 1).last() == p@);
        }
        match group {
            Some(mut g) => {
                if read_group_close(p) {
                    let ghost before = x@;
                    let ghost gv = g@;
                    x.extension_data_groups.push(g);
                    proof {
                        assert(crate::tables::groups_view(x.extension_data_groups@) =~= before.groups.push(gv));
                    }
                    group = None;
                } else {
                    let ghost gv = g@;
                    g.items.push(ExtensionGroupItem::CodePair(p.duplicate()));
                    proof {
                        assert(g@.items =~= gv.items.push(p@));
                    }
                    group = Some(g);
                }
            },
            None => {
                match read_group_open(p) {
                    Some(n) => {
                        let g = ExtensionGroup { application_name: n, items: Vec::new() };
                        proof {
                            assert(g@.items =~= Seq::<PairView>::empty());
                        }
                        group = Some(g);
                    },
                    None => {
                        let r = apply_app_id_pair(&mut x, p);
                        if let Err(e) = r {
                            proof {
                                assert(app_id_read(pv.subrange(start as int, i + 1)) is Err);
                                assert(pv.subrange(start as int, end as int).subrange(0, i - start + 1) =~= pv.subrange(start as int, i + 1));
                                lemma_app_id_read_error(pv.subrange(start as int, end as int), (i - start + 1) as int);
                            }
                            return Err(e);
                        }
                        group = None;
                    },
                }
            },
        }
        i = i + 1;
    }
    match group {
        Some(g) => {
            let ghost before = x@;
            let ghost gv = g@;
            x.extension_data_groups.push(g);
            proof {
                assert(crate::tables::groups_view(x.extension_data_groups@) =~= before.groups.push(gv));
            }
        },
        None => {},
    }
    Ok(x)
}

proof fn lemma_app_id_read_error(ps: Seq<PairView>, k: int)
    requires
        0 < k <= ps.len(),
        app_id_read(ps.subrange(0, k)) is Err,
    ensures
        app_id_read(ps) == app_id_read(ps.subrange(0, k)),
    decreases ps.len(),
{
    if k < ps.len() {
        assert(ps.drop_last().subrange(0, k) =~= ps.subrange(0, k));
        lemma_app_id_read_error(ps.drop_last(), k);
        assert(app_id_read(ps) == app_id_step(app_id_read(ps.drop_last()), ps.last()));
    } else {
        assert(ps.subrange(0, k) =~= ps);
    }
}

/// The block record after reading one of its pairs: its name (2), its handle (5); a value of the wrong type for its code, or a handle that is not a hexadecimal numeral, is an error, and other pairs change nothing.
pub open spec fn block_record_apply(x: NamedModel, p: PairView) -> Result<NamedModel, DxfError> {
    if p.code == 2 {
        match p.value {
            ValueView::Str(s) => Ok(NamedModel { name: s, ..x }),
            _ => Err(DxfError::WrongValueType(p.code)),
        }
    } else if p.code == 5 {
        match p.value {
            ValueView::Str(s) => match handle_value(s) {
                Some(h) => Ok(NamedModel { handle: h, ..x }),
                None => Err(DxfError::ParseHandleError),
            },
            _ => Err(DxfError::WrongValueType(p.code)),
        }
    } else {
        Ok(x)
    }
}

/// Reads one pair into a block record, as `block_record_apply` describes.
fn apply_block_record_pair(x: &mut BlockRecord, p: &CodePair) -> (r: DxfResult<()>)
    ensures
        match block_record_apply(old(x)@, p@) {
            Ok(m) => r is Ok && final(x)@ == m,
            Err(e) => r == Err::<(), DxfError>(e),
        },
{
    if p.code == 2 {
        match &p.value {
            CodePairValue::Str(s) => {
                x.name = s.clone();
                Ok(())
            },
            _ => Err(DxfError::WrongValueType(p.code)),
        }
    } else if p.code == 5 {
        let h = read_handle(p)?;
        x.handle = h;
        Ok(())
    } else {
        Ok(())
    }
}

/// One step of reading a block record item's pairs: inside an extension data
/// group the pair is added to the group, or closes it; outside one, a pair
/// either opens a group or is read into the item; an error stays.
pub open spec fn block_record_step(r: Result<(NamedModel, Option<GroupModel>), DxfError>, p: PairView) -> Result<(NamedModel, Option<GroupModel>), DxfError> {
    match r {
        Err(e) => Err(e),
        Ok(st) => {
            let x = st.0;
            match st.1 {
                Some(g) => if is_group_close(p) {
                    Ok((NamedModel { groups: x.groups.push(g), ..x }, None))
                } else {
                    Ok((x, Some(GroupModel { items: g.items.push(p), ..g })))
                },
                None => match group_open(p) {
                    Some(n) => Ok((x, Some(GroupModel { application_name: n, items: Seq::empty() }))),
                    None => match block_record_apply(x, p) {
                        Ok(x2) => Ok((x2, None)),
                        Err(e) => Err(e),
                    },
                },
            }
        },
    }
}

/// The reading of the pairs `ps` in turn, from the state `r`.
pub open spec fn block_record_continue(r: Result<(NamedModel, Option<GroupModel>), DxfError>, ps: Seq<PairView>) -> Result<(NamedModel, Option<GroupModel>), DxfError>
    decreases ps.len(),
{
    if ps.len() == 0 {
        r
    } else {
        block_record_step(block_record_continue(r, ps.drop_last()), ps.last())
    }
}

/// The reading of a block record item's pairs so far: the item, and the extension data group
/// that is open, if one is.
pub open spec fn block_record_read(ps: Seq<PairView>) -> Result<(NamedModel, Option<GroupModel>), DxfError> {
    block_record_continue(Ok((named_default(), None)), ps)
}

/// Reading two runs of pairs one after the other is reading them joined.
pub proof fn lemma_block_record_continue_append(r: Result<(NamedModel, Option<GroupModel>), DxfError>, a: Seq<PairView>, b: Seq<PairView>)
    ensures
        block_record_continue(r, a + b) == block_record_continue(block_record_continue(r, a), b),
    decreases b.len(),
{
    if b.len() == 0 {
        assert(a + b =~= a);
    } else {
        lemma_block_record_continue_append(r, a, b.drop_last());
        assert((a + b).drop_last() =~= a + b.drop_last());
    }
}

/// The block record that the pairs of one item (those after its type pair) describe:
/// its pairs read in order; extension data groups are kept in the item, one left open
/// at the end being closed there.
pub open spec fn block_record_of(ps: Seq<PairView>) -> Result<NamedModel, DxfError> {
    match block_record_read(ps) {
        Err(e) => Err(e),
        Ok(st) => match st.1 {
            Some(g) => Ok(NamedModel { groups: st.0.groups.push(g), ..st.0 }),
            None => Ok(st.0),
        },
    }
}

/// Reads a block record from the pairs `ps[start..end]`, as `block_record_of` describes.
pub(crate) fn block_record_from_pairs(ps: &Vec<CodePair>, start: usize, end: usize) -> (r: DxfResult<BlockRecord>)
    requires
        start <= end <= ps@.len(),
    ensures
        match block_record_of(crate::code_pair::pairs_view(ps@).subrange(start as int, end as int)) {
            Ok(m) => r matches Ok(x) && x@ == m,
            Err(e) => r matches Err(e2) && e2 == e,
        },
{
    let ghost pv = crate::code_pair::pairs_view(ps@);
    let mut x = BlockRecord::default();
    let mut group: Option<ExtensionGroup> = None;
    let mut i: usize = start;
    proof {
        assert(pv.subrange(start as int, start as int) =~= Seq::<PairView>::empty());
    }
    while i < end
        invariant
            start <= i <= end <= ps@.len(),
            pv == crate::code_pair::pairs_view(ps@),
            block_record_read(pv.subrange(start as int, i as int)) == Ok::<(NamedModel, Option<GroupModel>), DxfError>((
                x@,
                match group {
                    Some(g) => Some(g@),
                    None => None,
                },
            )),
        decreases end - i,
    {
        let p = &ps[i];
        proof {
            assert(pv.subrange(start as int, i + 1).drop_last() =~= pv.subrange(start as int, i as int));
            assert(pv.subrange(start as int, i + 1).last() == p@);
        }
        match group {
            Some(mut g) => {
                if read_group_close(p) {
                    let ghost before = x@;
                    let ghost gv = g@;
                    x.extension_data_groups.push(g);
                    proof {
                        assert(crate::tables::groups_view(x.extension_data_groups@) =~= before.groups.push(gv));
                    }
                    group = None;
                } else {
                    let ghost gv = g@;
                    g.items.push(ExtensionGroupItem::CodePair(p.duplicate()));
                    proof {
                        assert(g@.items =~= gv.items.push(p@));
                    }
                    group = Some(g);
                }
            },
            None => {
                match read_group_open(p) {
                    Some(n) => {
                        let g = ExtensionGroup { application_name: n, items: Vec::new() };
                        proof {
                            assert(g@.items =~= Seq::<PairView>::empty());
                        }
                        group = Some(g);
                    },
                    None => {
                        let r = apply_block_record_pair(&mut x, p);
                        if let Err(e) = r {
                            proof {
                                assert(block_record_read(pv.subrange(start as int, i + 1)) is Err);
                                assert(pv.subrange(start as int, end as int).subrange(0, i - start + 1) =~= pv.subrange(start as int, i + 1));
                                lemma_block_record_read_error(pv.subrange(start as int, end as int), (i - start + 1) as int);
                            }
                            return Err(e);
                        }
                        group = None;
                    },
                }
            },
        }
        i = i + 1;
    }
    match group {
        Some(g) => {
            let ghost before = x@;
            let ghost gv = g@;
            x.extension_data_groups.push(g);
            proof {
                assert(crate::tables::groups_view(x.extension_data_groups@) =~= before.groups.push(gv));
            }
        },
        None => {},
    }
    Ok(x)
}

proof fn lemma_block_record_read_error(ps: Seq<PairView>, k: int)
    requires
        0 < k <= ps.len(),
        block_record_read(ps.subrange(0, k)) is Err,
    ensures
        block_record_read(ps) == block_record_read(ps.subrange(0, k)),
    decreases ps.len(),
{
    if k < ps.len() {
        assert(ps.drop_last().subrange(0, k) =~= ps.subrange(0, k));
        lemma_block_record_read_error(ps.drop_last(), k);
        assert(block_record_read(ps) == block_record_step(block_record_read(ps.drop_last()), ps.last()));
    } else {
        assert(ps.subrange(0, k) =~= ps);
    }
}

} // verus!
